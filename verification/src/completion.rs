//! Where a completion goes in the input line, and what the line becomes.
use crate::text::{byte_len, byte_offset_of, push_all, split_whitespace, split_ws, str_chars, string_from_chars};
use vstd::prelude::*;

verus! {

broadcast use vstd::std_specs::vec::group_vec_axioms;

/// The index of the last space of `s`, if any.
pub open spec fn last_space(s: Seq<char>) -> Option<int>
    decreases s.len(),
{
    if s.len() == 0 {
        None
    } else if s.last() == ' ' {
        Some(s.len() - 1)
    } else {
        last_space(s.drop_last())
    }
}

/// The input is a command (it starts with `/`).
pub open spec fn is_command(s: Seq<char>) -> bool {
    s.len() > 0 && s[0] == '/'
}

/// The command name itself is being completed: one word at most and no
/// space after it, or just `/`.
pub open spec fn completing_command_name(s: Seq<char>) -> bool {
    (split_ws(s).len() <= 1 && !(s.len() > 0 && s.last() == ' ')) || s == seq!['/']
}

/// Byte offset at which the completed word starts.
pub open spec fn start_position_spec(s: Seq<char>) -> int {
    if is_command(s) && completing_command_name(s) {
        0
    } else {
        match last_space(s) {
            Some(k) => byte_len(s.take(k + 1)) as int,
            None => 0,
        }
    }
}

/// The input once `candidate` is completed into it: a command name gets a
/// space after it; otherwise the last word is replaced; a lone word that
/// is not a command or an emoji becomes a salutation (`name: `).
pub open spec fn replacement_spec(s: Seq<char>, candidate: Seq<char>, candidate_is_emoji: bool) -> Seq<char> {
    if is_command(s) && completing_command_name(s) {
        candidate + seq![' ']
    } else {
        match last_space(s) {
            Some(k) => s.take(k + 1) + candidate,
            None => if !is_command(s) && !candidate_is_emoji {
                candidate + seq![':', ' ']
            } else {
                candidate
            },
        }
    }
}

/// The index of the last space of `s`.
fn last_space_exec(s: &Vec<char>) -> (r: Option<usize>)
    ensures
        match r {
            Some(k) => last_space(s@) == Some(k as int) && k < s@.len() && s@[k as int] == ' ',
            None => last_space(s@) is None,
        },
{
    let mut i: usize = s.len();
    assert(s@.take(i as int) =~= s@);
    while i > 0
        invariant
            i <= s@.len(),
            last_space(s@) == last_space(s@.take(i as int)),
        decreases i,
    {
        if s[i - 1] == ' ' {
            return Some(i - 1);
        }
        assert(s@.take(i as int).drop_last() =~= s@.take(i - 1));
        i = i - 1;
    }
    None
}

/// The command name itself is being completed.
fn completing_command_name_exec(s: &Vec<char>) -> (r: bool)
    ensures
        r == completing_command_name(s@),
{
    let words = split_whitespace(s.as_slice());
    proof {
        assert(words@.map_values(|w: Vec<char>| w@).len() == words@.len());
    }
    let ends_space = s.len() > 0 && s[s.len() - 1] == ' ';
    let just_slash = s.len() == 1 && s[0] == '/';
    proof {
        if just_slash {
            assert(s@ =~= seq!['/']);
        }
        if s@ == seq!['/'] {
            assert(s@.len() == 1 && s@[0] == '/');
        }
    }
    (words.len() <= 1 && !ends_space) || just_slash
}

/// Byte offset at which the word being completed starts.
pub fn get_start_position(input: &str) -> (r: usize)
    ensures
        r == start_position_spec(input@),
{
    let s = str_chars(input);
    if s.len() > 0 && s[0] == '/' && completing_command_name_exec(&s) {
        return 0;
    }
    match last_space_exec(&s) {
        Some(k) => {
            proof {
                crate::text::lemma_encode_utf8_len(input@);
                crate::text::lemma_byte_len_prefix_le(s@, k as int + 1);
            }
            let n = input.as_bytes().len();
            byte_offset_of(s.as_slice(), k + 1)
        },
        None => 0,
    }
}

/// The input once `candidate` is completed into it.  Whether the
/// candidate is an emoji decides if a lone word gets the `name: `
/// salutation form.
pub fn get_replacement(original_input: &str, candidate: &str, candidate_is_emoji: bool) -> (r: String)
    ensures
        r@ == replacement_spec(original_input@, candidate@, candidate_is_emoji),
{
    let s = str_chars(original_input);
    let c = str_chars(candidate);
    let mut out: Vec<char> = Vec::new();
    if s.len() > 0 && s[0] == '/' && completing_command_name_exec(&s) {
        push_all(&mut out, c.as_slice());
        out.push(' ');
        assert(out@ =~= replacement_spec(original_input@, candidate@, candidate_is_emoji));
        return string_from_chars(out.as_slice());
    }
    match last_space_exec(&s) {
        Some(k) => {
            let head = crate::text::chars_range(s.as_slice(), 0, k + 1);
            push_all(&mut out, head.as_slice());
            push_all(&mut out, c.as_slice());
        },
        None => {
            push_all(&mut out, c.as_slice());
            if !(s.len() > 0 && s[0] == '/') && !candidate_is_emoji {
                out.push(':');
                out.push(' ');
            }
        },
    }
    assert(out@ =~= replacement_spec(original_input@, candidate@, candidate_is_emoji));
    string_from_chars(out.as_slice())
}

} // verus!
