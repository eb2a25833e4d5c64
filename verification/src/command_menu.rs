//! The slash-command menu: commands with aliases and subcommands, fuzzy
//! ranking of commands against a filter, and the menu's selection state.
use crate::text::{
    byte_len, char_is_whitespace, char_to_lowercase_first, char_utf8_len, chars_eq,
    chars_starts_with, is_whitespace_char, lemma_byte_len_push, lowercase_first, lowercase_str,
    str_chars, str_to_lowercase, split_ws, join_space, split_whitespace, join_with_space, string_from_chars, push_all, chars_range,
};
use vstd::prelude::*;

verus! {

broadcast use vstd::std_specs::vec::group_vec_axioms;

/// A command of the menu.
pub struct Command {
    pub name: String,
    pub aliases: Vec<String>,
    pub description: String,
    pub short_description: Option<String>,
    pub args: String,
    pub short_args: Option<String>,
    pub subcommands: Vec<Command>,
    pub is_dynamic: bool,
}

/// The abstract value of a `Command`.
pub struct CommandView {
    pub name: Seq<char>,
    pub aliases: Seq<Seq<char>>,
    pub description: Seq<char>,
    pub short_description: Option<Seq<char>>,
    pub args: Seq<char>,
    pub short_args: Option<Seq<char>>,
    pub subcommands: Seq<CommandView>,
    pub is_dynamic: bool,
}

pub open spec fn strings_view(v: Seq<String>) -> Seq<Seq<char>> {
    v.map_values(|s: String| s@)
}

pub open spec fn opt_string_view(o: Option<String>) -> Option<Seq<char>> {
    match o {
        Some(s) => Some(s@),
        None => None,
    }
}

/// The abstract value of a command.
pub open spec fn command_view(c: Command) -> CommandView
    decreases c,
{
    CommandView {
        name: c.name@,
        aliases: strings_view(c.aliases@),
        description: c.description@,
        short_description: opt_string_view(c.short_description),
        args: c.args@,
        short_args: opt_string_view(c.short_args),
        subcommands: commands_view(c.subcommands@),
        is_dynamic: c.is_dynamic,
    }
}

/// The abstract values of a list of commands.
pub open spec fn commands_view(s: Seq<Command>) -> Seq<CommandView>
    decreases s,
{
    if s.len() == 0 {
        seq![]
    } else {
        commands_view(s.drop_last()).push(command_view(s.last()))
    }
}


pub proof fn lemma_commands_view(s: Seq<Command>)
    ensures
        commands_view(s).len() == s.len(),
        forall|i: int| 0 <= i < s.len() ==> #[trigger] commands_view(s)[i] == command_view(s[i]),
    decreases s.len(),
{
    if s.len() > 0 {
        lemma_commands_view(s.drop_last());
    }
}

fn clone_strings(v: &Vec<String>) -> (r: Vec<String>)
    ensures
        r@ == v@,
{
    let mut r: Vec<String> = Vec::new();
    let mut i: usize = 0;
    while i < v.len()
        invariant
            i <= v.len(),
            r@ == v@.take(i as int),
        decreases v.len() - i,
    {
        r.push(v[i].clone());
        assert(v@.take(i as int + 1) =~= v@.take(i as int).push(v@[i as int]));
        i = i + 1;
    }
    assert(v@.take(v.len() as int) =~= v@);
    r
}

fn clone_opt_string(o: &Option<String>) -> (r: Option<String>)
    ensures
        r == *o,
{
    match o {
        Some(s) => Some(s.clone()),
        None => None,
    }
}

/// A copy of a command, subcommands included.
pub fn clone_command(c: &Command) -> (r: Command)
    ensures
        command_view(r) == command_view(*c),
    decreases c,
{
    let subs = clone_commands(&c.subcommands);
    let r = Command {
        name: c.name.clone(),
        aliases: clone_strings(&c.aliases),
        description: c.description.clone(),
        short_description: clone_opt_string(&c.short_description),
        args: c.args.clone(),
        short_args: clone_opt_string(&c.short_args),
        subcommands: subs,
        is_dynamic: c.is_dynamic,
    };
    r
}

/// A copy of a list of commands.
pub fn clone_commands(v: &Vec<Command>) -> (r: Vec<Command>)
    ensures
        commands_view(r@) == commands_view(v@),
    decreases v,
{
    let mut r: Vec<Command> = Vec::new();
    let mut i: usize = 0;
    while i < v.len()
        invariant
            i <= v.len(),
            commands_view(r@) == commands_view(v@.take(i as int)),
        decreases v.len() - i,
    {
        assert(decreases_to!(v => v@[i as int]));
        let c = clone_command(&v[i]);
        let ghost before = r@;
        r.push(c);
        assert(r@.drop_last() =~= before);
        assert(v@.take(i as int + 1).drop_last() =~= v@.take(i as int));
        i = i + 1;
    }
    assert(v@.take(v.len() as int) =~= v@);
    r
}


/// The query as the fuzzy matcher reads it: whitespace dropped, every
/// character lowercased.
pub open spec fn fuzzy_query(q: Seq<char>) -> Seq<char>
    decreases q.len(),
{
    if q.len() == 0 {
        seq![]
    } else if is_whitespace_char(q.last()) {
        fuzzy_query(q.drop_last())
    } else {
        fuzzy_query(q.drop_last()).push(lowercase_first(q.last()))
    }
}

/// Greedy left-to-right matching of `q[qi..]` against `name[i..]`: the
/// positions in `name` of the characters that matched.
pub open spec fn fuzzy_from(name: Seq<char>, q: Seq<char>, i: int, qi: int) -> Seq<int>
    decreases name.len() - i,
{
    if i < 0 || i >= name.len() || qi < 0 || qi >= q.len() {
        seq![]
    } else if lowercase_first(name[i]) == q[qi] {
        seq![i] + fuzzy_from(name, q, i + 1, qi + 1)
    } else {
        fuzzy_from(name, q, i + 1, qi)
    }
}

/// Byte offsets in `name` of the characters at `pos`.
pub open spec fn byte_offsets(name: Seq<char>, pos: Seq<int>) -> Seq<int> {
    pos.map_values(|i: int| byte_len(name.take(i)) as int)
}

/// Byte offsets of the characters of `name` that the fuzzy matcher picks
/// for `query`.
pub open spec fn fuzzy_offsets(name: Seq<char>, query: Seq<char>) -> Seq<int> {
    byte_offsets(name, fuzzy_from(name, fuzzy_query(query), 0, 0))
}

/// The menu's fuzzy match: the offsets, or nothing unless every query
/// character matched.
pub open spec fn menu_fuzzy_indices(name: Seq<char>, query: Seq<char>) -> Seq<int> {
    let q = fuzzy_query(query);
    if q.len() == 0 || fuzzy_from(name, q, 0, 0).len() < q.len() {
        seq![]
    } else {
        fuzzy_offsets(name, query)
    }
}

pub proof fn lemma_fuzzy_from_len(name: Seq<char>, q: Seq<char>, i: int, qi: int)
    requires
        0 <= qi <= q.len(),
    ensures
        fuzzy_from(name, q, i, qi).len() <= q.len() - qi,
        forall|j: int|
            0 <= j < fuzzy_from(name, q, i, qi).len() ==> i <= #[trigger] fuzzy_from(name, q, i, qi)[j]
                < name.len(),
        forall|j: int, k: int|
            0 <= j < k < fuzzy_from(name, q, i, qi).len() ==> #[trigger] fuzzy_from(name, q, i, qi)[j]
                < #[trigger] fuzzy_from(name, q, i, qi)[k],
    decreases name.len() - i,
{
    if i < 0 || i >= name.len() || qi < 0 || qi >= q.len() {
    } else if lowercase_first(name[i]) == q[qi] {
        lemma_fuzzy_from_len(name, q, i + 1, qi + 1);
        let r = fuzzy_from(name, q, i, qi);
        let t = fuzzy_from(name, q, i + 1, qi + 1);
        assert forall|j: int, k: int| 0 <= j < k < r.len() implies #[trigger] r[j] < #[trigger] r[k] by {
            if j > 0 {
                assert(r[j] == t[j - 1]);
            }
            assert(r[k] == t[k - 1]);
        }
    } else {
        lemma_fuzzy_from_len(name, q, i + 1, qi);
    }
}

/// Lowercased non-whitespace characters of `query`.
fn fuzzy_query_chars(query: &str) -> (q: Vec<char>)
    ensures
        q@ == fuzzy_query(query@),
{
    let qs = str_chars(query);
    let mut q: Vec<char> = Vec::new();
    let mut i: usize = 0;
    while i < qs.len()
        invariant
            qs@ == query@,
            i <= qs.len(),
            q@ == fuzzy_query(qs@.take(i as int)),
        decreases qs.len() - i,
    {
        assert(qs@.take(i as int + 1).drop_last() =~= qs@.take(i as int));
        let c = qs[i];
        if !char_is_whitespace(c) {
            q.push(char_to_lowercase_first(c));
        }
        i = i + 1;
    }
    assert(qs@.take(qs.len() as int) =~= qs@);
    q
}

/// Runs the greedy matcher of `query` over `name`: the byte offsets of the
/// matched characters, and the number of query characters.
pub(crate) fn fuzzy_scan(name: &str, query: &str) -> (r: (Vec<usize>, usize))
    ensures
        r.0@.map_values(|x: usize| x as int) == fuzzy_offsets(name@, query@),
        r.1 == fuzzy_query(query@).len(),
        r.0@.len() <= r.1,
        forall|j: int, k: int| 0 <= j < k < r.0@.len() ==> r.0@[j] < r.0@[k],
        forall|j: int| 0 <= j < r.0@.len() ==> r.0@[j] < byte_len(name@),
{
    let q = fuzzy_query_chars(query);
    let cs = str_chars(name);
    let total = name.as_bytes().len();
    proof {
        crate::text::lemma_encode_utf8_len(name@);
    }
    let ghost s = cs@;
    let ghost qq = q@;
    let mut out: Vec<usize> = Vec::new();
    let mut qi: usize = 0;
    let mut i: usize = 0;
    let mut off: usize = 0;
    let ghost mut pos: Seq<int> = seq![];
    proof {
        lemma_fuzzy_from_len(s, qq, 0, 0);
    }
    while i < cs.len()
        invariant
            s == cs@,
            s == name@,
            qq == q@,
            i <= s.len(),
            qi <= qq.len(),
            off == byte_len(s.take(i as int)),
            byte_len(s) == total,
            pos.len() == qi,
            pos + fuzzy_from(s, qq, i as int, qi as int) == fuzzy_from(s, qq, 0, 0),
            out@.map_values(|x: usize| x as int) == byte_offsets(s, pos),
            forall|j: int| 0 <= j < pos.len() ==> pos[j] < i,
        decreases s.len() - i,
    {
        proof {
            crate::text::lemma_byte_len_prefix_le(s, i as int);
            crate::text::lemma_byte_len_prefix_le(s, i as int + 1);
            assert(s.take(i as int + 1) =~= s.take(i as int).push(s[i as int]));
            lemma_byte_len_push(s.take(i as int), s[i as int]);
        }
        let c = cs[i];
        if qi < q.len() && char_to_lowercase_first(c) == q[qi] {
            let ghost before = out@;
            out.push(off);
            proof {
                assert(out@ =~= before.push(off));
                assert(byte_offsets(s, pos.push(i as int)) =~= byte_offsets(s, pos).push(off as int));
                assert(out@.map_values(|x: usize| x as int) =~= before.map_values(|x: usize| x as int).push(off as int));
                assert(out@.map_values(|x: usize| x as int) =~= byte_offsets(s, pos.push(i as int)));
                assert(pos.push(i as int) + fuzzy_from(s, qq, i as int + 1, qi as int + 1) =~= pos + fuzzy_from(s, qq, i as int, qi as int));
                pos = pos.push(i as int);
            }
            qi = qi + 1;
        }
        off = off + char_utf8_len(c);
        i = i + 1;
    }
    proof {
        assert(fuzzy_from(s, qq, i as int, qi as int) =~= Seq::<int>::empty());
        assert(pos =~= fuzzy_from(s, qq, 0, 0));
        lemma_fuzzy_from_len(s, qq, 0, 0);
        let ov = out@.map_values(|x: usize| x as int);
        assert(ov.len() == out@.len());
        assert(pos.len() == out@.len());
        assert forall|j: int, k: int| 0 <= j < k < out@.len() implies out@[j] < out@[k] by {
            assert(ov[j] == out@[j] as int);
            assert(ov[k] == out@[k] as int);
            assert(out@[j] as int == byte_len(s.take(pos[j])));
            assert(out@[k] as int == byte_len(s.take(pos[k])));
            assert(pos[j] < pos[k]);
            lemma_byte_len_take_mono(s, pos[j], pos[k]);
        }
        assert forall|j: int| 0 <= j < out@.len() implies out@[j] < byte_len(name@) by {
            assert(ov[j] == out@[j] as int);
            assert(out@[j] as int == byte_len(s.take(pos[j])));
            lemma_byte_len_take_mono(s, pos[j], s.len() as int);
            assert(s.take(s.len() as int) =~= s);
        }
    }
    (out, q.len())
}

proof fn lemma_byte_len_take_mono(s: Seq<char>, a: int, b: int)
    requires
        0 <= a < b <= s.len(),
    ensures
        byte_len(s.take(a)) < byte_len(s.take(b)),
    decreases b - a,
{
    crate::text::lemma_byte_len_prefix_le(s, a);
    if a + 1 < b {
        lemma_byte_len_take_mono(s, a + 1, b);
    }
}

/// Byte offsets of the characters of `name` matching `query` in order,
/// case-insensitively and ignoring whitespace in the query; empty unless
/// every query character matched.
pub fn find_fuzzy_indices(name: &str, query: &str) -> (r: Vec<usize>)
    ensures
        r@.map_values(|x: usize| x as int) == menu_fuzzy_indices(name@, query@),
{
    let (out, qlen) = fuzzy_scan(name, query);
    proof {
        lemma_fuzzy_from_len(name@, fuzzy_query(query@), 0, 0);
    }
    if qlen == 0 || out.len() < qlen {
        let e: Vec<usize> = Vec::new();
        assert(e@.map_values(|x: usize| x as int) =~= Seq::<int>::empty());
        e
    } else {
        out
    }
}

/// How well `text` matches the lowercased `query`: 1000 for an exact
/// (case-insensitive) match, 500 minus the byte length of `text` for a
/// prefix, otherwise a fuzzy score of 100 less 5 per byte before the first
/// matched character and 10 per byte skipped between matched characters.
pub open spec fn score_spec(text: Seq<char>, query: Seq<char>) -> Option<int> {
    let tl = lowercase_str(text);
    let idx = menu_fuzzy_indices(text, query);
    if tl == query {
        Some(1000)
    } else if query.len() <= tl.len() && tl.take(query.len() as int) == query {
        Some(500 - byte_len(text))
    } else if idx.len() == 0 {
        None
    } else {
        Some(100 - 5 * idx[0] - 10 * (idx.last() - idx[0] - (idx.len() - 1)))
    }
}

/// Texts up to this many bytes are scored without overflow.
pub open spec fn scorable(text: Seq<char>) -> bool {
    byte_len(text) <= 0x100_0000_0000
}

/// Scores `text` against the already lowercased `query` (see `score_spec`).
pub fn calculate_score(text: &str, query: &str) -> (r: Option<i64>)
    requires
        scorable(text@),
    ensures
        match r {
            Some(v) => score_spec(text@, query@) == Some(v as int),
            None => score_spec(text@, query@) is None,
        },
{
    let tl = str_to_lowercase(text);
    let tlc = str_chars(tl.as_str());
    let qc = str_chars(query);
    if chars_eq(tlc.as_slice(), qc.as_slice()) {
        return Some(1000);
    }
    if chars_starts_with(tlc.as_slice(), qc.as_slice()) {
        let n = text.as_bytes().len();
        proof {
            crate::text::lemma_encode_utf8_len(text@);
        }
        return Some(500 - n as i64);
    }
    let idx = find_fuzzy_indices(text, query);
    if idx.len() == 0 {
        return None;
    }
    proof {
        let (o, ql) = (fuzzy_offsets(text@, query@), fuzzy_query(query@).len());
        lemma_fuzzy_from_len(text@, fuzzy_query(query@), 0, 0);
    }
    let ghost iv = idx@.map_values(|x: usize| x as int);
    assert(iv.len() == idx@.len());
    assert(iv[0] == idx@[0] as int);
    assert(iv.last() == idx@[idx@.len() - 1] as int);
    let first = idx[0];
    let last = idx[idx.len() - 1];
    proof {
        lemma_scan_bounds(text, query, idx@);
    }
    let n = idx.len() as i64;
    let span: i64 = (last - first) as i64 - (n - 1);
    Some(100 - 5 * (first as i64) - 10 * span)
}

proof fn lemma_scan_bounds(text: &str, query: &str, idx: Seq<usize>)
    requires
        scorable(text@),
        idx.len() > 0,
        idx.map_values(|x: usize| x as int) == menu_fuzzy_indices(text@, query@),
    ensures
        idx[0] <= idx[idx.len() - 1],
        idx[idx.len() - 1] - idx[0] >= idx.len() - 1,
        idx[idx.len() - 1] < byte_len(text@),
        idx.len() <= byte_len(text@),
{
    let name = text@;
    let q = fuzzy_query(query@);
    let pos = fuzzy_from(name, q, 0, 0);
    lemma_fuzzy_from_len(name, q, 0, 0);
    let iv = idx.map_values(|x: usize| x as int);
    assert(iv =~= byte_offsets(name, pos));
    assert forall|j: int, k: int| 0 <= j < k < idx.len() implies idx[j] < idx[k] by {
        assert(iv[j] == idx[j] as int);
        assert(iv[k] == idx[k] as int);
        lemma_byte_len_take_mono(name, pos[j], pos[k]);
    }
    let m = idx.len() - 1;
    lemma_inc_spread(idx, m);
    assert(iv[m] == idx[m] as int);
    lemma_byte_len_take_mono(name, pos[m], name.len() as int);
    assert(name.take(name.len() as int) =~= name);
}

proof fn lemma_inc_spread(idx: Seq<usize>, j: int)
    requires
        0 <= j < idx.len(),
        forall|a: int, b: int| 0 <= a < b < idx.len() ==> idx[a] < idx[b],
    ensures
        idx[0] + j <= idx[j],
    decreases j,
{
    if j > 0 {
        lemma_inc_spread(idx, j - 1);
    }
}


pub open spec fn max_int(a: int, b: int) -> int {
    if a >= b {
        a
    } else {
        b
    }
}

/// `best` improved by the scores of `aliases`, each less 10.
pub open spec fn alias_best(aliases: Seq<Seq<char>>, fl: Seq<char>, best: int) -> int
    decreases aliases.len(),
{
    if aliases.len() == 0 {
        best
    } else {
        let b = alias_best(aliases.drop_last(), fl, best);
        match score_spec(aliases.last(), fl) {
            Some(sc) => max_int(b, sc - 10),
            None => b,
        }
    }
}

/// The best score of a command against the lowercased filter; -1 when
/// neither its name nor an alias matches.
pub open spec fn command_score(c: CommandView, fl: Seq<char>) -> int {
    let base = match score_spec(c.name, fl) {
        Some(sc) => max_int(-1, sc),
        None => -1,
    };
    alias_best(c.aliases, fl, base)
}

/// (score, index) of the commands that match, in list order.
pub open spec fn scored_entries(cmds: Seq<CommandView>, fl: Seq<char>) -> Seq<(int, int)>
    decreases cmds.len(),
{
    if cmds.len() == 0 {
        seq![]
    } else {
        let rest = scored_entries(cmds.drop_last(), fl);
        let sc = command_score(cmds.last(), fl);
        if sc >= 0 {
            rest.push((sc, cmds.len() - 1))
        } else {
            rest
        }
    }
}

/// Where a stable descending sort puts an entry with score `key` into the
/// sorted `s`: after every entry that scores at least as much.
pub open spec fn insert_pos(s: Seq<(int, int)>, key: int) -> int
    decreases s.len(),
{
    if s.len() == 0 {
        0
    } else if s[0].0 < key {
        0
    } else {
        1 + insert_pos(s.drop_first(), key)
    }
}

pub open spec fn insert_desc(s: Seq<(int, int)>, x: (int, int)) -> Seq<(int, int)> {
    let p = insert_pos(s, x.0);
    s.take(p) + seq![x] + s.skip(p)
}

/// Stable sort by descending score.
pub open spec fn stable_sort_desc(s: Seq<(int, int)>) -> Seq<(int, int)>
    decreases s.len(),
{
    if s.len() == 0 {
        seq![]
    } else {
        insert_desc(stable_sort_desc(s.drop_last()), s.last())
    }
}

/// Indices of the commands that `get_ranked_commands` returns, in order:
/// all of them for an empty filter, else the matching ones by descending
/// score, ties in list order.
pub open spec fn ranked_indices(cmds: Seq<CommandView>, filter: Seq<char>) -> Seq<int> {
    if filter.len() == 0 {
        Seq::new(cmds.len(), |i: int| i)
    } else {
        stable_sort_desc(scored_entries(cmds, lowercase_str(filter))).map_values(|e: (int, int)| e.1)
    }
}

/// Every name and alias of the commands can be scored.
pub open spec fn commands_scorable(cmds: Seq<CommandView>) -> bool {
    forall|i: int|
        0 <= i < cmds.len() ==> scorable((#[trigger] cmds[i]).name) && forall|j: int|
            0 <= j < cmds[i].aliases.len() ==> scorable(#[trigger] cmds[i].aliases[j])
}

proof fn lemma_insert_pos_bounds(s: Seq<(int, int)>, key: int)
    ensures
        0 <= insert_pos(s, key) <= s.len(),
        forall|j: int| 0 <= j < insert_pos(s, key) ==> (#[trigger] s[j]).0 >= key,
        insert_pos(s, key) < s.len() ==> s[insert_pos(s, key)].0 < key,
    decreases s.len(),
{
    if s.len() > 0 && s[0].0 >= key {
        lemma_insert_pos_bounds(s.drop_first(), key);
        assert forall|j: int| 0 <= j < insert_pos(s, key) implies (#[trigger] s[j]).0 >= key by {
            if j > 0 {
                assert(s[j] == s.drop_first()[j - 1]);
            }
        }
    }
}

fn command_best_score(c: &Command, fl: &str) -> (r: i64)
    requires
        scorable(c.name@),
        forall|j: int| 0 <= j < c.aliases@.len() ==> scorable(#[trigger] c.aliases@[j]@),
    ensures
        r == command_score(command_view(*c), fl@),
        -0x1000_0000_0000 <= r <= 1000,
{
    let mut best: i64 = -1;
    match calculate_score(c.name.as_str(), fl) {
        Some(sc) => {
            proof { lemma_score_bounds(c.name@, fl@); }
            if sc > best {
                best = sc;
            }
        },
        None => {},
    }
    let ghost av = strings_view(c.aliases@);
    let mut i: usize = 0;
    while i < c.aliases.len()
        invariant
            i <= c.aliases@.len(),
            av == strings_view(c.aliases@),
            forall|j: int| 0 <= j < c.aliases@.len() ==> scorable(#[trigger] c.aliases@[j]@),
            best == alias_best(av.take(i as int), fl@, match score_spec(c.name@, fl@) {
                Some(sc) => max_int(-1, sc),
                None => -1,
            }),
            -0x1000_0000_0000 <= best <= 1000,
        decreases c.aliases@.len() - i,
    {
        assert(av.take(i as int + 1).drop_last() =~= av.take(i as int));
        assert(av.take(i as int + 1).last() == c.aliases@[i as int]@);
        match calculate_score(c.aliases[i].as_str(), fl) {
            Some(sc) => {
                proof { lemma_score_bounds(c.aliases@[i as int]@, fl@); }
                if sc - 10 > best {
                    best = sc - 10;
                }
            },
            None => {},
        }
        i = i + 1;
    }
    assert(av.take(c.aliases@.len() as int) =~= av);
    best
}

proof fn lemma_score_bounds(text: Seq<char>, q: Seq<char>)
    requires
        scorable(text),
        score_spec(text, q) is Some,
    ensures
        -0x0f00_0000_0000 <= score_spec(text, q)->0 <= 1000,
{
    let idx = menu_fuzzy_indices(text, q);
    if lowercase_str(text) != q && !(q.len() <= lowercase_str(text).len() && lowercase_str(text).take(q.len() as int) == q) {
        let qq = fuzzy_query(q);
        let pos = fuzzy_from(text, qq, 0, 0);
        lemma_fuzzy_from_len(text, qq, 0, 0);
        let m = idx.len() - 1;
        assert(idx[0] == byte_len(text.take(pos[0])));
        assert(idx[m] == byte_len(text.take(pos[m])));
        crate::text::lemma_byte_len_prefix_le(text, pos[0]);
        crate::text::lemma_byte_len_prefix_le(text, pos[m]);
        if m > 0 {
            lemma_byte_len_take_mono(text, pos[0], pos[m]);
            lemma_offsets_spread(text, pos, m);
        }
    }
}

proof fn lemma_offsets_spread(text: Seq<char>, pos: Seq<int>, m: int)
    requires
        0 <= m < pos.len(),
        forall|j: int, k: int| 0 <= j < k < pos.len() ==> #[trigger] pos[j] < #[trigger] pos[k],
        forall|j: int| 0 <= j < pos.len() ==> 0 <= #[trigger] pos[j] < text.len(),
    ensures
        byte_len(text.take(pos[m])) - byte_len(text.take(pos[0])) >= m,
    decreases m,
{
    if m > 0 {
        lemma_offsets_spread(text, pos, m - 1);
        lemma_byte_len_take_mono(text, pos[m - 1], pos[m]);
    }
}


pub open spec fn entries_view(v: Seq<(i64, usize)>) -> Seq<(int, int)> {
    v.map_values(|e: (i64, usize)| (e.0 as int, e.1 as int))
}

/// Sorts entries by descending score, ties keeping their order.
fn sort_entries_desc(v: Vec<(i64, usize)>) -> (r: Vec<(i64, usize)>)
    ensures
        entries_view(r@) == stable_sort_desc(entries_view(v@)),
{
    let mut out: Vec<(i64, usize)> = Vec::new();
    let mut i: usize = 0;
    while i < v.len()
        invariant
            i <= v.len(),
            entries_view(out@) == stable_sort_desc(entries_view(v@.take(i as int))),
        decreases v.len() - i,
    {
        let x = v[i];
        let ghost ov = entries_view(out@);
        let mut j: usize = 0;
        assert(ov.skip(0) =~= ov);
        while j < out.len() && out[j].0 >= x.0
            invariant
                j <= out.len(),
                ov == entries_view(out@),
                insert_pos(ov, x.0 as int) == j + insert_pos(ov.skip(j as int), x.0 as int),
            decreases out.len() - j,
        {
            assert(ov.skip(j as int).drop_first() =~= ov.skip(j as int + 1));
            j = j + 1;
        }
        proof {
            if j < out.len() {
                assert(ov.skip(j as int)[0] == ov[j as int]);
            }
            assert(insert_pos(ov.skip(j as int), x.0 as int) == 0);
        }
        out.insert(j, x);
        proof {
            assert(entries_view(v@.take(i as int + 1)).drop_last() =~= entries_view(v@.take(i as int)));
            assert(entries_view(v@.take(i as int + 1)).last() == (x.0 as int, x.1 as int));
            assert(entries_view(out@) =~= insert_desc(ov, (x.0 as int, x.1 as int)));
        }
        i = i + 1;
    }
    assert(v@.take(v.len() as int) =~= v@);
    out
}

/// The views of a list of command references.
pub open spec fn refs_view(v: Seq<&Command>) -> Seq<CommandView> {
    v.map_values(|c: &Command| command_view(*c))
}

/// The commands, in their views, that `get_ranked_commands` returns.
pub open spec fn ranked_view(cmds: Seq<CommandView>, filter: Seq<char>) -> Seq<CommandView> {
    ranked_indices(cmds, filter).map_values(|k: int| cmds[k])
}

/// The commands matching `filter`, best match first (see `ranked_indices`).
pub fn get_ranked_commands<'a>(commands: &'a Vec<Command>, filter: &str) -> (r: Vec<&'a Command>)
    requires
        commands_scorable(commands_view(commands@)),
    ensures
        r@.len() == ranked_indices(commands_view(commands@), filter@).len(),
        forall|i: int|
            #![trigger r@[i]]
            0 <= i < r@.len() ==> {
                let k = ranked_indices(commands_view(commands@), filter@)[i];
                0 <= k < commands@.len() && *r@[i] == commands@[k]
            },
        refs_view(r@) == ranked_view(commands_view(commands@), filter@),
{
    let ghost cv = commands_view(commands@);
    proof {
        lemma_commands_view(commands@);
    }
    let mut r: Vec<&'a Command> = Vec::new();
    if filter.as_bytes().len() == 0 {
        proof {
            assert(filter@.len() == 0) by {
                crate::text::lemma_encode_utf8_len(filter@);
                if filter@.len() > 0 {
                    assert(filter@ =~= filter@.drop_last().push(filter@.last()));
                    crate::text::lemma_byte_len_push(filter@.drop_last(), filter@.last());
                }
            }
        }
        let mut i: usize = 0;
        while i < commands.len()
            invariant
                i <= commands@.len(),
                r@.len() == i,
                forall|j: int| 0 <= j < i ==> *r@[j] == commands@[j],
            decreases commands@.len() - i,
        {
            r.push(&commands[i]);
            i = i + 1;
        }
        proof {
            assert(refs_view(r@) =~= ranked_view(cv, filter@)) by {
                assert forall|j: int| 0 <= j < r@.len() implies refs_view(r@)[j] == ranked_view(cv, filter@)[j] by {
                    assert(*r@[j] == commands@[j]);
                }
            }
        }
        return r;
    }
    let fl = str_to_lowercase(filter);
    let mut entries: Vec<(i64, usize)> = Vec::new();
    let mut i: usize = 0;
    while i < commands.len()
        invariant
            i <= commands@.len(),
            cv == commands_view(commands@),
            cv.len() == commands@.len(),
            forall|j: int| 0 <= j < commands@.len() ==> #[trigger] cv[j] == command_view(commands@[j]),
            commands_scorable(cv),
            entries_view(entries@) == scored_entries(cv.take(i as int), fl@),
            forall|j: int| 0 <= j < entries@.len() ==> (#[trigger] entries@[j]).1 < i,
        decreases commands@.len() - i,
    {
        assert(cv.take(i as int + 1).drop_last() =~= cv.take(i as int));
        assert(cv.take(i as int + 1).last() == cv[i as int]);
        assert(scorable(cv[i as int].name));
        assert forall|j: int| 0 <= j < commands@[i as int].aliases@.len() implies scorable(
            #[trigger] commands@[i as int].aliases@[j]@,
        ) by {
            assert(cv[i as int].aliases[j] == commands@[i as int].aliases@[j]@);
        }
        let sc = command_best_score(&commands[i], fl.as_str());
        if sc >= 0 {
            let ghost before = entries@;
            entries.push((sc, i));
            assert(entries@ =~= before.push((sc, i)));
            assert(entries_view(entries@) =~= entries_view(before).push((sc as int, i as int)));
        }
        i = i + 1;
    }
    assert(cv.take(commands@.len() as int) =~= cv);
    let sorted = sort_entries_desc(entries);
    proof {
        lemma_sort_keeps_indices(entries_view(entries@), commands@.len() as int);
    }
    let mut k: usize = 0;
    let ghost idxs = ranked_indices(cv, filter@);
    assert(idxs =~= entries_view(sorted@).map_values(|e: (int, int)| e.1));
    while k < sorted.len()
        invariant
            k <= sorted@.len(),
            idxs == entries_view(sorted@).map_values(|e: (int, int)| e.1),
            forall|j: int| 0 <= j < idxs.len() ==> 0 <= #[trigger] idxs[j] < commands@.len(),
            r@.len() == k,
            forall|j: int| 0 <= j < k ==> *r@[j] == commands@[idxs[j]],
        decreases sorted@.len() - k,
    {
        assert(idxs[k as int] == sorted@[k as int].1 as int);
        r.push(&commands[sorted[k].1]);
        k = k + 1;
    }
    proof {
        assert(refs_view(r@) =~= ranked_view(cv, filter@)) by {
            assert forall|j: int| 0 <= j < r@.len() implies refs_view(r@)[j] == ranked_view(cv, filter@)[j] by {
                assert(*r@[j] == commands@[idxs[j]]);
            }
        }
    }
    r
}

proof fn lemma_sort_keeps_indices(s: Seq<(int, int)>, n: int)
    requires
        forall|j: int| 0 <= j < s.len() ==> 0 <= (#[trigger] s[j]).1 < n,
    ensures
        stable_sort_desc(s).len() == s.len(),
        forall|j: int| 0 <= j < stable_sort_desc(s).len() ==> 0 <= (#[trigger] stable_sort_desc(s)[j]).1 < n,
    decreases s.len(),
{
    if s.len() > 0 {
        lemma_sort_keeps_indices(s.drop_last(), n);
        let t = stable_sort_desc(s.drop_last());
        lemma_insert_pos_bounds(t, s.last().0);
        let p = insert_pos(t, s.last().0);
        let u = stable_sort_desc(s);
        assert(u =~= t.take(p) + seq![s.last()] + t.skip(p));
        assert forall|j: int| 0 <= j < u.len() implies 0 <= (#[trigger] u[j]).1 < n by {
            if j < p {
                assert(u[j] == t[j]);
            } else if j > p {
                assert(u[j] == t[j - 1]);
            }
        }
    }
}


/// A command and all its subcommands can be scored.
pub open spec fn view_scorable(c: CommandView) -> bool
    decreases c,
{
    &&& scorable(c.name)
    &&& forall|j: int| 0 <= j < c.aliases.len() ==> scorable(#[trigger] c.aliases[j])
    &&& forall|j: int|
        0 <= j < c.subcommands.len() ==> view_scorable(#[trigger] c.subcommands[j])
}

/// Every command of the list, subcommands included, can be scored.
pub open spec fn all_scorable(cmds: Seq<CommandView>) -> bool {
    forall|i: int| 0 <= i < cmds.len() ==> view_scorable(#[trigger] cmds[i])
}

proof fn lemma_all_scorable(cmds: Seq<CommandView>)
    requires
        all_scorable(cmds),
    ensures
        commands_scorable(cmds),
{
    assert forall|i: int| 0 <= i < cmds.len() implies scorable((#[trigger] cmds[i]).name) && forall|j: int|
        0 <= j < cmds[i].aliases.len() ==> scorable(#[trigger] cmds[i].aliases[j]) by {
        assert(view_scorable(cmds[i]));
    }
}


/// The selection state of the command menu.  `selected` is the index of the
/// highlighted entry among the filtered commands.
pub struct CommandMenuState {
    pub selected: Option<usize>,
    pub commands: Vec<Command>,
    /// The original top-level commands (needed to reconstruct tree when moving up)
    pub root_commands: Vec<Command>,
    pub filter: String,
    /// The path of parent commands if we are in a subcommand menu
    pub parent_path: Vec<String>,
    /// Transient commands (e.g. arguments)
    pub dynamic_commands: Vec<Command>,
}

/// The entries the menu lists for the given state.
pub open spec fn filtered_spec(
    commands: Seq<CommandView>,
    dynamic: Seq<CommandView>,
    filter: Seq<char>,
) -> Seq<CommandView> {
    if dynamic.len() == 0 {
        ranked_view(commands, filter)
    } else {
        ranked_view(commands, filter) + ranked_view(dynamic, filter)
    }
}

/// The selection after the listed entries became `count`: kept when still
/// valid, else the first entry, or none when nothing is listed.
pub open spec fn refreshed_selection(selected: Option<usize>, count: int) -> Option<usize> {
    if count > 0 {
        match selected {
            None => Some(0),
            Some(i) => if i >= count {
                Some(0)
            } else {
                Some(i)
            },
        }
    } else {
        None
    }
}

/// The selection that `next` moves to: the following entry, wrapping round.
pub open spec fn next_selection(selected: Option<usize>, count: int) -> Option<usize> {
    if count > 0 {
        match selected {
            Some(i) => if i >= count - 1 {
                Some(0)
            } else {
                Some((i + 1) as usize)
            },
            None => Some(0),
        }
    } else {
        selected
    }
}

/// The selection that `previous` moves to: the preceding entry, wrapping round.
pub open spec fn previous_selection(selected: Option<usize>, count: int) -> Option<usize> {
    if count > 0 {
        match selected {
            Some(i) => if i == 0 {
                Some((count - 1) as usize)
            } else {
                Some((i - 1) as usize)
            },
            None => Some(0),
        }
    } else {
        selected
    }
}

/// Where typing `filter` leads: the commands on offer, the path of
/// commands and arguments already typed, and what is left to filter by.
pub struct ResolveState {
    pub cur: Seq<CommandView>,
    pub path: Seq<Seq<char>>,
    pub filter: Seq<char>,
}

/// Whether the command is named `lowered` once lowercased, by name or alias.
pub open spec fn command_named(c: CommandView, lowered: Seq<char>) -> bool {
    lowercase_str(c.name) == lowered || exists|j: int|
        0 <= j < c.aliases.len() && lowercase_str(#[trigger] c.aliases[j]) == lowered
}

/// The first command of `cur` named `lowered`.
pub open spec fn find_command(cur: Seq<CommandView>, lowered: Seq<char>) -> Option<int>
    decreases cur.len(),
{
    if cur.len() == 0 {
        None
    } else if command_named(cur[0], lowered) {
        Some(0)
    } else {
        match find_command(cur.drop_first(), lowered) {
            Some(k) => Some(k + 1),
            None => None,
        }
    }
}

/// Walks the typed words from `parts[i]` on.  A word followed by more
/// input enters the command it names (or stands as an argument); the word
/// being typed stays as the filter.
pub open spec fn resolve_from(
    parts: Seq<Seq<char>>,
    i: int,
    trailing: bool,
    st: ResolveState,
) -> ResolveState
    decreases parts.len() - i,
{
    if i < 0 || i >= parts.len() {
        st
    } else {
        let part = parts[i];
        let is_last = i == parts.len() - 1;
        match find_command(st.cur, lowercase_str(part)) {
            Some(k) => if !is_last || trailing {
                resolve_from(
                    parts,
                    i + 1,
                    trailing,
                    ResolveState {
                        cur: st.cur[k].subcommands,
                        path: st.path.push(st.cur[k].name),
                        filter: if is_last {
                            seq![]
                        } else {
                            join_space(parts.skip(i + 1))
                        },
                    },
                )
            } else {
                ResolveState { cur: st.cur, path: st.path, filter: part }
            },
            None => if !is_last || trailing {
                resolve_from(
                    parts,
                    i + 1,
                    trailing,
                    ResolveState {
                        cur: seq![],
                        path: st.path.push(part),
                        filter: if is_last {
                            seq![]
                        } else {
                            st.filter
                        },
                    },
                )
            } else {
                ResolveState { cur: st.cur, path: st.path, filter: join_space(parts.skip(i)) }
            },
        }
    }
}

/// `filter` without one leading '/'.
pub open spec fn strip_slash(filter: Seq<char>) -> Seq<char> {
    if filter.len() > 0 && filter[0] == '/' {
        filter.drop_first()
    } else {
        filter
    }
}

/// Where the filter leads from the top-level commands.
pub open spec fn resolve_spec(root: Seq<CommandView>, filter: Seq<char>) -> ResolveState {
    let clean = strip_slash(filter);
    let trailing = filter.len() > 0 && filter.last() == ' ';
    resolve_from(
        split_ws(clean),
        0,
        trailing,
        ResolveState { cur: root, path: seq![], filter: clean },
    )
}


fn is_named(c: &Command, lowered: &[char]) -> (r: bool)
    ensures
        r == command_named(command_view(*c), lowered@),
{
    let nl = str_to_lowercase(c.name.as_str());
    let nlc = str_chars(nl.as_str());
    if chars_eq(nlc.as_slice(), lowered) {
        return true;
    }
    let ghost av = strings_view(c.aliases@);
    let mut j: usize = 0;
    while j < c.aliases.len()
        invariant
            j <= c.aliases@.len(),
            av == strings_view(c.aliases@),
            forall|k: int| 0 <= k < j ==> lowercase_str(#[trigger] av[k]) != lowered@,
        decreases c.aliases@.len() - j,
    {
        let al = str_to_lowercase(c.aliases[j].as_str());
        let alc = str_chars(al.as_str());
        if chars_eq(alc.as_slice(), lowered) {
            assert(lowercase_str(av[j as int]) == lowered@);
            assert(command_view(*c).aliases == av);
            assert(lowercase_str(command_view(*c).aliases[j as int]) == lowered@);
            return true;
        }
        j = j + 1;
    }
    false
}

proof fn lemma_find_command(cur: Seq<CommandView>, lowered: Seq<char>, i: int)
    requires
        0 <= i <= cur.len(),
        forall|j: int| 0 <= j < i ==> !command_named(#[trigger] cur[j], lowered),
    ensures
        i < cur.len() && command_named(cur[i], lowered) ==> find_command(cur, lowered) == Some(i),
        i == cur.len() ==> find_command(cur, lowered) is None,
    decreases i,
{
    if cur.len() > 0 && i > 0 {
        assert forall|j: int| 0 <= j < i - 1 implies !command_named(
            #[trigger] cur.drop_first()[j],
            lowered,
        ) by {
            assert(cur.drop_first()[j] == cur[j + 1]);
        }
        lemma_find_command(cur.drop_first(), lowered, i - 1);
    }
}

fn find_command_index(cur: &Vec<Command>, lowered: &[char]) -> (r: Option<usize>)
    ensures
        match r {
            Some(k) => k < cur@.len() && find_command(commands_view(cur@), lowered@) == Some(k as int),
            None => find_command(commands_view(cur@), lowered@) is None,
        },
{
    let ghost cv = commands_view(cur@);
    proof {
        lemma_commands_view(cur@);
    }
    let mut i: usize = 0;
    while i < cur.len()
        invariant
            i <= cur@.len(),
            cv == commands_view(cur@),
            cv.len() == cur@.len(),
            forall|j: int| 0 <= j < cur@.len() ==> #[trigger] cv[j] == command_view(cur@[j]),
            forall|j: int| 0 <= j < i ==> !command_named(#[trigger] cv[j], lowered@),
        decreases cur@.len() - i,
    {
        if is_named(&cur[i], lowered) {
            proof {
                lemma_find_command(cv, lowered@, i as int);
            }
            return Some(i);
        }
        i = i + 1;
    }
    proof {
        lemma_find_command(cv, lowered@, i as int);
    }
    None
}

pub open spec fn resolve_view(cur: Seq<Command>, path: Seq<String>, filter: Seq<char>) -> ResolveState {
    ResolveState { cur: commands_view(cur), path: strings_view(path), filter }
}

pub open spec fn parts_view(v: Seq<Vec<char>>) -> Seq<Seq<char>> {
    v.map_values(|w: Vec<char>| w@)
}

/// The words of `parts[from..]` joined with spaces.
fn join_from(parts: &Vec<Vec<char>>, from: usize) -> (r: Vec<char>)
    requires
        from <= parts@.len(),
    ensures
        r@ == join_space(parts_view(parts@).skip(from as int)),
{
    let sl = &parts.as_slice()[from..parts.len()];
    let r = join_with_space(sl);
    assert(sl@.map_values(|w: Vec<char>| w@) =~= parts_view(parts@).skip(from as int));
    r
}

/// Follows the typed words through the command tree (see `resolve_spec`).
fn resolve_walk(root: &Vec<Command>, filter: &String) -> (r: (Vec<Command>, Vec<String>, Vec<char>))
    requires
        all_scorable(commands_view(root@)),
    ensures
        resolve_view(r.0@, r.1@, r.2@) == resolve_spec(commands_view(root@), filter@),
        all_scorable(commands_view(r.0@)),
{
    let fc = str_chars(filter.as_str());
    let clean: Vec<char> = if fc.len() > 0 && fc[0] == '/' {
        chars_range(fc.as_slice(), 1, fc.len())
    } else {
        chars_range(fc.as_slice(), 0, fc.len())
    };
    assert(clean@ =~= strip_slash(filter@));
    let trailing = fc.len() > 0 && fc[fc.len() - 1] == ' ';
    let parts = split_whitespace(clean.as_slice());
    let ghost pv = parts_view(parts@);
    let ghost target = resolve_spec(commands_view(root@), filter@);
    let mut cur = clone_commands(root);
    let mut path: Vec<String> = Vec::new();
    let mut final_filter: Vec<char> = clean;
    let mut done = false;
    let mut i: usize = 0;
    assert(strings_view(path@) =~= Seq::<Seq<char>>::empty());
    while i < parts.len() && !done
        invariant
            i <= parts@.len(),
            pv == parts_view(parts@),
            pv.len() == parts@.len(),
            all_scorable(commands_view(cur@)),
            done ==> resolve_view(cur@, path@, final_filter@) == target,
            !done ==> resolve_from(pv, i as int, trailing, resolve_view(cur@, path@, final_filter@))
                == target,
        decreases parts@.len() - i,
    {
        let is_last = i == parts.len() - 1;
        assert(pv[i as int] == parts@[i as int]@);
        let part_lower_s = str_to_lowercase(string_from_chars(parts[i].as_slice()).as_str());
        let part_lower = str_chars(part_lower_s.as_str());
        let ghost st = resolve_view(cur@, path@, final_filter@);
        match find_command_index(&cur, part_lower.as_slice()) {
            Some(k) => {
                if !is_last || trailing {
                    proof {
                        lemma_commands_view(cur@);
                        assert(view_scorable(commands_view(cur@)[k as int]));
                        assert(commands_view(cur@)[k as int] == command_view(cur@[k as int]));
                    }
                    let subs = clone_commands(&cur[k].subcommands);
                    let nm = cur[k].name.clone();
                    let ghost before = path@;
                    path.push(nm);
                    assert(strings_view(path@) =~= strings_view(before).push(cur@[k as int].name@));
                    if is_last {
                        final_filter = Vec::new();
                    } else {
                        final_filter = join_from(&parts, i + 1);
                    }
                    cur = subs;
                } else {
                    final_filter = parts[i].clone();
                    done = true;
                }
            },
            None => {
                if !is_last || trailing {
                    let ghost before = path@;
                    path.push(string_from_chars(parts[i].as_slice()));
                    assert(strings_view(path@) =~= strings_view(before).push(pv[i as int]));
                    cur = Vec::new();
                    assert(commands_view(cur@) =~= Seq::<CommandView>::empty());
                    if is_last {
                        final_filter = Vec::new();
                    }
                } else {
                    final_filter = join_from(&parts, i);
                    done = true;
                }
            },
        }
        i = i + 1;
    }
    (cur, path, final_filter)
}



/// What tab-completing the command `c` under `path` writes into the input.
pub open spec fn completion_spec(path: Seq<Seq<char>>, c: CommandView) -> Seq<char> {
    let joined = seq!['/'] + join_space(path.push(c.name));
    if c.is_dynamic || c.subcommands.len() > 0 || c.args.len() > 0 {
        joined + seq![' ']
    } else {
        joined
    }
}

fn push_ranked<'a>(r: &mut Vec<&'a Command>, cmds: &'a Vec<Command>, filter: &str)
    requires
        all_scorable(commands_view(cmds@)),
    ensures
        refs_view(final(r)@) == refs_view(old(r)@) + ranked_view(commands_view(cmds@), filter@),
{
    proof {
        lemma_all_scorable(commands_view(cmds@));
    }
    let ranked = get_ranked_commands(cmds, filter);
    let ghost r0 = r@;
    let mut i: usize = 0;
    while i < ranked.len()
        invariant
            i <= ranked@.len(),
            r@ == r0 + ranked@.take(i as int),
        decreases ranked@.len() - i,
    {
        r.push(ranked[i]);
        assert(ranked@.take(i as int + 1) =~= ranked@.take(i as int).push(ranked@[i as int]));
        i = i + 1;
    }
    assert(ranked@.take(i as int) =~= ranked@);
    assert(refs_view(r@) =~= refs_view(r0) + refs_view(ranked@));
}

impl CommandMenuState {
    /// Every command the menu holds can be scored.
    pub open spec fn wf(&self) -> bool {
        &&& all_scorable(commands_view(self.commands@))
        &&& all_scorable(commands_view(self.root_commands@))
        &&& all_scorable(commands_view(self.dynamic_commands@))
    }

    /// The entries the menu lists.
    pub open spec fn listed(&self) -> Seq<CommandView> {
        filtered_spec(commands_view(self.commands@), commands_view(self.dynamic_commands@), self.filter@)
    }

    /// The listed commands: the matching commands of the current level,
    /// then the matching dynamic ones.
    pub fn filtered_commands(&self) -> (r: Vec<&Command>)
        requires
            self.wf(),
        ensures
            refs_view(r@) == self.listed(),
    {
        let mut r: Vec<&Command> = Vec::new();
        assert(refs_view(r@) =~= Seq::<CommandView>::empty());
        push_ranked(&mut r, &self.commands, self.filter.as_str());
        if self.dynamic_commands.len() > 0 {
            push_ranked(&mut r, &self.dynamic_commands, self.filter.as_str());
        } else {
            assert(commands_view(self.dynamic_commands@) =~= Seq::<CommandView>::empty());
        }
        r
    }

    fn listed_count(&self) -> (n: usize)
        requires
            self.wf(),
        ensures
            n == self.listed().len(),
    {
        let f = self.filtered_commands();
        proof {
            assert(refs_view(f@).len() == f@.len());
        }
        f.len()
    }

    fn refresh_selection(&mut self)
        requires
            old(self).wf(),
        ensures
            final(self).selected == refreshed_selection(old(self).selected, old(self).listed().len() as int),
            final(self).commands == old(self).commands,
            final(self).root_commands == old(self).root_commands,
            final(self).dynamic_commands == old(self).dynamic_commands,
            final(self).filter == old(self).filter,
            final(self).parent_path == old(self).parent_path,
    {
        let count = self.listed_count();
        if count > 0 {
            match self.selected {
                None => {
                    self.selected = Some(0);
                },
                Some(i) => {
                    if i >= count {
                        self.selected = Some(0);
                    }
                },
            }
        } else {
            self.selected = None;
        }
    }

    /// A menu over `commands`, unfiltered, with the first entry selected.
    pub fn new(commands: Vec<Command>) -> (s: Self)
        requires
            all_scorable(commands_view(commands@)),
        ensures
            s.wf(),
            commands_view(s.commands@) == commands_view(commands@),
            commands_view(s.root_commands@) == commands_view(commands@),
            s.filter@.len() == 0,
            s.parent_path@.len() == 0,
            s.dynamic_commands@.len() == 0,
            s.listed() == commands_view(commands@),
            s.selected == refreshed_selection(None, commands@.len() as int),
    {
        let copy = clone_commands(&commands);
        let mut state = CommandMenuState {
            selected: None,
            commands: copy,
            root_commands: commands,
            filter: String::new(),
            parent_path: Vec::new(),
            dynamic_commands: Vec::new(),
        };
        proof {
            lemma_commands_view(commands@);
            assert(commands_view(state.dynamic_commands@) =~= Seq::<CommandView>::empty());
            let cv = commands_view(commands@);
            assert(ranked_view(cv, state.filter@) =~= cv);
        }
        state.refresh_selection();
        state
    }

    /// Replaces the dynamic entries (argument candidates) and refreshes the
    /// selection.
    pub fn set_dynamic_commands(&mut self, commands: Vec<Command>)
        requires
            old(self).wf(),
            all_scorable(commands_view(commands@)),
        ensures
            final(self).wf(),
            final(self).dynamic_commands == commands,
            final(self).commands == old(self).commands,
            final(self).root_commands == old(self).root_commands,
            final(self).filter == old(self).filter,
            final(self).parent_path == old(self).parent_path,
            final(self).selected == refreshed_selection(old(self).selected, final(self).listed().len() as int),
    {
        self.dynamic_commands = commands;
        self.refresh_selection();
    }

    /// Sets the typed filter: the words already complete lead into the
    /// command tree (see `resolve_spec`), and the selection is refreshed.
    pub fn set_filter(&mut self, filter: String)
        requires
            old(self).wf(),
        ensures
            final(self).wf(),
            resolve_view(final(self).commands@, final(self).parent_path@, final(self).filter@)
                == resolve_spec(commands_view(old(self).root_commands@), filter@),
            final(self).root_commands == old(self).root_commands,
            final(self).dynamic_commands == old(self).dynamic_commands,
            final(self).selected == refreshed_selection(old(self).selected, final(self).listed().len() as int),
    {
        let (cur, path, ff) = resolve_walk(&self.root_commands, &filter);
        self.commands = cur;
        self.parent_path = path;
        self.filter = string_from_chars(ff.as_slice());
        self.refresh_selection();
    }

    /// Moves the selection to the next entry, wrapping round.
    pub fn next(&mut self)
        requires
            old(self).wf(),
        ensures
            final(self).selected == next_selection(old(self).selected, old(self).listed().len() as int),
            final(self).commands == old(self).commands,
            final(self).root_commands == old(self).root_commands,
            final(self).dynamic_commands == old(self).dynamic_commands,
            final(self).filter == old(self).filter,
            final(self).parent_path == old(self).parent_path,
    {
        let count = self.listed_count();
        let i: usize = match self.selected {
            Some(i) => {
                if i >= count.saturating_sub(1) {
                    0
                } else {
                    i + 1
                }
            },
            None => 0,
        };
        if count > 0 {
            self.selected = Some(i);
        }
    }

    /// Moves the selection to the previous entry, wrapping round.
    pub fn previous(&mut self)
        requires
            old(self).wf(),
        ensures
            final(self).selected == previous_selection(old(self).selected, old(self).listed().len() as int),
            final(self).commands == old(self).commands,
            final(self).root_commands == old(self).root_commands,
            final(self).dynamic_commands == old(self).dynamic_commands,
            final(self).filter == old(self).filter,
            final(self).parent_path == old(self).parent_path,
    {
        let count = self.listed_count();
        let i: usize = match self.selected {
            Some(i) => {
                if i == 0 {
                    count.saturating_sub(1)
                } else {
                    i - 1
                }
            },
            None => 0,
        };
        if count > 0 {
            self.selected = Some(i);
        }
    }

    /// The highlighted command, if the selection points at a listed entry.
    pub fn selected_command(&self) -> (r: Option<&Command>)
        requires
            self.wf(),
        ensures
            match self.selected {
                Some(i) => if i < self.listed().len() {
                    r is Some && command_view(*r->0) == self.listed()[i as int]
                } else {
                    r is None
                },
                None => r is None,
            },
    {
        let f = self.filtered_commands();
        match self.selected {
            Some(i) => {
                if i < f.len() {
                    proof {
                        assert(refs_view(f@)[i as int] == command_view(*f@[i as int]));
                    }
                    Some(f[i])
                } else {
                    None
                }
            },
            None => None,
        }
    }

    /// What tab completion writes into the input for the highlighted
    /// command: the command path with a leading '/', and a trailing space
    /// when arguments or subcommands follow.
    pub fn complete(&self) -> (r: Option<String>)
        requires
            self.wf(),
        ensures
            match self.selected {
                Some(i) => if i < self.listed().len() {
                    r is Some && r->0@ == completion_spec(
                        strings_view(self.parent_path@),
                        self.listed()[i as int],
                    )
                } else {
                    r is None
                },
                None => r is None,
            },
    {
        match self.selected_command() {
            Some(cmd) => {
                let mut parts: Vec<Vec<char>> = Vec::new();
                let mut j: usize = 0;
                let ghost pv = strings_view(self.parent_path@);
                while j < self.parent_path.len()
                    invariant
                        j <= self.parent_path@.len(),
                        pv == strings_view(self.parent_path@),
                        parts_view(parts@) == pv.take(j as int),
                    decreases self.parent_path@.len() - j,
                {
                    let ghost before = parts@;
                    parts.push(str_chars(self.parent_path[j].as_str()));
                    assert(parts_view(parts@) =~= parts_view(before).push(pv[j as int]));
                    assert(pv.take(j as int + 1) =~= pv.take(j as int).push(pv[j as int]));
                    j = j + 1;
                }
                assert(pv.take(j as int) =~= pv);
                let ghost before = parts@;
                parts.push(str_chars(cmd.name.as_str()));
                assert(parts_view(parts@) =~= pv.push(cmd.name@));
                let joined = join_with_space(parts.as_slice());
                let mut out: Vec<char> = Vec::new();
                out.push('/');
                push_all(&mut out, joined.as_slice());
                proof {
                    lemma_commands_view(cmd.subcommands@);
                }
                if cmd.is_dynamic || cmd.subcommands.len() > 0 || !cmd.args.as_str().is_empty() {
                    out.push(' ');
                }
                assert(parts@.map_values(|w: Vec<char>| w@) == parts_view(parts@));
                Some(string_from_chars(out.as_slice()))
            },
            None => None,
        }
    }
}


impl Command {
    /// A command with a name and a description, and nothing else.
    pub fn new(name: &str, description: &str) -> (c: Self)
        ensures
            c.name@ == name@,
            c.aliases@.len() == 0,
            c.description@ == description@,
            c.short_description is None,
            c.args@.len() == 0,
            c.short_args is None,
            c.subcommands@.len() == 0,
            !c.is_dynamic,
    {
        Command {
            name: name.to_owned(),
            aliases: Vec::new(),
            description: description.to_owned(),
            short_description: None,
            args: String::new(),
            short_args: None,
            subcommands: Vec::new(),
            is_dynamic: false,
        }
    }

    /// Marks the command as a dynamic entry (an argument candidate).
    pub fn dynamic(self, is_dynamic: bool) -> (c: Self)
        ensures
            c == (Command { is_dynamic, ..self }),
    {
        let mut s = self;
        s.is_dynamic = is_dynamic;
        s
    }

    /// Adds an alias.
    pub fn alias(self, alias: &str) -> (c: Self)
        ensures
            c.aliases@ == self.aliases@.push(c.aliases@.last()),
            c.aliases@.last()@ == alias@,
            c.name == self.name,
            c.description == self.description,
            c.short_description == self.short_description,
            c.args == self.args,
            c.short_args == self.short_args,
            c.subcommands == self.subcommands,
            c.is_dynamic == self.is_dynamic,
    {
        let mut s = self;
        s.aliases.push(alias.to_owned());
        s
    }

    /// Sets the argument hint.
    pub fn args(self, args: &str) -> (c: Self)
        ensures
            c.args@ == args@,
            c.name == self.name,
            c.aliases == self.aliases,
            c.description == self.description,
            c.short_description == self.short_description,
            c.short_args == self.short_args,
            c.subcommands == self.subcommands,
            c.is_dynamic == self.is_dynamic,
    {
        let mut s = self;
        s.args = args.to_owned();
        s
    }

    /// Sets the short argument hint used in narrow menus.
    pub fn short_args(self, args: &str) -> (c: Self)
        ensures
            c.short_args is Some && c.short_args->0@ == args@,
            c.name == self.name,
            c.aliases == self.aliases,
            c.description == self.description,
            c.short_description == self.short_description,
            c.args == self.args,
            c.subcommands == self.subcommands,
            c.is_dynamic == self.is_dynamic,
    {
        let mut s = self;
        s.short_args = Some(args.to_owned());
        s
    }

    /// Sets the short description used in narrow menus.
    pub fn short_description(self, desc: &str) -> (c: Self)
        ensures
            c.short_description is Some && c.short_description->0@ == desc@,
            c.name == self.name,
            c.aliases == self.aliases,
            c.description == self.description,
            c.args == self.args,
            c.short_args == self.short_args,
            c.subcommands == self.subcommands,
            c.is_dynamic == self.is_dynamic,
    {
        let mut s = self;
        s.short_description = Some(desc.to_owned());
        s
    }

    /// Sets the subcommands.
    pub fn subcommands(self, subcommands: Vec<Command>) -> (c: Self)
        ensures
            c == (Command { subcommands, ..self }),
    {
        let mut s = self;
        s.subcommands = subcommands;
        s
    }
}

/// Moving the selection down and then up again returns to the entry one
/// started from, and so does moving up and then down.
pub proof fn law_next_previous_inverse(i: usize, count: int)
    requires
        0 <= i < count <= usize::MAX,
    ensures
        previous_selection(next_selection(Some(i), count), count) == Some(i),
        next_selection(previous_selection(Some(i), count), count) == Some(i),
{
}

/// An empty filter, or a lone `/`, leads nowhere: the menu shows the
/// top-level commands, with no path and nothing left as the filter.
pub proof fn law_empty_filter_top_level(root: Seq<CommandView>, filter: Seq<char>)
    requires
        filter.len() == 0 || filter == seq!['/'],
    ensures
        resolve_spec(root, filter) == (ResolveState { cur: root, path: seq![], filter: seq![] }),
{
    let clean = strip_slash(filter);
    assert(clean =~= Seq::<char>::empty());
    assert(split_ws(clean) =~= Seq::<Seq<char>>::empty());
}

/// A selection that `refresh` leaves in place points into the list, and
/// refreshing twice changes nothing more.
pub proof fn law_refresh_selection(selected: Option<usize>, count: int)
    requires
        count <= usize::MAX,
    ensures
        refreshed_selection(refreshed_selection(selected, count), count) == refreshed_selection(selected, count),
        match refreshed_selection(selected, count) {
            Some(i) => i < count,
            None => count <= 0,
        },
{
}

/// An exact match outranks every prefix match, which outranks every fuzzy
/// match.
pub proof fn law_score_tiers(text: Seq<char>, query: Seq<char>)
    requires
        score_spec(text, query) is Some,
    ensures
        lowercase_str(text) == query <==> score_spec(text, query)->0 == 1000,
        lowercase_str(text) != query ==> score_spec(text, query)->0 <= 500,
        !(query.len() <= lowercase_str(text).len() && lowercase_str(text).take(query.len() as int) == query)
            ==> score_spec(text, query)->0 <= 100,
{
    let idx = menu_fuzzy_indices(text, query);
    if lowercase_str(text) == query {
        assert(lowercase_str(text).take(query.len() as int) =~= query);
    }
    if lowercase_str(text) != query && !(query.len() <= lowercase_str(text).len()
        && lowercase_str(text).take(query.len() as int) == query) {
        let qq = fuzzy_query(query);
        let pos = fuzzy_from(text, qq, 0, 0);
        lemma_fuzzy_from_len(text, qq, 0, 0);
        let m = idx.len() - 1;
        assert(idx[0] == byte_len(text.take(pos[0])));
        assert(idx[m] == byte_len(text.take(pos[m])));
        if m > 0 {
            lemma_offsets_spread(text, pos, m);
        }
    }
}

proof fn lemma_insert_sorted(s: Seq<(int, int)>, x: (int, int))
    requires
        forall|a: int, b: int| 0 <= a < b < s.len() ==> (#[trigger] s[a]).0 >= (#[trigger] s[b]).0,
    ensures
        forall|a: int, b: int|
            0 <= a < b < insert_desc(s, x).len() ==> (#[trigger] insert_desc(s, x)[a]).0 >= (
            #[trigger] insert_desc(s, x)[b]).0,
        insert_desc(s, x).len() == s.len() + 1,
{
    lemma_insert_pos_bounds(s, x.0);
    let p = insert_pos(s, x.0);
    let t = insert_desc(s, x);
    assert forall|a: int, b: int| 0 <= a < b < t.len() implies (#[trigger] t[a]).0 >= (#[trigger] t[b]).0 by {
        if b < p {
            assert(t[a] == s[a] && t[b] == s[b]);
        } else if b == p {
            assert(t[a] == s[a]);
        } else if a < p {
            assert(t[a] == s[a] && t[b] == s[b - 1]);
        } else if a == p {
            assert(t[b] == s[b - 1]);
            assert(s[p].0 < x.0);
            if b - 1 > p {
                assert(s[p].0 >= s[b - 1].0);
            }
        } else {
            assert(t[a] == s[a - 1] && t[b] == s[b - 1]);
        }
    }
}

proof fn lemma_stable_sort_sorted(s: Seq<(int, int)>)
    ensures
        forall|a: int, b: int|
            0 <= a < b < stable_sort_desc(s).len() ==> (#[trigger] stable_sort_desc(s)[a]).0 >= (
            #[trigger] stable_sort_desc(s)[b]).0,
        stable_sort_desc(s).len() == s.len(),
    decreases s.len(),
{
    if s.len() > 0 {
        lemma_stable_sort_sorted(s.drop_last());
        lemma_insert_sorted(stable_sort_desc(s.drop_last()), s.last());
    }
}

/// With a filter, the ranked entries come with non-increasing scores.
pub proof fn law_ranked_by_score(cmds: Seq<CommandView>, filter: Seq<char>)
    requires
        filter.len() > 0,
    ensures
        forall|a: int, b: int|
            0 <= a < b < ranked_indices(cmds, filter).len() ==> command_score(
                cmds[#[trigger] ranked_indices(cmds, filter)[a]],
                lowercase_str(filter),
            ) >= command_score(cmds[#[trigger] ranked_indices(cmds, filter)[b]], lowercase_str(filter)),
{
    let fl = lowercase_str(filter);
    let e = scored_entries(cmds, fl);
    lemma_scored_entries(cmds, fl);
    lemma_stable_sort_sorted(e);
    lemma_sort_members(e);
    let t = stable_sort_desc(e);
    let r = ranked_indices(cmds, filter);
    assert forall|a: int, b: int| 0 <= a < b < r.len() implies command_score(
        cmds[#[trigger] r[a]],
        fl,
    ) >= command_score(cmds[#[trigger] r[b]], fl) by {
        assert(r[a] == t[a].1 && r[b] == t[b].1);
        assert(t[a].0 >= t[b].0);
    }
}

proof fn lemma_scored_entries(cmds: Seq<CommandView>, fl: Seq<char>)
    ensures
        forall|j: int|
            0 <= j < scored_entries(cmds, fl).len() ==> {
                let e = #[trigger] scored_entries(cmds, fl)[j];
                0 <= e.1 < cmds.len() && e.0 == command_score(cmds[e.1], fl)
            },
    decreases cmds.len(),
{
    if cmds.len() > 0 {
        lemma_scored_entries(cmds.drop_last(), fl);
        let r = scored_entries(cmds.drop_last(), fl);
        assert forall|j: int| 0 <= j < r.len() implies cmds.drop_last()[(#[trigger] r[j]).1] == cmds[r[j].1] by {}
    }
}

proof fn lemma_sort_members(s: Seq<(int, int)>)
    ensures
        forall|j: int|
            0 <= j < stable_sort_desc(s).len() ==> exists|k: int|
                0 <= k < s.len() && s[k] == #[trigger] stable_sort_desc(s)[j],
    decreases s.len(),
{
    if s.len() > 0 {
        lemma_sort_members(s.drop_last());
        let t = stable_sort_desc(s.drop_last());
        lemma_insert_pos_bounds(t, s.last().0);
        lemma_stable_sort_sorted(s.drop_last());
        let p = insert_pos(t, s.last().0);
        let u = stable_sort_desc(s);
        assert forall|j: int| 0 <= j < u.len() implies exists|k: int|
            0 <= k < s.len() && s[k] == #[trigger] u[j] by {
            if j < p {
                assert(u[j] == t[j]);
                let k = choose|k: int| 0 <= k < s.drop_last().len() && s.drop_last()[k] == t[j];
                assert(s[k] == u[j]);
            } else if j == p {
                assert(s[s.len() - 1] == u[j]);
            } else {
                assert(u[j] == t[j - 1]);
                let k = choose|k: int| 0 <= k < s.drop_last().len() && s.drop_last()[k] == t[j - 1];
                assert(s[k] == u[j]);
            }
        }
    }
}

} // verus!
