//! Finding the blocked strings in a line before it is sent: every
//! occurrence, case aside, as a range of character positions.
use crate::input_box::boff;
use crate::text::{
    byte_len, byte_offset_of, char_index, char_index_of, is_boundary, lemma_byte_len_prefix_le,
    lemma_byte_len_take_strict, lemma_encode_utf8_len, lowercase_str, str_byte_len, str_chars, str_to_lowercase,
};
use vstd::prelude::*;

verus! {

broadcast use vstd::std_specs::vec::group_vec_axioms;

/// The first position at or after `from` where `b` occurs in `l`.
pub open spec fn first_occurrence(l: Seq<char>, b: Seq<char>, from: int) -> Option<int>
    decreases l.len() - from,
{
    if from < 0 || from + b.len() > l.len() {
        None
    } else if b.len() == 0 || l.subrange(from, from + b.len()) == b {
        Some(from)
    } else {
        first_occurrence(l, b, from + 1)
    }
}

pub proof fn lemma_first_occurrence(l: Seq<char>, b: Seq<char>, from: int)
    ensures
        first_occurrence(l, b, from) matches Some(j) ==> from <= j && j + b.len() <= l.len() && (b.len() == 0
            || l.subrange(j, j + b.len()) == b),
    decreases l.len() - from,
{
    if !(from < 0 || from + b.len() > l.len()) && !(b.len() == 0 || l.subrange(from, from + b.len()) == b) {
        lemma_first_occurrence(l, b, from + 1);
    }
}

/// A byte offset `next` past the start of character `j` lies past
/// character `s <= j`.
pub proof fn lemma_scan_progress(l: Seq<char>, s: int, j: int, next: int)
    requires
        0 <= s <= j <= l.len(),
        is_boundary(l, next),
        next > boff(l, j),
    ensures
        char_index(l, next) > s,
{
    let k = char_index(l, next);
    assert(0 <= k <= l.len() && byte_len(l.take(k)) == next);
    if k < j {
        lemma_byte_len_take_strict(l, k, j);
    }
}

/// The ranges the blocked string with lowercase form `b` marks in line
/// `t` (lowercase form `l`), scanning from character `s` of `l`; `blen`
/// and `bchars` are the blocked string's length in bytes and characters.
/// The scan goes by byte offsets that serve both forms: each match at
/// byte `a` of `l` marks the characters of `t` from the one at byte `a`
/// on, and the next search starts `blen` bytes later.  Nothing comes out
/// when an offset is no character boundary of the form it is used on,
/// when the count leaves `usize`, or when the scan would not end (an
/// empty blocked string).
pub open spec fn blocked_scan(
    l: Seq<char>,
    t: Seq<char>,
    b: Seq<char>,
    blen: int,
    bchars: int,
    s: int,
) -> Option<Seq<(int, int)>>
    decreases l.len() + 1 - s,
{
    if s < 0 || s > l.len() {
        None
    } else {
        match first_occurrence(l, b, s) {
            None => Some(Seq::empty()),
            Some(j) => {
                let a = boff(l, j);
                let next = a + blen;
                if !is_boundary(t, a) || blen <= 0 || !is_boundary(l, next) || next > usize::MAX {
                    None
                } else {
                    let cs = char_index(t, a);
                    if cs + bchars > usize::MAX {
                        None
                    } else {
                        proof {
                            lemma_first_occurrence(l, b, s);
                            lemma_scan_progress(l, s, j, next);
                            assert(char_index(l, next) <= l.len());
                        }
                        match blocked_scan(l, t, b, blen, bchars, char_index(l, next)) {
                            Some(rest) => Some(seq![(cs, cs + bchars)] + rest),
                            None => None,
                        }
                    }
                }
            },
        }
    }
}

/// The ranges blocked string `b` marks in line `t`, case aside.
pub open spec fn blocked_for(t: Seq<char>, b: Seq<char>) -> Option<Seq<(int, int)>> {
    blocked_scan(lowercase_str(t), t, lowercase_str(b), byte_len(b) as int, b.len() as int, 0)
}

/// The ranges all of `bs` mark in line `t`, string by string, or nothing
/// when the scan of one of them cannot be done.
pub open spec fn blocked_all(t: Seq<char>, bs: Seq<Seq<char>>) -> Option<Seq<(int, int)>>
    decreases bs.len(),
{
    if bs.len() == 0 {
        Some(Seq::empty())
    } else {
        match (blocked_all(t, bs.drop_last()), blocked_for(t, bs.last())) {
            (Some(x), Some(y)) => Some(x + y),
            _ => None,
        }
    }
}

/// Ranges as integer pairs.
pub open spec fn ranges_view(v: Seq<(usize, usize)>) -> Seq<(int, int)> {
    v.map_values(|p: (usize, usize)| (p.0 as int, p.1 as int))
}

/// The texts of some strings.
pub open spec fn texts_view(v: Seq<String>) -> Seq<Seq<char>> {
    v.map_values(|s: String| s@)
}

/// Whether `b` occurs in `l` at `k`.
fn occurs_at(l: &Vec<char>, b: &Vec<char>, k: usize) -> (r: bool)
    ensures
        r == (k + b@.len() <= l@.len() && (b@.len() == 0 || l@.subrange(k as int, k + b@.len()) == b@)),
{
    if b.len() > l.len() || k > l.len() - b.len() {
        return false;
    }
    let n = l.len();
    let mut i: usize = 0;
    while i < b.len()
        invariant
            n == l@.len(),
            k + b@.len() <= l@.len(),
            i <= b@.len(),
            forall|j: int| 0 <= j < i ==> l@[k + j] == b@[j],
        decreases b@.len() - i,
    {
        if l[k + i] != b[i] {
            assert(l@.subrange(k as int, k + b@.len())[i as int] != b@[i as int]);
            return false;
        }
        i = i + 1;
    }
    assert(l@.subrange(k as int, k + b@.len()) =~= b@);
    true
}

/// The first position at or after `from` where `b` occurs in `l`.
fn find_from(l: &Vec<char>, b: &Vec<char>, from: usize) -> (r: Option<usize>)
    requires
        from <= l@.len(),
    ensures
        match r {
            Some(j) => first_occurrence(l@, b@, from as int) == Some(j as int),
            None => first_occurrence(l@, b@, from as int) is None,
        },
{
    let mut k: usize = from;
    while k <= l.len()
        invariant
            from <= k,
            first_occurrence(l@, b@, from as int) == first_occurrence(l@, b@, k as int),
        decreases l@.len() + 1 - k,
    {
        if occurs_at(l, b, k) {
            return Some(k);
        }
        if b.len() > l.len() || k > l.len() - b.len() {
            return None;
        }
        k = k + 1;
    }
    None
}

/// Appends the ranges blocked string `b` (lowercase form `bl`) marks in
/// line `t` (lowercase form `lc`) to `out`; false when the scan cannot be
/// done.
fn scan_one(
    lc: &Vec<char>,
    tc: &Vec<char>,
    bl: &Vec<char>,
    blen: usize,
    bchars: usize,
    out: &mut Vec<(usize, usize)>,
) -> (ok: bool)
    requires
        byte_len(lc@) <= usize::MAX,
        byte_len(tc@) <= usize::MAX,
    ensures
        match blocked_scan(lc@, tc@, bl@, blen as int, bchars as int, 0) {
            Some(rs) => ok && ranges_view(final(out)@) == ranges_view(old(out)@) + rs,
            None => !ok,
        },
{
    let mut s: usize = 0;
    let ghost base = ranges_view(out@);
    let ghost total = blocked_scan(lc@, tc@, bl@, blen as int, bchars as int, 0);
    while s <= lc.len()
        invariant
            s <= lc@.len(),
            byte_len(lc@) <= usize::MAX,
            byte_len(tc@) <= usize::MAX,
            total == blocked_scan(lc@, tc@, bl@, blen as int, bchars as int, 0),
            match blocked_scan(lc@, tc@, bl@, blen as int, bchars as int, s as int) {
                Some(rest) => total == Some(ranges_view(out@).skip(base.len() as int) + rest),
                None => total is None,
            },
            ranges_view(out@).take(base.len() as int) == base,
            base.len() <= ranges_view(out@).len(),
            base == ranges_view(old(out)@),
        decreases lc@.len() + 1 - s,
    {
        match find_from(lc, bl, s) {
            None => {
                proof {
                    let d = ranges_view(out@).skip(base.len() as int);
                    assert(ranges_view(out@) =~= base + d);
                    assert(d + Seq::<(int, int)>::empty() =~= d);
                }
                return true;
            },
            Some(j) => {
                proof {
                    lemma_first_occurrence(lc@, bl@, s as int);
                    lemma_byte_len_prefix_le(lc@, j as int);
                }
                let a = byte_offset_of(lc.as_slice(), j);
                let cs = match char_index_of(tc.as_slice(), a) {
                    Some(cs) => cs,
                    None => {
                        return false;
                    },
                };
                if blen == 0 || a > usize::MAX - blen {
                    return false;
                }
                let next = a + blen;
                let s2 = match char_index_of(lc.as_slice(), next) {
                    Some(s2) => s2,
                    None => {
                        return false;
                    },
                };
                if cs > usize::MAX - bchars {
                    return false;
                }
                proof {
                    lemma_scan_progress(lc@, s as int, j as int, next as int);
                }
                let ghost before = ranges_view(out@);
                out.push((cs, cs + bchars));
                proof {
                    assert(ranges_view(out@) =~= before.push((cs as int, cs + bchars)));
                    assert(ranges_view(out@).take(base.len() as int) =~= before.take(base.len() as int));
                    assert(ranges_view(out@).skip(base.len() as int) =~= before.skip(base.len() as int).push(
                        (cs as int, cs + bchars),
                    ));
                    let r2 = blocked_scan(lc@, tc@, bl@, blen as int, bchars as int, s2 as int);
                    match r2 {
                        Some(rest) => {
                            assert(before.skip(base.len() as int) + seq![(cs as int, cs + bchars)] + rest
                                =~= ranges_view(out@).skip(base.len() as int) + rest);
                        },
                        None => {},
                    }
                }
                s = s2;
            },
        }
    }
    false
}

/// The ranges of character positions where the strings of `blocked`
/// occur in `text`, case aside, string by string; nothing when the scan
/// cannot be done (an empty blocked string, or lowercase forms whose
/// byte offsets do not line up with the originals).
pub fn blocked_ranges(text: &str, blocked: &Vec<String>) -> (r: Option<Vec<(usize, usize)>>)
    ensures
        match blocked_all(text@, texts_view(blocked@)) {
            Some(rs) => r matches Some(v) && ranges_view(v@) == rs,
            None => r is None,
        },
{
    let lower = str_to_lowercase(text);
    let lc = str_chars(lower.as_str());
    let tc = str_chars(text);
    let _ = str_byte_len(lower.as_str());
    let _ = str_byte_len(text);
    let mut out: Vec<(usize, usize)> = Vec::new();
    let mut i: usize = 0;
    assert(texts_view(blocked@).take(0) =~= Seq::<Seq<char>>::empty());
    while i < blocked.len()
        invariant
            i <= blocked@.len(),
            lc@ == lowercase_str(text@),
            tc@ == text@,
            byte_len(lc@) <= usize::MAX,
            byte_len(tc@) <= usize::MAX,
            blocked_all(text@, texts_view(blocked@).take(i as int)) == Some(ranges_view(out@)),
        decreases blocked@.len() - i,
    {
        let b = &blocked[i];
        let bl_s = str_to_lowercase(b.as_str());
        let bl = str_chars(bl_s.as_str());
        let blen = str_byte_len(b.as_str());
        let bchars = str_chars(b.as_str()).len();
        let ok = scan_one(&lc, &tc, &bl, blen, bchars, &mut out);
        proof {
            let t = texts_view(blocked@).take(i as int + 1);
            assert(t.drop_last() =~= texts_view(blocked@).take(i as int));
            assert(t.last() == blocked@[i as int]@);
        }
        if !ok {
            proof {
                let t = texts_view(blocked@).take(i as int + 1);
                assert(blocked_all(text@, t) is None);
                assert(blocked_all(text@, texts_view(blocked@)) is None) by {
                    lemma_blocked_all_none(text@, texts_view(blocked@), i as int + 1);
                }
            }
            return None;
        }
        i = i + 1;
    }
    assert(texts_view(blocked@).take(i as int) =~= texts_view(blocked@));
    Some(out)
}

proof fn lemma_blocked_all_none(t: Seq<char>, bs: Seq<Seq<char>>, n: int)
    requires
        0 <= n <= bs.len(),
        blocked_all(t, bs.take(n)) is None,
    ensures
        blocked_all(t, bs) is None,
    decreases bs.len() - n,
{
    if n < bs.len() {
        assert(bs.take(n + 1).drop_last() =~= bs.take(n));
        lemma_blocked_all_none(t, bs, n + 1);
    } else {
        assert(bs.take(n) =~= bs);
    }
}

} // verus!
