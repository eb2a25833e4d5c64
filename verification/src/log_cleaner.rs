//! Cleaning a chat log: reading the objects out of its lines (repairing
//! lines where several objects were written without a line break between
//! them) and keeping one record per message, the one furthest along.
use crate::message_list::{pieces_view, split_nl, split_newlines, trim_end_chars};
use crate::model::{status_priority, status_rank, MessageStatus};
use crate::pickers::{strings_view, trim, trim_start_chars};
use crate::text::{str_chars, string_from_chars};
use vstd::prelude::*;

verus! {

broadcast use vstd::std_specs::vec::group_vec_axioms;

/// The pieces of `s` between the occurrences of `}{`.
pub open spec fn split_brace(s: Seq<char>) -> Seq<Seq<char>>
    decreases s.len(),
{
    if s.len() == 0 {
        seq![Seq::<char>::empty()]
    } else {
        let rest = split_brace(s.drop_last());
        if s.len() >= 2 && s[s.len() - 2] == '}' && s.last() == '{' {
            rest.update(rest.len() - 1, rest.last().drop_last()).push(Seq::<char>::empty())
        } else {
            rest.update(rest.len() - 1, rest.last().push(s.last()))
        }
    }
}

/// `ps` joined with `}{` between neighbours.
pub open spec fn join_brace(ps: Seq<Seq<char>>) -> Seq<char>
    decreases ps.len(),
{
    if ps.len() <= 1 {
        if ps.len() == 0 {
            Seq::<char>::empty()
        } else {
            ps[0]
        }
    } else {
        join_brace(ps.drop_last()) + seq!['}', '{'] + ps.last()
    }
}

/// `s` holds `}` directly followed by `{`.
pub open spec fn has_brace_pair(s: Seq<char>) -> bool {
    exists|i: int| 0 <= i < s.len() - 1 && #[trigger] s[i] == '}' && s[i + 1] == '{'
}

/// The pieces of a line as whole objects again: a piece that lost the
/// closing brace to the split gets it back, and one that lost the opening
/// brace gets that back.
pub open spec fn repair(ps: Seq<Seq<char>>) -> Seq<Seq<char>> {
    if ps.len() <= 1 {
        ps
    } else {
        Seq::new(
            ps.len(),
            |i: int|
                if i == 0 {
                    ps[i].push('}')
                } else if i == ps.len() - 1 {
                    seq!['{'] + ps[i]
                } else {
                    seq!['{'] + ps[i].push('}')
                },
        )
    }
}

/// The lines of a log that hold anything, trimmed.
pub open spec fn log_lines(ls: Seq<Seq<char>>) -> Seq<Seq<char>>
    decreases ls.len(),
{
    if ls.len() == 0 {
        Seq::empty()
    } else {
        let before = log_lines(ls.drop_last());
        if trim(ls.last()).len() == 0 {
            before
        } else {
            before.push(trim(ls.last()))
        }
    }
}

/// The objects read from the given lines, in order.
pub open spec fn log_objects(lines: Seq<Seq<char>>) -> Seq<Seq<char>>
    decreases lines.len(),
{
    if lines.len() == 0 {
        Seq::empty()
    } else {
        log_objects(lines.drop_last()) + repair(split_brace(lines.last()))
    }
}

/// How many of the given lines held more than one object.
pub open spec fn corrupted_count(lines: Seq<Seq<char>>) -> nat
    decreases lines.len(),
{
    if lines.len() == 0 {
        0
    } else {
        corrupted_count(lines.drop_last()) + if split_brace(lines.last()).len() > 1 {
            1nat
        } else {
            0nat
        }
    }
}

/// What a log's text holds: its objects and counts of its lines.
pub struct LogScan {
    /// The objects, one string each, in the order they were written.
    pub objects: Vec<String>,
    /// Lines that hold anything.
    pub total_lines: usize,
    /// Lines that held more than one object.
    pub corrupted_lines: usize,
}

proof fn lemma_split_brace_nonempty(s: Seq<char>)
    ensures
        split_brace(s).len() > 0,
    decreases s.len(),
{
    if s.len() > 0 {
        lemma_split_brace_nonempty(s.drop_last());
    }
}

/// The text before a `}` ends in it: the last piece ends with `}`.
proof fn lemma_split_brace_last_close(s: Seq<char>)
    requires
        s.len() > 0,
        s.last() == '}',
    ensures
        split_brace(s).last().len() > 0,
        split_brace(s).last().last() == '}',
{
    lemma_split_brace_nonempty(s.drop_last());
}

/// Everything of the join before the last piece.
spec fn join_head(ps: Seq<Seq<char>>) -> Seq<char> {
    if ps.len() <= 1 {
        Seq::<char>::empty()
    } else {
        join_brace(ps.drop_last()) + seq!['}', '{']
    }
}

/// The join is its head followed by the last piece, whatever that piece is.
proof fn lemma_join_head(ps: Seq<Seq<char>>, x: Seq<char>)
    requires
        ps.len() > 0,
    ensures
        join_brace(ps) =~= join_head(ps) + ps.last(),
        join_brace(ps.update(ps.len() - 1, x)) =~= join_head(ps) + x,
{
    let u = ps.update(ps.len() - 1, x);
    if ps.len() > 1 {
        assert(u.drop_last() =~= ps.drop_last());
    }
}

/// Joining the pieces of `s` with `}{` gives `s` back, and `s` splits
/// into more than one piece exactly when it holds `}{`.
pub proof fn law_split_brace_join(s: Seq<char>)
    ensures
        join_brace(split_brace(s)) == s,
        split_brace(s).len() > 1 <==> has_brace_pair(s),
    decreases s.len(),
{
    lemma_split_brace_nonempty(s);
    if s.len() > 0 {
        let p = s.drop_last();
        law_split_brace_join(p);
        lemma_split_brace_nonempty(p);
        let rest = split_brace(p);
        if s.len() >= 2 && s[s.len() - 2] == '}' && s.last() == '{' {
            lemma_split_brace_last_close(p);
            let lastp = rest.last().drop_last();
            let upd = rest.update(rest.len() - 1, lastp);
            let r = upd.push(Seq::<char>::empty());
            assert(r.drop_last() =~= upd);
            lemma_join_head(rest, lastp);
            assert(rest.last() =~= lastp.push('}'));
            assert(join_brace(r) =~= join_brace(upd) + seq!['}', '{']);
            assert(p =~= join_head(rest) + lastp.push('}'));
            assert(s =~= p.push('{'));
            assert(join_brace(r) =~= s);
            assert(has_brace_pair(s)) by {
                assert(s[s.len() - 2] == '}' && s[s.len() - 2 + 1] == '{');
            };
        } else {
            let r = rest.update(rest.len() - 1, rest.last().push(s.last()));
            lemma_join_head(rest, rest.last().push(s.last()));
            assert(s =~= p.push(s.last()));
            assert(join_brace(r) =~= s);
            if has_brace_pair(s) {
                let i = choose|i: int| 0 <= i < s.len() - 1 && #[trigger] s[i] == '}' && s[i + 1] == '{';
                assert(i < s.len() - 2);
                assert(p[i] == '}' && p[i + 1] == '{');
                assert(has_brace_pair(p));
            }
            if has_brace_pair(p) {
                let i = choose|i: int| 0 <= i < p.len() - 1 && #[trigger] p[i] == '}' && p[i + 1] == '{';
                assert(s[i] == '}' && s[i + 1] == '{');
            }
        }
    } else {
        assert(!has_brace_pair(s));
    }
}

/// The pieces of `s` between the occurrences of `}{`.
fn split_brace_chars(s: &[char]) -> (r: Vec<Vec<char>>)
    ensures
        pieces_view(r@) == split_brace(s@),
{
    let mut done: Vec<Vec<char>> = Vec::new();
    let mut cur: Vec<char> = Vec::new();
    let mut i: usize = 0;
    assert(s@.take(0) =~= Seq::<char>::empty());
    assert(pieces_view(done@).push(cur@) =~= seq![Seq::<char>::empty()]);
    while i < s.len()
        invariant
            i <= s@.len(),
            split_brace(s@.take(i as int)) == pieces_view(done@).push(cur@),
            i > 0 && s@[i - 1] == '}' ==> cur@.len() > 0 && cur@.last() == '}',
        decreases s@.len() - i,
    {
        let ghost before = pieces_view(done@);
        let ghost t = s@.take(i as int + 1);
        assert(t.drop_last() =~= s@.take(i as int));
        if s[i] == '{' && i > 0 && s[i - 1] == '}' {
            assert(t[t.len() - 2] == '}' && t.last() == '{');
            let _ = cur.pop();
            done.push(cur);
            cur = Vec::new();
            assert(pieces_view(done@) =~= before.push(split_brace(s@.take(i as int)).last().drop_last()));
            assert(pieces_view(done@).push(cur@) =~= split_brace(t));
        } else {
            cur.push(s[i]);
            assert(pieces_view(done@).push(cur@) =~= split_brace(t));
        }
        i = i + 1;
    }
    let ghost before = pieces_view(done@);
    done.push(cur);
    assert(pieces_view(done@) =~= before.push(cur@));
    assert(s@.take(s@.len() as int) =~= s@);
    done
}

/// Appends the repaired pieces of one line to `out`.
fn push_repaired(out: &mut Vec<String>, ps: &Vec<Vec<char>>)
    requires
        ps@.len() > 0,
    ensures
        strings_view(final(out)@) == strings_view(old(out)@) + repair(pieces_view(ps@)),
{
    let n = ps.len();
    let ghost start = strings_view(out@);
    let ghost want = repair(pieces_view(ps@));
    let mut i: usize = 0;
    while i < n
        invariant
            n == ps@.len(),
            n > 0,
            i <= n,
            want == repair(pieces_view(ps@)),
            want.len() == n,
            strings_view(out@) == start + want.take(i as int),
        decreases n - i,
    {
        let mut cs: Vec<char> = Vec::new();
        if n > 1 && i > 0 {
            cs.push('{');
        }
        let p = &ps[i];
        let mut j: usize = 0;
        let ghost pre = cs@;
        while j < p.len()
            invariant
                j <= p@.len(),
                cs@ == pre + p@.take(j as int),
            decreases p@.len() - j,
        {
            cs.push(p[j]);
            assert(p@.take(j as int + 1) =~= p@.take(j as int).push(p@[j as int]));
            j = j + 1;
        }
        assert(p@.take(p@.len() as int) =~= p@);
        if n > 1 && i < n - 1 {
            cs.push('}');
        }
        assert(cs@ =~= want[i as int]);
        let ghost before = out@;
        out.push(string_from_chars(cs.as_slice()));
        assert(strings_view(out@) =~= strings_view(before).push(want[i as int]));
        assert(want.take(i as int + 1) =~= want.take(i as int).push(want[i as int]));
        i = i + 1;
    }
    assert(want.take(n as int) =~= want);
}

/// Reads the objects out of a log's text: every line that holds anything
/// once trimmed, split where objects were written one right after the
/// other (`}{`), each piece made a whole object again.
pub fn scan_log(content: &str) -> (r: LogScan)
    ensures
        strings_view(r.objects@) == log_objects(log_lines(split_nl(content@))),
        r.total_lines == log_lines(split_nl(content@)).len(),
        r.corrupted_lines == corrupted_count(log_lines(split_nl(content@))),
{
    let cs = str_chars(content);
    let lines = split_newlines(cs.as_slice());
    let ghost ls = split_nl(content@);
    let mut objects: Vec<String> = Vec::new();
    let mut total: usize = 0;
    let mut corrupted: usize = 0;
    let mut k: usize = 0;
    assert(ls.take(0) =~= Seq::<Seq<char>>::empty());
    while k < lines.len()
        invariant
            ls == split_nl(content@),
            pieces_view(lines@) == ls,
            k <= lines@.len(),
            total == log_lines(ls.take(k as int)).len(),
            corrupted == corrupted_count(log_lines(ls.take(k as int))),
            strings_view(objects@) == log_objects(log_lines(ls.take(k as int))),
            corrupted <= total <= k,
        decreases lines@.len() - k,
    {
        assert(ls.take(k as int + 1).drop_last() =~= ls.take(k as int));
        assert(ls[k as int] == lines@[k as int]@);
        let e = trim_end_chars(lines[k].as_slice());
        let t = trim_start_chars(e.as_slice());
        assert(t@ == trim(ls[k as int]));
        if t.len() > 0 {
            let ghost lines_before = log_lines(ls.take(k as int));
            let ghost lines_after = lines_before.push(t@);
            assert(lines_after.drop_last() =~= lines_before);
            let ps = split_brace_chars(t.as_slice());
            proof {
                lemma_split_brace_nonempty(t@);
            }
            total = total + 1;
            if ps.len() > 1 {
                corrupted = corrupted + 1;
            }
            push_repaired(&mut objects, &ps);
        }
        k = k + 1;
    }
    assert(ls.take(lines@.len() as int) =~= ls);
    LogScan { objects, total_lines: total, corrupted_lines: corrupted }
}

/// One object of a log as far as cleaning goes: when it was written (the
/// seconds and nanoseconds of its instant), which message it is, and how
/// far that message had come.
#[derive(Debug, Clone, Copy, PartialEq, Eq, Structural)]
pub struct LogRecord {
    pub secs: i64,
    pub nanos: u32,
    pub id: usize,
    pub status: MessageStatus,
}

/// The key a message is known by: its instant, then its number.
pub open spec fn record_key(r: LogRecord) -> (i64, u32, usize) {
    (r.secs, r.nanos, r.id)
}

/// `a` comes before `b`: by instant, then by number.
pub open spec fn key_before(a: (i64, u32, usize), b: (i64, u32, usize)) -> bool {
    a.0 < b.0 || (a.0 == b.0 && (a.1 < b.1 || (a.1 == b.1 && a.2 < b.2)))
}

/// The record that stands for key `k` after reading `s` in order: the
/// first record with that key, replaced by each later one whose status is
/// further along than the one standing.
pub open spec fn standing(s: Seq<LogRecord>, k: (i64, u32, usize)) -> Option<int>
    decreases s.len(),
{
    if s.len() == 0 {
        None
    } else {
        let prev = standing(s.drop_last(), k);
        if record_key(s.last()) != k {
            prev
        } else {
            match prev {
                None => Some(s.len() - 1),
                Some(b) => if status_rank(s.last().status) > status_rank(s[b].status) {
                    Some(s.len() - 1)
                } else {
                    Some(b)
                },
            }
        }
    }
}

/// How many times reading `s` in order replaced a standing record by one
/// further along.
pub open spec fn upgrades(s: Seq<LogRecord>) -> nat
    decreases s.len(),
{
    if s.len() == 0 {
        0
    } else {
        let prev = upgrades(s.drop_last());
        match standing(s.drop_last(), record_key(s.last())) {
            Some(b) => if status_rank(s.last().status) > status_rank(s[b].status) {
                prev + 1
            } else {
                prev
            },
            None => prev,
        }
    }
}

/// The record standing for a key is the first one with that key whose
/// status is furthest along; no record stands for a key that none has.
pub proof fn law_standing_first_best(s: Seq<LogRecord>, k: (i64, u32, usize))
    ensures
        match standing(s, k) {
            None => forall|i: int| 0 <= i < s.len() ==> record_key(#[trigger] s[i]) != k,
            Some(b) => {
                &&& 0 <= b < s.len()
                &&& record_key(s[b]) == k
                &&& forall|i: int|
                    0 <= i < s.len() && record_key(#[trigger] s[i]) == k ==> status_rank(s[i].status)
                        <= status_rank(s[b].status)
                &&& forall|i: int|
                    0 <= i < b && record_key(#[trigger] s[i]) == k ==> status_rank(s[i].status)
                        < status_rank(s[b].status)
            },
        },
    decreases s.len(),
{
    if s.len() > 0 {
        let p = s.drop_last();
        let n = s.len() - 1;
        law_standing_first_best(p, k);
        assert(forall|i: int| 0 <= i < p.len() ==> #[trigger] p[i] == s[i]);
        if record_key(s.last()) == k {
            match standing(p, k) {
                None => {
                    assert(standing(s, k) == Some(n));
                    assert forall|i: int| 0 <= i < n && record_key(#[trigger] s[i]) == k implies status_rank(s[i].status)
                        < status_rank(s[n].status) by {
                        assert(record_key(p[i]) != k);
                    };
                },
                Some(b) => {
                    if status_rank(s.last().status) > status_rank(s[b].status) {
                        assert(standing(s, k) == Some(n));
                        assert forall|i: int| 0 <= i < s.len() && record_key(#[trigger] s[i]) == k implies status_rank(
                            s[i].status,
                        ) <= status_rank(s[n].status) by {
                            if i < n {
                                assert(record_key(p[i]) == k);
                            }
                        };
                        assert forall|i: int| 0 <= i < n && record_key(#[trigger] s[i]) == k implies status_rank(
                            s[i].status,
                        ) < status_rank(s[n].status) by {
                            assert(record_key(p[i]) == k);
                        };
                    } else {
                        assert(standing(s, k) == Some(b));
                        assert forall|i: int| 0 <= i < s.len() && record_key(#[trigger] s[i]) == k implies status_rank(
                            s[i].status,
                        ) <= status_rank(s[b].status) by {
                            if i < n {
                                assert(record_key(p[i]) == k);
                            }
                        };
                        assert forall|i: int| 0 <= i < b && record_key(#[trigger] s[i]) == k implies status_rank(
                            s[i].status,
                        ) < status_rank(s[b].status) by {
                            assert(record_key(p[i]) == k);
                        };
                    }
                },
            }
        } else {
            assert(standing(s, k) == standing(p, k));
            match standing(p, k) {
                None => {
                    assert forall|i: int| 0 <= i < s.len() implies record_key(#[trigger] s[i]) != k by {
                        if i < n {
                            assert(record_key(p[i]) != k);
                        }
                    };
                },
                Some(b) => {
                    assert forall|i: int| 0 <= i < s.len() && record_key(#[trigger] s[i]) == k implies status_rank(
                        s[i].status,
                    ) <= status_rank(s[b].status) by {
                        assert(record_key(p[i]) == k);
                    };
                    assert forall|i: int| 0 <= i < b && record_key(#[trigger] s[i]) == k implies status_rank(
                        s[i].status,
                    ) < status_rank(s[b].status) by {
                        assert(record_key(p[i]) == k);
                    };
                },
            }
        }
    }
}

fn key_is_before(a: &LogRecord, b: &LogRecord) -> (r: bool)
    ensures
        r == key_before(record_key(*a), record_key(*b)),
{
    a.secs < b.secs || (a.secs == b.secs && (a.nanos < b.nanos || (a.nanos == b.nanos && a.id < b.id)))
}

fn same_key(a: &LogRecord, b: &LogRecord) -> (r: bool)
    ensures
        r == (record_key(*a) == record_key(*b)),
{
    a.secs == b.secs && a.nanos == b.nanos && a.id == b.id
}

/// The records in `kept` are in `s`, stand for their keys, and come in
/// order of key.
pub open spec fn kept_ok(s: Seq<LogRecord>, all: Seq<LogRecord>, kept: Seq<usize>) -> bool {
    &&& forall|t: int|
        0 <= t < kept.len() ==> #[trigger] kept[t] < s.len() && standing(s, record_key(all[kept[t] as int]))
            == Some(kept[t] as int)
    &&& forall|t: int, u: int|
        0 <= t < u < kept.len() ==> key_before(
            record_key(all[#[trigger] kept[t] as int]),
            record_key(all[#[trigger] kept[u] as int]),
        )
    &&& forall|i: int|
        0 <= i < s.len() ==> exists|t: int|
            0 <= t < kept.len() && record_key(all[#[trigger] kept[t] as int]) == record_key(
                #[trigger] s[i],
            )
}

/// Keeps one record per message, the one furthest along (the first of
/// those when several are equally far), and gives their positions in order
/// of key, with how many times a record was replaced by one further along.
pub fn dedupe_records(records: &Vec<LogRecord>) -> (r: (Vec<usize>, usize))
    ensures
        forall|t: int|
            0 <= t < r.0@.len() ==> #[trigger] r.0@[t] < records@.len() && standing(
                records@,
                record_key(records@[r.0@[t] as int]),
            ) == Some(r.0@[t] as int),
        forall|t: int, u: int|
            0 <= t < u < r.0@.len() ==> key_before(
                record_key(records@[#[trigger] r.0@[t] as int]),
                record_key(records@[#[trigger] r.0@[u] as int]),
            ),
        forall|i: int|
            0 <= i < records@.len() ==> exists|t: int|
                0 <= t < r.0@.len() && record_key(records@[#[trigger] r.0@[t] as int]) == record_key(
                    #[trigger] records@[i],
                ),
        r.1 == upgrades(records@),
{
    let mut kept: Vec<usize> = Vec::new();
    let mut ups: usize = 0;
    let mut j: usize = 0;
    assert(records@.take(0) =~= Seq::<LogRecord>::empty());
    while j < records.len()
        invariant
            j <= records@.len(),
            kept_ok(records@.take(j as int), records@, kept@),
            ups == upgrades(records@.take(j as int)),
            ups <= j,
        decreases records@.len() - j,
    {
        let ghost s = records@.take(j as int);
        let ghost s2 = records@.take(j as int + 1);
        assert(s2.drop_last() =~= s);
        assert(forall|i: int| 0 <= i < s.len() ==> #[trigger] s[i] == records@[i]);
        assert(forall|i: int| 0 <= i < s2.len() ==> #[trigger] s2[i] == records@[i]);
        let rec = &records[j];
        let ghost k = record_key(*rec);
        // first kept position whose key is not before the new one
        let mut p: usize = 0;
        while p < kept.len() && key_is_before(&records[kept[p]], rec)
            invariant
                p <= kept@.len(),
                kept_ok(s, records@, kept@),
                s == records@.take(j as int),
                j < records@.len(),
                *rec == records@[j as int],
                k == record_key(records@[j as int]),
                forall|t: int| 0 <= t < p ==> key_before(record_key(records@[#[trigger] kept@[t] as int]), k),
            decreases kept@.len() - p,
        {
            p = p + 1;
        }
        if p < kept.len() && same_key(&records[kept[p]], rec) {
            let b = kept[p];
            let ghost old_kept = kept@;
            proof {
                law_standing_first_best(s, k);
            }
            if status_priority(&rec.status) > status_priority(&records[b].status) {
                kept.set(p, j);
                ups = ups + 1;
                proof {
                    assert forall|t: int| 0 <= t < kept@.len() implies #[trigger] kept@[t] < s2.len()
                        && standing(s2, record_key(records@[kept@[t] as int])) == Some(kept@[t] as int) by {
                        if t != p {
                            assert(record_key(records@[kept@[t] as int]) != k) by {
                                if t < p {
                                    assert(key_before(record_key(records@[kept@[t] as int]), record_key(records@[kept@[p as int] as int])));
                                } else {
                                    assert(key_before(record_key(records@[kept@[p as int] as int]), record_key(records@[kept@[t] as int])));
                                }
                            };
                        }
                    };
                    assert forall|i: int| 0 <= i < s2.len() implies exists|t: int|
                        0 <= t < kept@.len() && record_key(records@[#[trigger] kept@[t] as int]) == record_key(
                            #[trigger] s2[i],
                        ) by {
                        if i < s.len() {
                            let t = choose|t: int|
                                0 <= t < old_kept.len() && record_key(records@[#[trigger] old_kept[t] as int])
                                    == record_key(#[trigger] s[i]);
                            assert(s2[i] == s[i]);
                            if t == p {
                                assert(record_key(records@[kept@[t] as int]) == record_key(s2[i]));
                            } else {
                                assert(kept@[t] == old_kept[t]);
                            }
                        } else {
                            assert(record_key(records@[kept@[p as int] as int]) == record_key(s2[i]));
                        }
                    };
                }
            } else {
                proof {
                    assert forall|t: int| 0 <= t < kept@.len() implies #[trigger] kept@[t] < s2.len()
                        && standing(s2, record_key(records@[kept@[t] as int])) == Some(kept@[t] as int) by {
                        if t != p {
                            assert(record_key(records@[kept@[t] as int]) != k) by {
                                if t < p {
                                    assert(key_before(record_key(records@[kept@[t] as int]), record_key(records@[kept@[p as int] as int])));
                                } else {
                                    assert(key_before(record_key(records@[kept@[p as int] as int]), record_key(records@[kept@[t] as int])));
                                }
                            };
                        }
                    };
                    assert forall|i: int| 0 <= i < s2.len() implies exists|t: int|
                        0 <= t < kept@.len() && record_key(records@[#[trigger] kept@[t] as int]) == record_key(
                            #[trigger] s2[i],
                        ) by {
                        if i < s.len() {
                            assert(s2[i] == s[i]);
                        } else {
                            assert(record_key(records@[kept@[p as int] as int]) == record_key(s2[i]));
                        }
                    };
                }
            }
        } else {
            let ghost old_kept = kept@;
            proof {
                law_standing_first_best(s, k);
                if standing(s, k) is Some {
                    let b = standing(s, k)->0;
                    let t = choose|t: int|
                        0 <= t < old_kept.len() && record_key(records@[#[trigger] old_kept[t] as int]) == record_key(
                            #[trigger] s[b],
                        );
                    if t < p {
                        assert(key_before(record_key(records@[old_kept[t] as int]), k));
                    } else {
                        assert(p < old_kept.len());
                        assert(!key_before(record_key(records@[old_kept[p as int] as int]), k));
                        if t > p {
                            assert(key_before(record_key(records@[old_kept[p as int] as int]), record_key(records@[old_kept[t] as int])));
                        }
                    }
                    assert(false);
                }
            }
            kept.insert(p, j);
            proof {
                assert forall|t: int| 0 <= t < kept@.len() implies #[trigger] kept@[t] < s2.len()
                    && standing(s2, record_key(records@[kept@[t] as int])) == Some(kept@[t] as int) by {
                    if t < p {
                        assert(kept@[t] == old_kept[t]);
                        assert(key_before(record_key(records@[kept@[t] as int]), k));
                    } else if t > p {
                        assert(kept@[t] == old_kept[t - 1]);
                        assert(!key_before(record_key(records@[old_kept[p as int] as int]), k));
                        assert(record_key(records@[old_kept[p as int] as int]) != k);
                        if t - 1 > p {
                            assert(key_before(record_key(records@[old_kept[p as int] as int]), record_key(records@[old_kept[t - 1] as int])));
                        }
                    }
                };
                assert forall|t: int, u: int| 0 <= t < u < kept@.len() implies key_before(
                    record_key(records@[#[trigger] kept@[t] as int]),
                    record_key(records@[#[trigger] kept@[u] as int]),
                ) by {
                    if p < old_kept.len() {
                        assert(!key_before(record_key(records@[old_kept[p as int] as int]), k));
                        assert(record_key(records@[old_kept[p as int] as int]) != k);
                    }
                    if u > p && u - 1 > p && p < old_kept.len() {
                        assert(key_before(record_key(records@[old_kept[p as int] as int]), record_key(records@[old_kept[u - 1] as int])));
                    }
                    if t < p && u > p {
                        assert(key_before(record_key(records@[old_kept[t] as int]), k));
                    }
                };
                assert forall|i: int| 0 <= i < s2.len() implies exists|t: int|
                    0 <= t < kept@.len() && record_key(records@[#[trigger] kept@[t] as int]) == record_key(
                        #[trigger] s2[i],
                    ) by {
                    if i < s.len() {
                        let t = choose|t: int|
                            0 <= t < old_kept.len() && record_key(records@[#[trigger] old_kept[t] as int])
                                == record_key(#[trigger] s[i]);
                        if t < p {
                            assert(kept@[t] == old_kept[t]);
                        } else {
                            assert(kept@[t + 1] == old_kept[t]);
                        }
                        assert(s2[i] == s[i]);
                    } else {
                        assert(kept@[p as int] == j);
                    }
                };
            }
        }
        j = j + 1;
    }
    assert(records@.take(records@.len() as int) =~= records@);
    (kept, ups)
}

} // verus!
