//! The lines of the network library's log as the log window lists them:
//! every level's lines together, oldest first.
use crate::domain::Model;
use crate::model::{filters_admit, LogFilters, ToxLogItem, ToxLogLevel};
use vstd::prelude::*;

verus! {

broadcast use vstd::std_specs::vec::group_vec_axioms;

/// The lines of all levels, level by level.
pub open spec fn all_lines(buckets: Seq<(ToxLogLevel, Vec<ToxLogItem>)>) -> Seq<ToxLogItem>
    decreases buckets.len(),
{
    if buckets.len() == 0 {
        Seq::empty()
    } else {
        all_lines(buckets.drop_last()) + buckets.last().1@
    }
}

/// The lines the filters let through, in order.
pub open spec fn admitted(f: LogFilters, s: Seq<ToxLogItem>) -> Seq<ToxLogItem>
    decreases s.len(),
{
    if s.len() == 0 {
        Seq::empty()
    } else if filters_admit(f, s.last()) {
        admitted(f, s.drop_last()).push(s.last())
    } else {
        admitted(f, s.drop_last())
    }
}

/// Line `a` was written after line `b`.
pub open spec fn later(a: ToxLogItem, b: ToxLogItem) -> bool {
    a.timestamp.secs > b.timestamp.secs || (a.timestamp.secs == b.timestamp.secs && a.timestamp.nanos
        > b.timestamp.nanos)
}

/// Where `x` goes in `r`: after the last line not written after it.
pub open spec fn insert_at(r: Seq<ToxLogItem>, x: ToxLogItem) -> int
    decreases r.len(),
{
    if r.len() == 0 {
        0
    } else if later(r.last(), x) {
        insert_at(r.drop_last(), x)
    } else {
        r.len() as int
    }
}

/// The lines ordered by when they were written; lines of the same instant
/// keep their order.
pub open spec fn by_time(s: Seq<ToxLogItem>) -> Seq<ToxLogItem>
    decreases s.len(),
{
    if s.len() == 0 {
        Seq::empty()
    } else {
        let r = by_time(s.drop_last());
        r.insert(insert_at(r, s.last()), s.last())
    }
}

proof fn lemma_insert_at(r: Seq<ToxLogItem>, x: ToxLogItem)
    ensures
        0 <= insert_at(r, x) <= r.len(),
    decreases r.len(),
{
    if r.len() > 0 {
        lemma_insert_at(r.drop_last(), x);
    }
}

proof fn lemma_by_time_len(s: Seq<ToxLogItem>)
    ensures
        by_time(s).len() == s.len(),
    decreases s.len(),
{
    if s.len() > 0 {
        lemma_by_time_len(s.drop_last());
        lemma_insert_at(by_time(s.drop_last()), s.last());
    }
}

/// A copy of a line.
fn copy_item(x: &ToxLogItem) -> (r: ToxLogItem)
    ensures
        r == *x,
{
    ToxLogItem {
        level: x.level,
        file: x.file.clone(),
        line: x.line,
        func: x.func.clone(),
        message: x.message.clone(),
        timestamp: x.timestamp,
    }
}

/// Puts `x` into `r` where `insert_at` says.
fn insert_by_time(r: &mut Vec<ToxLogItem>, x: ToxLogItem)
    ensures
        final(r)@ == old(r)@.insert(insert_at(old(r)@, x), x),
{
    let mut j: usize = r.len();
    proof {
        assert(r@.take(j as int) =~= r@);
    }
    while j > 0 && (r[j - 1].timestamp.secs > x.timestamp.secs || (r[j - 1].timestamp.secs == x.timestamp.secs
        && r[j - 1].timestamp.nanos > x.timestamp.nanos))
        invariant
            j <= r@.len(),
            insert_at(r@, x) == insert_at(r@.take(j as int), x),
        decreases j,
    {
        assert(r@.take(j as int).drop_last() =~= r@.take(j as int - 1));
        j = j - 1;
    }
    proof {
        if j > 0 {
            assert(r@.take(j as int).last() == r@[j as int - 1]);
        }
        lemma_insert_at(r@, x);
    }
    r.insert(j, x);
}

/// The lines of `items` (filtered by `f`, when given) in order of time.
fn sorted_lines(buckets: &Vec<(ToxLogLevel, Vec<ToxLogItem>)>, f: Option<&LogFilters>) -> (r: Vec<ToxLogItem>)
    ensures
        r@ == by_time(
            match f {
                Some(f) => admitted(*f, all_lines(buckets@)),
                None => all_lines(buckets@),
            },
        ),
{
    let ghost keep = |s: Seq<ToxLogItem>|
        match f {
            Some(f) => admitted(*f, s),
            None => s,
        };
    let mut r: Vec<ToxLogItem> = Vec::new();
    let ghost mut seen: Seq<ToxLogItem> = Seq::empty();
    let mut b: usize = 0;
    assert(buckets@.take(0) =~= Seq::<(ToxLogLevel, Vec<ToxLogItem>)>::empty());
    while b < buckets.len()
        invariant
            b <= buckets@.len(),
            seen == all_lines(buckets@.take(b as int)),
            r@ == by_time(keep(seen)),
            keep == (|s: Seq<ToxLogItem>|
                match f {
                    Some(f) => admitted(*f, s),
                    None => s,
                }),
        decreases buckets@.len() - b,
    {
        let items = &buckets[b].1;
        let ghost start = seen;
        let mut i: usize = 0;
        assert(start + items@.take(0) =~= start);
        while i < items.len()
            invariant
                i <= items@.len(),
                seen == start + items@.take(i as int),
                r@ == by_time(keep(seen)),
                keep == (|s: Seq<ToxLogItem>|
                    match f {
                        Some(f) => admitted(*f, s),
                        None => s,
                    }),
                items == buckets@[b as int].1,
            decreases items@.len() - i,
        {
            let x = &items[i];
            let ghost next = seen.push(*x);
            assert(next.drop_last() =~= seen);
            let shown = match f {
                Some(f) => f.matches(x),
                None => true,
            };
            if shown {
                let c = copy_item(x);
                insert_by_time(&mut r, c);
                proof {
                    assert(keep(next).drop_last() =~= keep(seen));
                    assert(keep(next).last() == *x);
                }
            } else {
                proof {
                    assert(keep(next) =~= keep(seen));
                }
            }
            proof {
                seen = next;
                assert(seen =~= start + items@.take(i as int + 1));
            }
            i = i + 1;
        }
        proof {
            assert(items@.take(items@.len() as int) =~= items@);
            assert(buckets@.take(b as int + 1).drop_last() =~= buckets@.take(b as int));
            assert(buckets@.take(b as int + 1).last() == buckets@[b as int]);
        }
        b = b + 1;
    }
    proof {
        assert(buckets@.take(buckets@.len() as int) =~= buckets@);
    }
    r
}

impl Model {
    /// The log lines the log window shows, oldest first.
    pub fn all_tox_logs(&self) -> (r: Vec<ToxLogItem>)
        ensures
            r@ == by_time(admitted(self.ui.log_filters, all_lines(self.domain.tox_logs@))),
    {
        sorted_lines(&self.domain.tox_logs, Some(&self.ui.log_filters))
    }

    /// Every log line kept, oldest first.
    pub fn all_tox_logs_unfiltered(&self) -> (r: Vec<ToxLogItem>)
        ensures
            r@ == by_time(all_lines(self.domain.tox_logs@)),
    {
        sorted_lines(&self.domain.tox_logs, None)
    }
}

} // verus!
