//! Entries of the local hour log.

use vstd::prelude::*;
use crate::date::Date;
use crate::date::Period;
use crate::hours::Hours;

verus! {

/// One unit of logged work.
#[derive(Debug)]
pub struct Entry {
    pub date: Date,
    pub hours: Hours,
    pub tags: Vec<String>,
    pub description: String,
}

/// A logged entry together with the one remote task it is attributed to.
#[derive(Debug)]
pub struct ResolvedEntry {
    pub entry: Entry,
    pub task_id: u64,
}

/// The entries of `entries` whose date lies in `period`, in the order in which they stand.
pub open spec fn entries_in_period(entries: Seq<Entry>, period: Period) -> Seq<Entry> {
    entries.filter(|e: Entry| period.spec_contains(e.date))
}

/// Filtering a sequence extended by one item filters the sequence and then decides on the item.
pub proof fn lemma_filter_push<A>(s: Seq<A>, pred: spec_fn(A) -> bool, x: A)
    ensures
        s.push(x).filter(pred) == if pred(x) {
            s.filter(pred).push(x)
        } else {
            s.filter(pred)
        },
{
    reveal(Seq::filter);
    assert(s.push(x).drop_last() == s);
}

/// Keeps the entries whose date lies in `period`, in the order in which they stand.
pub fn retain_period(entries: Vec<Entry>, period: Period) -> (kept: Vec<Entry>)
    ensures
        kept@ == entries_in_period(entries@, period),
{
    let ghost all = entries@;
    let ghost pred = |e: Entry| period.spec_contains(e.date);
    let mut kept: Vec<Entry> = Vec::new();
    for entry in it: entries
        invariant
            it.seq() == all,
            kept@ == all.take(it.index() as int).filter(pred),
            pred == (|e: Entry| period.spec_contains(e.date)),
    {
        proof {
            let i = it.index() as int;
            assert(all.take(i + 1) == all.take(i).push(all[i]));
            lemma_filter_push(all.take(i), pred, all[i]);
        }
        if period.contains(entry.date) {
            kept.push(entry);
        }
    }
    proof {
        assert(all.take(all.len() as int) == all);
    }
    kept
}

} // verus!
