//! Merging of the entries of one day and task into one summary entry.

use vstd::prelude::*;
use crate::date::Date;
use crate::date::lemma_rank_orders_dates;
use crate::entry::Entry;
use crate::entry::ResolvedEntry;
use crate::hours::Hours;

verus! {

/// The day and the task by which entries are grouped.
pub open spec fn group_key(entry: ResolvedEntry) -> (Date, u64) {
    (entry.entry.date, entry.task_id)
}

/// The order of groups: by day, then by task.
pub open spec fn key_before(a: (Date, u64), b: (Date, u64)) -> bool {
    a.0.rank() < b.0.rank() || (a.0 == b.0 && a.1 < b.1)
}

/// The minutes that the entries of the group `key` add up to.
pub open spec fn group_minutes(entries: Seq<ResolvedEntry>, key: (Date, u64)) -> int
    decreases entries.len(),
{
    if entries.len() == 0 {
        0
    } else {
        group_minutes(entries.drop_last(), key) + if group_key(entries.last()) == key {
            entries.last().entry.hours.minutes as int
        } else {
            0
        }
    }
}

/// Whether an entry of `entries` belongs to the group `key`.
pub open spec fn has_group(entries: Seq<ResolvedEntry>, key: (Date, u64)) -> bool {
    exists|k: int| 0 <= k < entries.len() && group_key(entries[k]) == key
}

/// Whether `summary` stands for its whole group of `entries`: it carries the
/// group's total time and the fixed description, and no tags.
pub open spec fn is_group_summary(
    summary: ResolvedEntry,
    entries: Seq<ResolvedEntry>,
    description: Seq<char>,
) -> bool {
    &&& summary.entry.tags@.len() == 0
    &&& summary.entry.description@ == description
    &&& has_group(entries, group_key(summary))
    &&& summary.entry.hours.minutes == group_minutes(entries, group_key(summary))
}

/// Whether `summaries` holds one summary entry for each group of `entries`
/// and nothing else, in the order of the groups.
pub open spec fn is_summary(
    summaries: Seq<ResolvedEntry>,
    entries: Seq<ResolvedEntry>,
    description: Seq<char>,
) -> bool {
    &&& forall|i: int, j: int|
        0 <= i < j < summaries.len() ==> key_before(
            #[trigger] group_key(summaries[i]),
            #[trigger] group_key(summaries[j]),
        )
    &&& forall|i: int|
        0 <= i < summaries.len() ==> is_group_summary(
            #[trigger] summaries[i],
            entries,
            description,
        )
    &&& forall|k: int|
        0 <= k < entries.len() ==> has_group(summaries, group_key(#[trigger] entries[k]))
}

/// Whether some group of `entries` adds up to more minutes than an entry can hold.
pub open spec fn some_group_overflows(entries: Seq<ResolvedEntry>) -> bool {
    exists|k: int|
        0 <= k < entries.len() && group_minutes(entries, group_key(#[trigger] entries[k]))
            > u32::MAX
}

/// The total of a group does not shrink when entries are added at the end.
pub proof fn lemma_group_minutes_grow(entries: Seq<ResolvedEntry>, upto: int, key: (Date, u64))
    requires
        0 <= upto <= entries.len(),
    ensures
        0 <= group_minutes(entries.take(upto), key) <= group_minutes(entries, key),
    decreases entries.len() - upto,
{
    if upto < entries.len() {
        lemma_group_minutes_grow(entries, upto + 1, key);
        assert(entries.take(upto + 1).drop_last() == entries.take(upto));
        lemma_group_minutes_nonnegative(entries.take(upto), key);
    } else {
        assert(entries.take(upto) == entries);
        lemma_group_minutes_nonnegative(entries, key);
    }
}

proof fn lemma_group_minutes_nonnegative(entries: Seq<ResolvedEntry>, key: (Date, u64))
    ensures
        0 <= group_minutes(entries, key),
    decreases entries.len(),
{
    if entries.len() > 0 {
        lemma_group_minutes_nonnegative(entries.drop_last(), key);
    }
}

/// Whether the group of `a` comes before the group `(date, task)`.
fn group_before(a: &ResolvedEntry, date: Date, task: u64) -> (result: bool)
    ensures
        result == key_before(group_key(*a), (date, task)),
{
    proof {
        lemma_rank_orders_dates(a.entry.date, date);
    }
    a.entry.date.before(date) || (a.entry.date == date && a.task_id < task)
}

/// Merges the entries of each day and task into one entry with the
/// description `description`, whose time is the sum of the merged times.
///
/// The summaries come ordered by day, then by task. Returns `None` where the
/// time of some group is more than an entry can hold.
pub fn summarize_per_day(entries: Vec<ResolvedEntry>, description: &str) -> (result: Option<
    Vec<ResolvedEntry>,
>)
    ensures
        match result {
            Some(summaries) => is_summary(summaries@, entries@, description@)
                && !some_group_overflows(entries@),
            None => some_group_overflows(entries@),
        },
{
    let ghost all = entries@;
    let mut summaries: Vec<ResolvedEntry> = Vec::new();
    for item in it: entries
        invariant
            it.seq() == all,
            is_summary(summaries@, all.take(it.index() as int), description@),
    {
        let ghost done = it.index() as int;
        let ghost before = summaries@;
        let ghost key = group_key(item);
        let date = item.entry.date;
        let task = item.task_id;
        let minutes = item.entry.hours.total_minutes();
        proof {
            assert(all.take(done + 1).drop_last() == all.take(done));
            assert(all.take(done + 1).last() == item);
        }
        let mut at: usize = 0;
        while at < summaries.len() && group_before(&summaries[at], date, task)
            invariant
                at <= summaries.len(),
                summaries@ == before,
                forall|j: int| 0 <= j < at ==> key_before(#[trigger] group_key(before[j]), key),
                key == (date, task),
            decreases summaries.len() - at,
        {
            at += 1;
        }
        let here = at < summaries.len() && summaries[at].entry.date == date
            && summaries[at].task_id == task;
        if here {
            let found = summaries.remove(at);
            let total = match found.entry.hours.total_minutes().checked_add(minutes) {
                Some(total) => total,
                None => {
                    proof {
                        assert(is_group_summary(before[at as int], all.take(done), description@));
                        lemma_group_minutes_grow(all, done + 1, key);
                        assert(all[done] == item);
                    }
                    return None;
                },
            };
            let merged = ResolvedEntry {
                entry: Entry {
                    date: found.entry.date,
                    hours: Hours::from_minutes(total),
                    tags: found.entry.tags,
                    description: found.entry.description,
                },
                task_id: found.task_id,
            };
            summaries.insert(at, merged);
            proof {
                let after = summaries@;
                assert(after == before.update(at as int, merged));
                assert(is_group_summary(before[at as int], all.take(done), description@));
                lemma_step(before, after, all, done, description@, at as int, false);
            }
        } else {
            let fresh = ResolvedEntry {
                entry: Entry {
                    date,
                    hours: Hours::from_minutes(minutes),
                    tags: Vec::new(),
                    description: description.to_owned(),
                },
                task_id: task,
            };
            summaries.insert(at, fresh);
            proof {
                let after = summaries@;
                assert(after == before.insert(at as int, fresh));
                if at < before.len() {
                    lemma_rank_orders_dates(before[at as int].entry.date, date);
                }
                lemma_step(before, after, all, done, description@, at as int, true);
            }
        }
    }
    proof {
        assert(all.take(all.len() as int) == all);
        if some_group_overflows(all) {
            let k = choose|k: int|
                0 <= k < all.len() && group_minutes(all, group_key(#[trigger] all[k])) > u32::MAX;
            assert(has_group(summaries@, group_key(all[k])));
        }
    }
    Some(summaries)
}

/// One more entry keeps the summaries a summary: either its group is new and
/// a summary of the entry alone is put in its place in the order, or the
/// group's summary takes the entry's minutes.
proof fn lemma_step(
    before: Seq<ResolvedEntry>,
    after: Seq<ResolvedEntry>,
    all: Seq<ResolvedEntry>,
    done: int,
    description: Seq<char>,
    at: int,
    fresh: bool,
)
    requires
        0 <= done < all.len(),
        0 <= at <= before.len(),
        is_summary(before, all.take(done), description),
        forall|j: int| 0 <= j < at ==> key_before(#[trigger] group_key(before[j]), group_key(all[done])),
        fresh ==> {
            &&& after == before.insert(at, after[at])
            &&& at < before.len() ==> key_before(group_key(all[done]), group_key(before[at]))
            &&& group_key(after[at]) == group_key(all[done])
            &&& after[at].entry.hours.minutes == all[done].entry.hours.minutes
            &&& after[at].entry.tags@.len() == 0
            &&& after[at].entry.description@ == description
        },
        !fresh ==> {
            &&& at < before.len()
            &&& after == before.update(at, after[at])
            &&& group_key(before[at]) == group_key(all[done])
            &&& group_key(after[at]) == group_key(all[done])
            &&& after[at].entry.hours.minutes == before[at].entry.hours.minutes
                + all[done].entry.hours.minutes
            &&& after[at].entry.tags@ == before[at].entry.tags@
            &&& after[at].entry.description@ == before[at].entry.description@
        },
    ensures
        is_summary(after, all.take(done + 1), description),
{
    let seen = all.take(done);
    let now = all.take(done + 1);
    let key = group_key(all[done]);
    assert(now.drop_last() == seen);
    assert(now.last() == all[done]);
    assert forall|k: int| 0 <= k < seen.len() implies seen[k] == now[k] by {}
    // The groups stay in order.
    assert forall|i: int, j: int| 0 <= i < j < after.len() implies key_before(
        #[trigger] group_key(after[i]),
        #[trigger] group_key(after[j]),
    ) by {
        if fresh {
            let bi = if i < at { i } else { i - 1 };
            let bj = if j < at { j } else { j - 1 };
            if i != at {
                assert(after[i] == before[bi]);
            }
            if j != at {
                assert(after[j] == before[bj]);
            }
            if i == at {
                assert(key_before(group_key(before[at]), group_key(before[bj])) || at == bj);
            } else if j == at {
            } else {
                assert(key_before(group_key(before[bi]), group_key(before[bj])));
            }
        } else {
            if i != at {
                assert(after[i] == before[i]);
            }
            if j != at {
                assert(after[j] == before[j]);
            }
            assert(key_before(group_key(before[i]), group_key(before[j])));
        }
    }
    // No group before the entry's place is the entry's group.
    assert forall|i: int| 0 <= i < before.len() && (fresh || i != at) implies group_key(
        #[trigger] before[i],
    ) != key by {
        if i < at {
            assert(key_before(group_key(before[i]), key));
        } else if fresh {
            if i > at {
                assert(key_before(group_key(before[at]), group_key(before[i])));
            }
        } else {
            assert(key_before(group_key(before[at]), group_key(before[i])));
        }
    }
    // Each summary stands for its group.
    assert forall|i: int| 0 <= i < after.len() implies is_group_summary(
        #[trigger] after[i],
        now,
        description,
    ) by {
        if i == at {
            assert(group_key(now[done]) == group_key(after[at]));
            if fresh {
                assert(group_minutes(seen, key) == 0) by {
                    lemma_absent_group_is_empty(before, seen, description, key);
                }
            } else {
                assert(is_group_summary(before[at], seen, description));
            }
        } else {
            let b = if fresh && i > at { i - 1 } else { i };
            assert(after[i] == before[b]);
            assert(is_group_summary(before[b], seen, description));
            let k = choose|k: int| 0 <= k < seen.len() && group_key(seen[k]) == group_key(before[b]);
            assert(group_key(now[k]) == group_key(after[i]));
        }
    }
    // Each entry has its summary.
    assert forall|k: int| 0 <= k < now.len() implies has_group(
        after,
        group_key(#[trigger] now[k]),
    ) by {
        if k == done {
            assert(group_key(after[at]) == group_key(now[k]));
        } else {
            assert(has_group(before, group_key(seen[k])));
            let i = choose|i: int| 0 <= i < before.len() && group_key(before[i]) == group_key(seen[k]);
            if fresh {
                let a = if i < at { i } else { i + 1 };
                assert(after[a] == before[i]);
            } else {
                assert(group_key(after[i]) == group_key(before[i]));
            }
        }
    }
}

/// A group without a summary has no entries, and so no minutes.
proof fn lemma_absent_group_is_empty(
    summaries: Seq<ResolvedEntry>,
    entries: Seq<ResolvedEntry>,
    description: Seq<char>,
    key: (Date, u64),
)
    requires
        is_summary(summaries, entries, description),
        !has_group(summaries, key),
    ensures
        group_minutes(entries, key) == 0,
{
    assert forall|k: int| 0 <= k < entries.len() implies group_key(#[trigger] entries[k])
        != key by {
        assert(has_group(summaries, group_key(entries[k])));
    }
    lemma_no_entries_no_minutes(entries, key);
}

proof fn lemma_no_entries_no_minutes(entries: Seq<ResolvedEntry>, key: (Date, u64))
    requires
        forall|k: int| 0 <= k < entries.len() ==> group_key(#[trigger] entries[k]) != key,
    ensures
        group_minutes(entries, key) == 0,
    decreases entries.len(),
{
    if entries.len() > 0 {
        let init = entries.drop_last();
        assert forall|k: int| 0 <= k < init.len() implies group_key(#[trigger] init[k]) != key by {
            assert(init[k] == entries[k]);
        }
        lemma_no_entries_no_minutes(init, key);
        assert(group_key(entries[entries.len() - 1]) != key);
    }
}

} // verus!
