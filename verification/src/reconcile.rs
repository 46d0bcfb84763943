//! Reconciliation of the desired local entries with the entries found on the remote.
//!
//! A local and a remote entry stand for the same fact when their descriptions
//! are equal and the remote duration is exactly the local duration in seconds.
//! Each dated remote entry, in the order in which the remote listed it, takes
//! the first local entry that is still free and stands for the same fact. A
//! dated remote entry that finds none is deleted; the local entries that are
//! left over are created.

use vstd::prelude::*;
use crate::entry::ResolvedEntry;
use crate::reconcile_laws::lemma_deletes_are_dated;
use crate::reconcile_laws::names_dated_entry;
use crate::types::TimeEntry;

verus! {

/// The actions that make the remote mirror the local log.
#[derive(Debug)]
pub struct SyncPlan {
    /// Local entries to upload.
    pub creates: Vec<ResolvedEntry>,
    /// Identifiers of the remote entries to delete.
    pub deletes: Vec<u64>,
}

/// The description and the duration in seconds by which a local entry is matched.
pub open spec fn local_key(entry: ResolvedEntry) -> (Seq<char>, int) {
    (entry.entry.description@, entry.entry.hours.spec_seconds())
}

/// The description and the duration in seconds by which a remote entry is matched.
pub open spec fn remote_key(remote: TimeEntry) -> (Seq<char>, int) {
    (remote.description@, remote.duration as int)
}

/// The matching keys of a sequence of local entries.
pub open spec fn local_keys(desired: Seq<ResolvedEntry>) -> Seq<(Seq<char>, int)> {
    desired.map_values(|e: ResolvedEntry| local_key(e))
}

/// The matching keys of a sequence of remote entries.
pub open spec fn remote_keys(existing: Seq<TimeEntry>) -> Seq<(Seq<char>, int)> {
    existing.map_values(|r: TimeEntry| remote_key(r))
}

/// The index of the first entry of `desired` that matches `remote`, or the
/// length of `desired` if none does.
pub open spec fn first_match(desired: Seq<ResolvedEntry>, remote: TimeEntry) -> int
    decreases desired.len(),
{
    if desired.len() == 0 {
        0
    } else if local_key(desired[0]) == remote_key(remote) {
        0
    } else {
        1 + first_match(desired.drop_first(), remote)
    }
}

/// Whether `remote` is under the reconciler's authority and takes an entry of `desired`.
pub open spec fn is_matched(desired: Seq<ResolvedEntry>, remote: TimeEntry) -> bool {
    remote.date is Some && first_match(desired, remote) < desired.len()
}

/// Whether `remote` is under the reconciler's authority and finds no entry of `desired`.
pub open spec fn is_orphan(desired: Seq<ResolvedEntry>, remote: TimeEntry) -> bool {
    remote.date is Some && first_match(desired, remote) == desired.len()
}

/// The local entries that are still free once `remote` has been looked at.
pub open spec fn after_remote(desired: Seq<ResolvedEntry>, remote: TimeEntry) -> Seq<
    ResolvedEntry,
> {
    if is_matched(desired, remote) {
        desired.remove(first_match(desired, remote))
    } else {
        desired
    }
}

/// The local entries that no remote entry of `existing` takes, in the order in which they stand.
pub open spec fn planned_creates(desired: Seq<ResolvedEntry>, existing: Seq<TimeEntry>) -> Seq<
    ResolvedEntry,
>
    decreases existing.len(),
{
    if existing.len() == 0 {
        desired
    } else {
        planned_creates(after_remote(desired, existing[0]), existing.drop_first())
    }
}

/// The identifiers of the dated remote entries that find no local entry, in remote order.
pub open spec fn planned_deletes(desired: Seq<ResolvedEntry>, existing: Seq<TimeEntry>) -> Seq<u64>
    decreases existing.len(),
{
    if existing.len() == 0 {
        Seq::empty()
    } else {
        let rest = planned_deletes(after_remote(desired, existing[0]), existing.drop_first());
        if is_orphan(desired, existing[0]) {
            seq![existing[0].id] + rest
        } else {
            rest
        }
    }
}

/// `first_match` is the least index of a matching entry, and the length where no entry matches.
pub proof fn lemma_first_match(desired: Seq<ResolvedEntry>, remote: TimeEntry)
    ensures
        0 <= first_match(desired, remote) <= desired.len(),
        forall|j: int|
            0 <= j < first_match(desired, remote) ==> local_key(#[trigger] desired[j])
                != remote_key(remote),
        first_match(desired, remote) < desired.len() ==> local_key(
            desired[first_match(desired, remote)],
        ) == remote_key(remote),
    decreases desired.len(),
{
    if desired.len() > 0 && local_key(desired[0]) != remote_key(remote) {
        let tail = desired.drop_first();
        lemma_first_match(tail, remote);
        assert forall|j: int| 0 <= j < first_match(desired, remote) implies local_key(
            #[trigger] desired[j],
        ) != remote_key(remote) by {
            if j > 0 {
                assert(desired[j] == tail[j - 1]);
            }
        }
        let i = first_match(tail, remote);
        if i < tail.len() {
            assert(desired[i + 1] == tail[i]);
        }
    }
}

/// Searches `desired` from the front for an entry that matches `remote`.
fn find_match(desired: &Vec<ResolvedEntry>, remote: &TimeEntry) -> (index: usize)
    ensures
        index == first_match(desired@, *remote),
{
    let mut index: usize = 0;
    assert(desired@.skip(0) == desired@);
    while index < desired.len()
        invariant
            index <= desired.len(),
            first_match(desired@, *remote) == index + first_match(
                desired@.skip(index as int),
                *remote,
            ),
        decreases desired.len() - index,
    {
        let candidate = &desired[index];
        proof {
            let tail = desired@.skip(index as int);
            assert(tail[0] == desired@[index as int]);
            assert(tail.drop_first() == desired@.skip(index + 1));
        }
        if candidate.entry.description == remote.description && candidate.entry.hours.seconds()
            == remote.duration as u64 {
            return index;
        }
        index += 1;
    }
    index
}

/// Computes the deletions and creations that make the remote mirror `desired`.
///
/// Remote entries without a date are passed over: they take no local entry and
/// are never deleted.
pub fn reconcile(desired: Vec<ResolvedEntry>, existing: &Vec<TimeEntry>) -> (plan: SyncPlan)
    ensures
        plan.creates@ == planned_creates(desired@, existing@),
        plan.deletes@ == planned_deletes(desired@, existing@),
        forall|k: int|
            0 <= k < plan.deletes@.len() ==> names_dated_entry(
                existing@,
                #[trigger] plan.deletes@[k],
            ),
{
    let ghost wanted = desired@;
    let mut free = desired;
    let mut deletes: Vec<u64> = Vec::new();
    let mut seen: usize = 0;
    assert(existing@.skip(0) == existing@);
    while seen < existing.len()
        invariant
            seen <= existing.len(),
            planned_creates(wanted, existing@) == planned_creates(
                free@,
                existing@.skip(seen as int),
            ),
            planned_deletes(wanted, existing@) == deletes@ + planned_deletes(
                free@,
                existing@.skip(seen as int),
            ),
        decreases existing.len() - seen,
    {
        let remote = &existing[seen];
        proof {
            let tail = existing@.skip(seen as int);
            assert(tail[0] == existing@[seen as int]);
            assert(tail.drop_first() == existing@.skip(seen + 1));
            lemma_first_match(free@, *remote);
        }
        let ghost before = free@;
        let ghost deleted = deletes@;
        if remote.date.is_some() {
            let index = find_match(&free, remote);
            if index < free.len() {
                free.remove(index);
            } else {
                deletes.push(remote.id);
                assert(deletes@ + planned_deletes(before, existing@.skip(seen + 1)) == deleted + (
                seq![remote.id] + planned_deletes(before, existing@.skip(seen + 1))));
            }
        }
        seen += 1;
    }
    proof {
        lemma_deletes_are_dated(wanted, existing@);
    }
    SyncPlan { creates: free, deletes }
}

} // verus!
