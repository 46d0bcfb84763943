//! What holds of every plan that the reconciler computes.

use vstd::prelude::*;
use vstd::seq_lib::lemma_multiset_commutative;
use vstd::seq_lib::to_multiset_insert;
use vstd::seq_lib::to_multiset_remove;
use crate::entry::ResolvedEntry;
use crate::reconcile::after_remote;
use crate::reconcile::first_match;
use crate::reconcile::is_matched;
use crate::reconcile::is_orphan;
use crate::reconcile::lemma_first_match;
use crate::reconcile::local_key;
use crate::reconcile::local_keys;
use crate::reconcile::planned_creates;
use crate::reconcile::planned_deletes;
use crate::reconcile::remote_key;
use crate::reconcile::remote_keys;
use crate::types::TimeEntry;

verus! {

/// Whether no two remote entries share an identifier.
pub open spec fn ids_distinct(existing: Seq<TimeEntry>) -> bool {
    forall|i: int, j: int| 0 <= i < j < existing.len() ==> existing[i].id != existing[j].id
}

/// Whether no two dated remote entries share an identifier.
pub open spec fn dated_ids_distinct(existing: Seq<TimeEntry>) -> bool {
    forall|i: int, j: int|
        0 <= i < j < existing.len() && existing[i].date is Some && existing[j].date is Some
            ==> existing[i].id != existing[j].id
}

/// The test for a remote entry that carries a date.
pub open spec fn has_date() -> spec_fn(TimeEntry) -> bool {
    |r: TimeEntry| r.date is Some
}

/// The test for a remote entry that carries a date and is not among `deletes`.
pub open spec fn is_kept(deletes: Seq<u64>) -> spec_fn(TimeEntry) -> bool {
    |r: TimeEntry| r.date is Some && !deletes.contains(r.id)
}

/// The test for a remote entry that is not among `deletes`.
pub open spec fn survives(deletes: Seq<u64>) -> spec_fn(TimeEntry) -> bool {
    |r: TimeEntry| !deletes.contains(r.id)
}

/// The dated remote entries that a plan with the deletions `deletes` leaves in place.
pub open spec fn kept_dated(existing: Seq<TimeEntry>, deletes: Seq<u64>) -> Seq<TimeEntry> {
    existing.filter(is_kept(deletes))
}

/// The remote entries once a plan has been carried out: what was not deleted,
/// followed by the entries that the service made of the uploads.
pub open spec fn remote_after(
    existing: Seq<TimeEntry>,
    deletes: Seq<u64>,
    created: Seq<TimeEntry>,
) -> Seq<TimeEntry> {
    existing.filter(survives(deletes)) + created
}

/// Whether `created` holds, entry by entry, what the service stores for the uploads `creates`.
pub open spec fn is_upload_of(created: Seq<TimeEntry>, creates: Seq<ResolvedEntry>) -> bool {
    &&& created.len() == creates.len()
    &&& forall|i: int|
        0 <= i < created.len() ==> (#[trigger] created[i]).date is Some && remote_key(created[i])
            == local_key(creates[i])
}

/// The dated remote entries that take a local entry, in remote order.
pub open spec fn matched_remote(desired: Seq<ResolvedEntry>, existing: Seq<TimeEntry>) -> Seq<
    TimeEntry,
>
    decreases existing.len(),
{
    if existing.len() == 0 {
        Seq::empty()
    } else {
        let rest = matched_remote(after_remote(desired, existing[0]), existing.drop_first());
        if is_matched(desired, existing[0]) {
            seq![existing[0]] + rest
        } else {
            rest
        }
    }
}

proof fn lemma_filter_front<A>(s: Seq<A>, p: spec_fn(A) -> bool)
    requires
        s.len() > 0,
    ensures
        s.filter(p) == (if p(s[0]) {
            seq![s[0]]
        } else {
            Seq::empty()
        }) + s.drop_first().filter(p),
{
    assert(s == seq![s[0]] + s.drop_first());
    s.drop_first().lemma_filter_prepend(s[0], p);
}

proof fn lemma_keys_front(existing: Seq<TimeEntry>)
    requires
        existing.len() > 0,
    ensures
        remote_keys(existing).to_multiset() == remote_keys(
            existing.drop_first(),
        ).to_multiset().insert(remote_key(existing[0])),
{
    let keys = remote_keys(existing);
    let tail = remote_keys(existing.drop_first());
    assert(keys == tail.insert(0, remote_key(existing[0])));
    to_multiset_insert(tail, 0, remote_key(existing[0]));
}

proof fn lemma_keys_remove(desired: Seq<ResolvedEntry>, i: int)
    requires
        0 <= i < desired.len(),
    ensures
        local_keys(desired.remove(i)).to_multiset() == local_keys(desired).to_multiset().remove(
            local_key(desired[i]),
        ),
        local_keys(desired).to_multiset().count(local_key(desired[i])) > 0,
{
    let keys = local_keys(desired);
    assert(local_keys(desired.remove(i)) == keys.remove(i));
    to_multiset_remove(keys, i);
    assert(keys[i] == local_key(desired[i]));
    assert(keys.contains(local_key(desired[i])));
    vstd::seq_lib::to_multiset_contains(keys, local_key(desired[i]));
}

/// Whether `id` is the identifier of a dated entry of `existing`.
pub open spec fn names_dated_entry(existing: Seq<TimeEntry>, id: u64) -> bool {
    exists|j: int| 0 <= j < existing.len() && existing[j].date is Some && existing[j].id == id
}

/// Every planned deletion names a dated remote entry.
pub proof fn lemma_deletes_are_dated(desired: Seq<ResolvedEntry>, existing: Seq<TimeEntry>)
    ensures
        forall|k: int|
            0 <= k < planned_deletes(desired, existing).len() ==> names_dated_entry(
                existing,
                #[trigger] planned_deletes(desired, existing)[k],
            ),
    decreases existing.len(),
{
    if existing.len() > 0 {
        let tail = existing.drop_first();
        let free = after_remote(desired, existing[0]);
        lemma_deletes_are_dated(free, tail);
        let deletes = planned_deletes(desired, existing);
        let rest = planned_deletes(free, tail);
        assert forall|k: int| 0 <= k < deletes.len() implies names_dated_entry(
            existing,
            #[trigger] deletes[k],
        ) by {
            if is_orphan(desired, existing[0]) && k == 0 {
                assert(existing[0].date is Some && existing[0].id == deletes[0]);
            } else {
                let below = if is_orphan(desired, existing[0]) {
                    k - 1
                } else {
                    k
                };
                assert(deletes[k] == rest[below]);
                assert(names_dated_entry(tail, rest[below]));
                let j = choose|j: int|
                    0 <= j < tail.len() && tail[j].date is Some && tail[j].id == rest[below];
                assert(existing[j + 1] == tail[j]);
                assert(existing[j + 1].date is Some && existing[j + 1].id == deletes[k]);
            }
        }
    }
}

/// A remote entry without a date is never deleted, provided that it shares its
/// identifier with no other remote entry.
pub proof fn law_undated_entries_untouched(
    desired: Seq<ResolvedEntry>,
    existing: Seq<TimeEntry>,
    j: int,
)
    requires
        ids_distinct(existing),
        0 <= j < existing.len(),
        existing[j].date is None,
    ensures
        !planned_deletes(desired, existing).contains(existing[j].id),
{
    lemma_deletes_are_dated(desired, existing);
    let deletes = planned_deletes(desired, existing);
    if deletes.contains(existing[j].id) {
        let k = choose|k: int| 0 <= k < deletes.len() && deletes[k] == existing[j].id;
        assert(names_dated_entry(existing, deletes[k]));
        let i = choose|i: int|
            0 <= i < existing.len() && existing[i].date is Some && existing[i].id == deletes[k];
        assert(i != j);
    }
}

/// The matched remote entries and the planned creations together carry
/// exactly the keys of the desired entries, each as often as it is desired.
pub proof fn lemma_matched_and_creates_cover_desired(
    desired: Seq<ResolvedEntry>,
    existing: Seq<TimeEntry>,
)
    ensures
        remote_keys(matched_remote(desired, existing)).to_multiset().add(
            local_keys(planned_creates(desired, existing)).to_multiset(),
        ) == local_keys(desired).to_multiset(),
    decreases existing.len(),
{
    broadcast use {vstd::multiset::group_multiset_axioms, vstd::seq_lib::group_to_multiset_ensures};

    let goal_left = remote_keys(matched_remote(desired, existing)).to_multiset().add(
        local_keys(planned_creates(desired, existing)).to_multiset(),
    );
    if existing.len() == 0 {
        assert(remote_keys(matched_remote(desired, existing)) == Seq::<(Seq<char>, int)>::empty());
        assert(goal_left =~= local_keys(desired).to_multiset());
    } else {
        let head = existing[0];
        let tail = existing.drop_first();
        let free = after_remote(desired, head);
        lemma_matched_and_creates_cover_desired(free, tail);
        if is_matched(desired, head) {
            let i = first_match(desired, head);
            lemma_first_match(desired, head);
            lemma_keys_remove(desired, i);
            let matched = matched_remote(desired, existing);
            assert(matched.drop_first() == matched_remote(free, tail));
            lemma_keys_front(matched);
            let key = remote_key(head);
            let inner = remote_keys(matched_remote(free, tail)).to_multiset().add(
                local_keys(planned_creates(free, tail)).to_multiset(),
            );
            assert(inner == local_keys(desired).to_multiset().remove(key));
            assert(goal_left =~= inner.insert(key));
            assert(inner.insert(key) =~= local_keys(desired).to_multiset());
        }
    }
}

/// With distinct identifiers among the dated remote entries, the dated
/// entries that the plan does not delete are the matched ones.
pub proof fn lemma_kept_is_matched(
    desired: Seq<ResolvedEntry>,
    existing: Seq<TimeEntry>,
    earlier: Seq<u64>,
)
    requires
        dated_ids_distinct(existing),
        forall|j: int|
            0 <= j < existing.len() && existing[j].date is Some ==> !earlier.contains(
                #[trigger] existing[j].id,
            ),
    ensures
        kept_dated(existing, earlier + planned_deletes(desired, existing)) == matched_remote(
            desired,
            existing,
        ),
    decreases existing.len(),
{
    let deletes = planned_deletes(desired, existing);
    let all = earlier + deletes;
    if existing.len() == 0 {
        assert(existing.filter(is_kept(all)) == Seq::<TimeEntry>::empty()) by {
            existing.lemma_filter_len(is_kept(all));
        }
    } else {
        let head = existing[0];
        let tail = existing.drop_first();
        let free = after_remote(desired, head);
        let rest = planned_deletes(free, tail);
        lemma_filter_front(existing, is_kept(all));
        lemma_deletes_are_dated(free, tail);
        assert forall|j: int| 0 <= j < tail.len() implies tail[j] == existing[j + 1] by {}
        assert(dated_ids_distinct(tail)) by {
            assert forall|i: int, j: int|
                0 <= i < j < tail.len() && tail[i].date is Some && tail[j].date is Some implies tail[i].id
                != tail[j].id by {
                assert(tail[i] == existing[i + 1]);
                assert(tail[j] == existing[j + 1]);
            }
        }
        if head.date is Some {
            assert(!rest.contains(head.id)) by {
                if rest.contains(head.id) {
                    let k = choose|k: int| 0 <= k < rest.len() && rest[k] == head.id;
                    assert(names_dated_entry(tail, rest[k]));
                    let j = choose|j: int|
                        0 <= j < tail.len() && tail[j].date is Some && tail[j].id == rest[k];
                    assert(tail[j] == existing[j + 1]);
                }
            }
        }
        if is_orphan(desired, head) {
            let wider = earlier.push(head.id);
            assert(all == wider + rest);
            assert(all.contains(head.id)) by {
                assert(all[earlier.len() as int] == head.id);
            }
            assert forall|j: int| 0 <= j < tail.len() && tail[j].date is Some implies !wider.contains(
                #[trigger] tail[j].id,
            ) by {
                assert(tail[j] == existing[j + 1]);
                if wider.contains(tail[j].id) {
                    let k = choose|k: int| 0 <= k < wider.len() && wider[k] == tail[j].id;
                    if k < earlier.len() {
                        assert(earlier[k] == tail[j].id);
                        assert(earlier.contains(existing[j + 1].id));
                    }
                }
            }
            lemma_kept_is_matched(free, tail, wider);
            assert(!is_kept(all)(head));
            assert(kept_dated(existing, all) == tail.filter(is_kept(all)));
            assert(kept_dated(tail, wider + rest) == matched_remote(free, tail));
        } else {
            assert(all == earlier + rest);
            assert forall|j: int| 0 <= j < tail.len() && tail[j].date is Some implies !earlier.contains(
                #[trigger] tail[j].id,
            ) by {
                assert(tail[j] == existing[j + 1]);
            }
            lemma_kept_is_matched(free, tail, earlier);
            if head.date is Some {
                assert(!earlier.contains(existing[0].id));
                assert(!all.contains(head.id)) by {
                    if all.contains(head.id) {
                        let k = choose|k: int| 0 <= k < all.len() && all[k] == head.id;
                        if k < earlier.len() {
                            assert(earlier[k] == head.id);
                        } else {
                            assert(rest[k - earlier.len()] == head.id);
                        }
                    }
                }
                assert(is_kept(all)(head));
                assert(is_matched(desired, head)) by {
                    lemma_first_match(desired, head);
                }
                assert(kept_dated(existing, all) == seq![head] + tail.filter(is_kept(all)));
            } else {
                assert(!is_kept(all)(head));
                assert(kept_dated(existing, all) == tail.filter(is_kept(all)));
            }
            assert(kept_dated(tail, earlier + rest) == matched_remote(free, tail));
        }
    }
}

/// Conservation: the dated remote entries that the plan leaves in place and
/// the entries that it creates carry together exactly the keys of the desired
/// entries, each as often as it is desired.
pub proof fn law_conservation(desired: Seq<ResolvedEntry>, existing: Seq<TimeEntry>)
    requires
        dated_ids_distinct(existing),
    ensures
        remote_keys(
            kept_dated(existing, planned_deletes(desired, existing)),
        ).to_multiset().add(local_keys(planned_creates(desired, existing)).to_multiset())
            == local_keys(desired).to_multiset(),
{
    let none = Seq::<u64>::empty();
    assert(none + planned_deletes(desired, existing) == planned_deletes(desired, existing));
    lemma_kept_is_matched(desired, existing, none);
    lemma_matched_and_creates_cover_desired(desired, existing);
}

/// Idempotence: where the dated remote entries carry exactly the keys of the
/// desired entries, each as often as it is desired, the plan is empty.
pub proof fn law_idempotence(desired: Seq<ResolvedEntry>, existing: Seq<TimeEntry>)
    requires
        remote_keys(existing.filter(has_date())).to_multiset() == local_keys(
            desired,
        ).to_multiset(),
    ensures
        planned_creates(desired, existing) == Seq::<ResolvedEntry>::empty(),
        planned_deletes(desired, existing) == Seq::<u64>::empty(),
    decreases existing.len(),
{
    broadcast use vstd::seq_lib::group_to_multiset_ensures;

    if existing.len() == 0 {
        existing.lemma_filter_len(has_date());
        assert(existing.filter(has_date()).len() == 0);
        assert(remote_keys(existing.filter(has_date())).len() == 0);
        assert(local_keys(desired).to_multiset().len() == 0);
        assert(local_keys(desired).len() == 0);
        assert(desired.len() == 0);
        assert(desired == Seq::<ResolvedEntry>::empty());
    } else {
        let head = existing[0];
        let tail = existing.drop_first();
        lemma_filter_front(existing, has_date());
        if head.date is Some {
            let dated = existing.filter(has_date());
            assert(dated[0] == head);
            assert(dated.drop_first() == tail.filter(has_date()));
            lemma_keys_front(dated);
            let keys = local_keys(desired);
            assert(keys.to_multiset().count(remote_key(head)) > 0);
            assert(keys.contains(remote_key(head)));
            let at = choose|at: int| 0 <= at < keys.len() && keys[at] == remote_key(head);
            assert(local_key(desired[at]) == remote_key(head));
            lemma_first_match(desired, head);
            let i = first_match(desired, head);
            assert(i < desired.len());
            lemma_keys_remove(desired, i);
            assert(local_keys(desired.remove(i)).to_multiset() =~= remote_keys(
                tail.filter(has_date()),
            ).to_multiset());
            law_idempotence(desired.remove(i), tail);
        } else {
            assert(existing.filter(has_date()) == tail.filter(has_date()));
            law_idempotence(desired, tail);
        }
    }
}

/// Idempotence after a run: once a plan has been carried out, reconciling the
/// same desired entries against the new remote state gives the empty plan.
pub proof fn law_second_run_is_empty(
    desired: Seq<ResolvedEntry>,
    existing: Seq<TimeEntry>,
    created: Seq<TimeEntry>,
)
    requires
        dated_ids_distinct(existing),
        is_upload_of(created, planned_creates(desired, existing)),
    ensures
        planned_creates(
            desired,
            remote_after(existing, planned_deletes(desired, existing), created),
        ) == Seq::<ResolvedEntry>::empty(),
        planned_deletes(
            desired,
            remote_after(existing, planned_deletes(desired, existing), created),
        ) == Seq::<u64>::empty(),
{
    let deletes = planned_deletes(desired, existing);
    let creates = planned_creates(desired, existing);
    let left = existing.filter(survives(deletes));
    let after = remote_after(existing, deletes, created);
    Seq::filter_distributes_over_add(left, created, has_date());
    lemma_filter_twice(existing, deletes);
    assert(created.filter(has_date()) == created) by {
        lemma_filter_all(created, has_date());
    }
    assert(after.filter(has_date()) == kept_dated(existing, deletes) + created);
    assert(remote_keys(created) == local_keys(creates));
    assert(remote_keys(kept_dated(existing, deletes) + created) == remote_keys(
        kept_dated(existing, deletes),
    ) + remote_keys(created));
    lemma_multiset_commutative(remote_keys(kept_dated(existing, deletes)), remote_keys(created));
    law_conservation(desired, existing);
    law_idempotence(desired, after);
}

proof fn lemma_filter_all<A>(s: Seq<A>, p: spec_fn(A) -> bool)
    requires
        forall|i: int| 0 <= i < s.len() ==> p(#[trigger] s[i]),
    ensures
        s.filter(p) == s,
    decreases s.len(),
{
    reveal(Seq::filter);
    if s.len() > 0 {
        lemma_filter_all(s.drop_last(), p);
        assert(s.drop_last().push(s.last()) == s);
    }
}

proof fn lemma_filter_twice(existing: Seq<TimeEntry>, deletes: Seq<u64>)
    ensures
        existing.filter(survives(deletes)).filter(has_date()) == existing.filter(is_kept(deletes)),
    decreases existing.len(),
{
    reveal(Seq::filter);
    if existing.len() > 0 {
        lemma_filter_twice(existing.drop_last(), deletes);
        let init = existing.drop_last().filter(survives(deletes));
        if survives(deletes)(existing.last()) {
            assert(init.push(existing.last()).drop_last() == init);
        }
    }
}

} // verus!
