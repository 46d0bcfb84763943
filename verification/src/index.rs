//! Grouping of a sequence by a numeric key.

use std::collections::BTreeMap;
use vstd::prelude::*;

verus! {

broadcast use {vstd::laws_cmp::group_laws_cmp, vstd::std_specs::btree::group_btree_axioms};

/// The items of `items` whose key is `key`, in the order in which they stand, where
/// `keys` holds the key of each item.
pub open spec fn items_with_key<T>(items: Seq<T>, keys: Seq<u64>, key: u64) -> Seq<T>
    decreases items.len(),
{
    if items.len() == 0 || keys.len() != items.len() {
        Seq::empty()
    } else {
        let rest = items_with_key(items.drop_last(), keys.drop_last(), key);
        if keys.last() == key {
            rest.push(items.last())
        } else {
            rest
        }
    }
}

/// Whether `index` holds, under each key that occurs, the items of that key
/// in the order in which they stand, and nothing under any other key.
pub open spec fn is_index_of<T>(index: Map<u64, Vec<T>>, items: Seq<T>, keys: Seq<u64>) -> bool {
    &&& forall|key: u64| #[trigger] index.dom().contains(key) <==> keys.contains(key)
    &&& forall|key: u64|
        index.dom().contains(key) ==> (#[trigger] index[key])@ == items_with_key(items, keys, key)
}

/// Whether `keys` holds, item by item, a key that `key` gives for the item.
pub open spec fn are_keys_of<T, F: Fn(&T) -> u64>(keys: Seq<u64>, items: Seq<T>, key: F) -> bool {
    &&& keys.len() == items.len()
    &&& forall|i: int| 0 <= i < keys.len() ==> call_ensures(key, (&items[i],), #[trigger] keys[i])
}

/// Creates an index for a sequence.
///
/// The sequence is indexed by what `key` returns for each item. The items of
/// one key keep their order.
pub fn index_by<T, F: Fn(&T) -> u64>(input: Vec<T>, key: F) -> (result: BTreeMap<u64, Vec<T>>)
    requires
        forall|i: int| 0 <= i < input@.len() ==> call_requires(key, (&#[trigger] input@[i],)),
    ensures
        exists|keys: Seq<u64>| are_keys_of(keys, input@, key) && is_index_of(result@, input@, keys),
{
    let ghost all = input@;
    let ghost mut keys: Seq<u64> = Seq::empty();
    let mut result: BTreeMap<u64, Vec<T>> = BTreeMap::new();
    for item in it: input
        invariant
            it.seq() == all,
            forall|i: int| 0 <= i < all.len() ==> call_requires(key, (&#[trigger] all[i],)),
            are_keys_of(keys, all.take(it.index()), key),
            is_index_of(result@, all.take(it.index()), keys),
    {
        let ghost done: int = it.index();
        let ghost before = result@;
        let ghost seen = keys;
        assert(all[done] == item);
        let k = key(&item);
        proof {
            keys = seen.push(k);
            assert(all.take(done + 1).drop_last() == all.take(done));
            assert(keys.drop_last() == seen);
            assert forall|i: int| 0 <= i < keys.len() implies call_ensures(
                key,
                (&all.take(done + 1)[i],),
                #[trigger] keys[i],
            ) by {
                if i < done {
                    assert(all.take(done + 1)[i] == all.take(done)[i]);
                    assert(keys[i] == seen[i]);
                }
            }
        }
        let mut group = match result.remove(&k) {
            Some(group) => group,
            None => Vec::new(),
        };
        let ghost earlier = group@;
        group.push(item);
        result.insert(k, group);
        proof {
            assert(earlier == items_with_key(all.take(done), seen, k)) by {
                if !seen.contains(k) {
                    lemma_absent_key(all.take(done), seen, k);
                }
            }
            assert forall|other: u64| #[trigger]
                result@.dom().contains(other) <==> keys.contains(other) by {
                if seen.contains(other) {
                    let i = choose|i: int| 0 <= i < seen.len() && seen[i] == other;
                    assert(keys[i] == other);
                }
                if keys.contains(other) && other != k {
                    let i = choose|i: int| 0 <= i < keys.len() && keys[i] == other;
                    assert(seen[i] == other);
                }
                assert(keys[done] == k);
                assert(before.dom().contains(other) <==> seen.contains(other));
            }
            assert forall|other: u64| result@.dom().contains(other) implies (
            #[trigger] result@[other])@ == items_with_key(all.take(done + 1), keys, other) by {
                if other != k {
                    assert(before.dom().contains(other));
                    assert(result@[other] == before[other]);
                }
            }
        }
    }
    proof {
        assert(all.take(all.len() as int) == all);
    }
    result
}

/// A key that no item has gathers no items.
pub proof fn lemma_absent_key<T>(items: Seq<T>, keys: Seq<u64>, key: u64)
    requires
        !keys.contains(key),
    ensures
        items_with_key(items, keys, key).len() == 0,
    decreases items.len(),
{
    if items.len() > 0 && keys.len() == items.len() {
        let fewer = keys.drop_last();
        assert(keys[keys.len() - 1] != key);
        assert(!fewer.contains(key)) by {
            if fewer.contains(key) {
                let i = choose|i: int| 0 <= i < fewer.len() && fewer[i] == key;
                assert(keys[i] == key);
            }
        }
        lemma_absent_key(items.drop_last(), fewer, key);
    }
}

} // verus!
