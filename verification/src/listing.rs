//! The order of names, and the clients in that order.

use vstd::prelude::*;
use vstd::string::StringSliceAdditionalSpecFns;
use vstd::utf8::encode_utf8;
use crate::types::Client;

verus! {

/// The order of byte strings: by the first byte in which they differ, a
/// proper prefix before what it is a prefix of.
pub open spec fn bytes_before(a: Seq<u8>, b: Seq<u8>) -> bool
    decreases a.len(),
{
    if b.len() == 0 {
        false
    } else if a.len() == 0 {
        true
    } else if a[0] != b[0] {
        a[0] < b[0]
    } else {
        bytes_before(a.drop_first(), b.drop_first())
    }
}

/// The order of names: that of their UTF-8 encodings.
pub open spec fn name_before(a: Seq<char>, b: Seq<char>) -> bool {
    bytes_before(encode_utf8(a), encode_utf8(b))
}

/// No byte string comes before itself, and the order is transitive.
pub proof fn lemma_bytes_order(a: Seq<u8>, b: Seq<u8>, c: Seq<u8>)
    ensures
        !bytes_before(a, a),
        bytes_before(a, b) ==> !bytes_before(b, a),
        bytes_before(a, b) && bytes_before(b, c) ==> bytes_before(a, c),
        !bytes_before(b, a) && !bytes_before(c, b) ==> !bytes_before(c, a),
    decreases a.len() + b.len() + c.len(),
{
    if a.len() > 0 && b.len() > 0 && c.len() > 0 {
        lemma_bytes_order(a.drop_first(), b.drop_first(), c.drop_first());
    } else if a.len() > 0 && b.len() > 0 {
        lemma_bytes_order(a.drop_first(), b.drop_first(), c);
    } else if a.len() > 0 {
        lemma_bytes_order(a.drop_first(), b, c);
    }
}

/// Whether the name `a` comes before the name `b`.
pub fn comes_before(a: &str, b: &str) -> (result: bool)
    ensures
        result == name_before(a@, b@),
{
    let left = a.as_bytes();
    let right = b.as_bytes();
    let mut at: usize = 0;
    proof {
        assert(left@.skip(0) == left@);
        assert(right@.skip(0) == right@);
    }
    while at < left.len() && at < right.len() && left[at] == right[at]
        invariant
            at <= left.len(),
            at <= right.len(),
            bytes_before(left@, right@) == bytes_before(
                left@.skip(at as int),
                right@.skip(at as int),
            ),
        decreases left.len() - at,
    {
        proof {
            assert(left@.skip(at as int).drop_first() == left@.skip(at + 1));
            assert(right@.skip(at as int).drop_first() == right@.skip(at + 1));
        }
        at += 1;
    }
    if at >= right.len() {
        false
    } else if at >= left.len() {
        true
    } else {
        left[at] < right[at]
    }
}

/// The place of a client named `name` among `sorted`: behind every client
/// whose name does not come after `name`.
pub open spec fn place_of(sorted: Seq<Client>, name: Seq<char>) -> int
    decreases sorted.len(),
{
    if sorted.len() == 0 || name_before(name, sorted[0].name@) {
        0
    } else {
        1 + place_of(sorted.drop_first(), name)
    }
}

/// The clients in the order of their names; clients of one name keep their order.
pub open spec fn sorted_by_name(clients: Seq<Client>) -> Seq<Client>
    decreases clients.len(),
{
    if clients.len() == 0 {
        clients
    } else {
        let sorted = sorted_by_name(clients.drop_last());
        sorted.insert(place_of(sorted, clients.last().name@), clients.last())
    }
}

/// Whether no client of `clients` stands behind one whose name comes after its own.
pub open spec fn is_ordered(clients: Seq<Client>) -> bool {
    forall|i: int, j: int|
        0 <= i < j < clients.len() ==> !name_before(
            #[trigger] clients[j].name@,
            #[trigger] clients[i].name@,
        )
}

/// The place lies within the sequence.
pub proof fn lemma_place_of(sorted: Seq<Client>, name: Seq<char>)
    ensures
        0 <= place_of(sorted, name) <= sorted.len(),
        forall|i: int|
            0 <= i < place_of(sorted, name) ==> !name_before(name, #[trigger] sorted[i].name@),
        place_of(sorted, name) < sorted.len() ==> name_before(
            name,
            sorted[place_of(sorted, name)].name@,
        ),
    decreases sorted.len(),
{
    if !(sorted.len() == 0 || name_before(name, sorted[0].name@)) {
        let tail = sorted.drop_first();
        lemma_place_of(tail, name);
        assert forall|i: int| 0 <= i < place_of(sorted, name) implies !name_before(
            name,
            #[trigger] sorted[i].name@,
        ) by {
            if i > 0 {
                assert(sorted[i] == tail[i - 1]);
            }
        }
        let p = place_of(tail, name);
        if p < tail.len() {
            assert(sorted[p + 1] == tail[p]);
        }
    }
}

/// Sorting orders the clients by name and neither adds nor loses one.
pub proof fn law_sorting_orders_and_keeps(clients: Seq<Client>)
    ensures
        is_ordered(sorted_by_name(clients)),
        sorted_by_name(clients).to_multiset() == clients.to_multiset(),
        sorted_by_name(clients).len() == clients.len(),
    decreases clients.len(),
{
    broadcast use vstd::seq_lib::group_to_multiset_ensures;

    if clients.len() > 0 {
        let init = clients.drop_last();
        let last = clients.last();
        let sorted = sorted_by_name(init);
        law_sorting_orders_and_keeps(init);
        lemma_place_of(sorted, last.name@);
        let p = place_of(sorted, last.name@);
        let result = sorted.insert(p, last);
        assert(init.push(last) == clients);
        assert forall|i: int, j: int| 0 <= i < j < result.len() implies !name_before(
            #[trigger] result[j].name@,
            #[trigger] result[i].name@,
        ) by {
            let bi = if i < p { i } else { i - 1 };
            let bj = if j < p { j } else { j - 1 };
            if i == p {
                assert(result[j] == sorted[bj]);
                if p < sorted.len() {
                    assert(!name_before(sorted[bj].name@, sorted[p].name@) || bj == p);
                    lemma_bytes_order(
                        encode_utf8(last.name@),
                        encode_utf8(sorted[p].name@),
                        encode_utf8(sorted[bj].name@),
                    );
                    lemma_bytes_order(
                        encode_utf8(sorted[bj].name@),
                        encode_utf8(last.name@),
                        encode_utf8(sorted[p].name@),
                    );
                }
            } else if j == p {
                assert(result[i] == sorted[bi]);
            } else {
                assert(result[i] == sorted[bi]);
                assert(result[j] == sorted[bj]);
            }
        }
    }
}

/// Puts the clients in the order of their names; clients of one name keep their order.
pub fn sort_clients(clients: Vec<Client>) -> (sorted: Vec<Client>)
    ensures
        sorted@ == sorted_by_name(clients@),
{
    let ghost all = clients@;
    let mut sorted: Vec<Client> = Vec::new();
    for client in it: clients
        invariant
            it.seq() == all,
            sorted@ == sorted_by_name(all.take(it.index() as int)),
    {
        let ghost done = it.index() as int;
        let ghost before = sorted@;
        let mut at: usize = 0;
        proof {
            assert(before.skip(0) == before);
            assert(all.take(done + 1).drop_last() == all.take(done));
        }
        while at < sorted.len() && !comes_before(client.name.as_str(), sorted[at].name.as_str())
            invariant
                at <= sorted.len(),
                sorted@ == before,
                place_of(before, client.name@) == at + place_of(
                    before.skip(at as int),
                    client.name@,
                ),
            decreases sorted.len() - at,
        {
            proof {
                assert(before.skip(at as int).drop_first() == before.skip(at + 1));
            }
            at += 1;
        }
        sorted.insert(at, client);
    }
    proof {
        assert(all.take(all.len() as int) == all);
    }
    sorted
}

} // verus!
