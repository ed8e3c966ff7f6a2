//! The pairing generator: a uniformly random permutation of the roster's ids
//! is read cyclically as consecutive (asker, responder) pairs, so every id
//! appears exactly once as an asker and exactly once as a responder, and no
//! id is paired with itself once the roster has more than one player.

use vstd::prelude::*;

use rand::seq::SliceRandom;

use crate::game::Game;
use crate::game::id_seq;

verus! {

/// The (asker, responder) pairs read off a permutation cyclically: the asker
/// for the first element is the last element, and thereafter each element is
/// the asker for its successor.
pub open spec fn rotation_of(order: Seq<u8>) -> Seq<(u8, u8)> {
    Seq::new(
        order.len(),
        |i: int|
            (
                if i == 0 {
                    order[order.len() - 1]
                } else {
                    order[i - 1]
                },
                order[i],
            ),
    )
}

/// The askers of a pairing, in pair order.
pub open spec fn askers_of(pairs: Seq<(u8, u8)>) -> Seq<u8> {
    pairs.map_values(|p: (u8, u8)| p.0)
}

/// The responders of a pairing, in pair order.
pub open spec fn responders_of(pairs: Seq<(u8, u8)>) -> Seq<u8> {
    pairs.map_values(|p: (u8, u8)| p.1)
}

/// Relies on rand's `SliceRandom::shuffle` (a Fisher-Yates shuffle that only
/// swaps elements of the slice in place): afterwards the vector holds exactly
/// the elements it held before, rearranged.
#[verifier::external_body]
pub(crate) fn shuffle_ids(v: &mut Vec<u8>)
    ensures
        final(v)@.len() == old(v)@.len(),
        final(v)@.to_multiset() == old(v)@.to_multiset(),
{
    v.shuffle(&mut rand::thread_rng());
}

/// A sequence with the same elements as `0, ..., n-1` (counted with
/// multiplicity) has length `n`, no duplicates, only values below `n`, and
/// every value below `n`.
pub proof fn lemma_same_multiset_as_ids(order: Seq<u8>, n: nat)
    requires
        n <= 255,
        order.to_multiset() == id_seq(n).to_multiset(),
    ensures
        order.len() == n,
        order.no_duplicates(),
        forall|i: int| 0 <= i < order.len() ==> order[i] < n,
        forall|v: u8| v < n ==> order.contains(v),
{
    assert(id_seq(n).len() == n);
    vstd::seq_lib::to_multiset_len(order);
    vstd::seq_lib::to_multiset_len(id_seq(n));
    assert(order.len() == n);
    assert(id_seq(n).no_duplicates());
    id_seq(n).lemma_multiset_has_no_duplicates();
    order.lemma_multiset_has_no_duplicates_conv();
    assert forall|i: int| 0 <= i < order.len() implies order[i] < n by {
        assert(order.contains(order[i]));
        vstd::seq_lib::to_multiset_contains(order, order[i]);
        vstd::seq_lib::to_multiset_contains(id_seq(n), order[i]);
        assert(id_seq(n).contains(order[i]));
        let j = choose|j: int| 0 <= j < n && id_seq(n)[j] == order[i];
        assert(order[i] == j as u8);
    }
    assert forall|v: u8| v < n implies order.contains(v) by {
        assert(id_seq(n)[v as int] == v);
        assert(id_seq(n).contains(v));
        vstd::seq_lib::to_multiset_contains(order, v);
        vstd::seq_lib::to_multiset_contains(id_seq(n), v);
    }
}

/// Law: the rotation built on a duplicate-free, non-empty permutation is a
/// pairing in which the responders are exactly the permutation, the askers
/// are the same ids each exactly once, and no element is paired with itself
/// when there is more than one.
pub proof fn lemma_rotation_is_pairing(order: Seq<u8>)
    requires
        order.len() >= 1,
        order.no_duplicates(),
    ensures
        responders_of(rotation_of(order)) == order,
        askers_of(rotation_of(order)).to_multiset() == order.to_multiset(),
        askers_of(rotation_of(order)).no_duplicates(),
        order.len() > 1 ==> forall|i: int|
            0 <= i < order.len() ==> #[trigger] rotation_of(order)[i].0 != rotation_of(
                order,
            )[i].1,
{
    broadcast use vstd::seq_lib::group_to_multiset_ensures;

    let rot = rotation_of(order);
    let len = order.len() as int;
    assert(responders_of(rot) =~= order);
    let askers = askers_of(rot);
    let front = order.take(len - 1);
    assert(askers =~= seq![order[len - 1]] + front);
    assert(order =~= front + seq![order[len - 1]]);
    vstd::seq_lib::lemma_multiset_commutative(seq![order[len - 1]], front);
    vstd::seq_lib::lemma_multiset_commutative(front, seq![order[len - 1]]);
    assert(askers.to_multiset() =~= order.to_multiset());
    order.lemma_multiset_has_no_duplicates();
    askers.lemma_multiset_has_no_duplicates_conv();
    if order.len() > 1 {
        assert forall|i: int| 0 <= i < order.len() implies #[trigger] rot[i].0 != rot[i].1 by {
            if i == 0 {
                assert(order[len - 1] != order[0]);
            } else {
                assert(order[i - 1] != order[i]);
            }
        }
    }
}

/// Build the (asker, responder) pairs from a given permutation of ids: the
/// last element asks the first, and each element asks its successor.
pub fn rotation_pairs(order: &Vec<u8>) -> (pairs: Vec<(u8, u8)>)
    requires
        order@.len() >= 1,
    ensures
        pairs@ == rotation_of(order@),
{
    let n = order.len();
    let mut pairs: Vec<(u8, u8)> = Vec::new();
    let mut asker: u8 = order[n - 1];
    for i in 0..n
        invariant
            n == order@.len(),
            n >= 1,
            pairs@.len() == i,
            forall|j: int| 0 <= j < i ==> pairs@[j] == rotation_of(order@)[j],
            asker == if i == 0 {
                order@[n - 1]
            } else {
                order@[i - 1]
            },
    {
        let responder = order[i];
        pairs.push((asker, responder));
        asker = responder;
    }
    proof {
        assert(pairs@ =~= rotation_of(order@));
    }
    pairs
}

impl Game {
    /// Draw a fresh random rotation for the current roster. Every id appears
    /// exactly once as an asker and exactly once as a responder; with more
    /// than one player, nobody is paired with themselves.
    pub fn generate_player_pairs(&self) -> (pairs: Vec<(u8, u8)>)
        requires
            self.wf(),
            self.n() >= 1,
        ensures
            pairs@.len() == self.n(),
            askers_of(pairs@).to_multiset() == id_seq(self.n()).to_multiset(),
            responders_of(pairs@).to_multiset() == id_seq(self.n()).to_multiset(),
            askers_of(pairs@).no_duplicates(),
            responders_of(pairs@).no_duplicates(),
            forall|i: int|
                0 <= i < pairs@.len() ==> (#[trigger] pairs@[i]).0 < self.n() && pairs@[i].1
                    < self.n(),
            self.n() > 1 ==> forall|i: int|
                0 <= i < pairs@.len() ==> (#[trigger] pairs@[i]).0 != pairs@[i].1,
    {
        let mut order = self.player_ids();
        shuffle_ids(&mut order);
        proof {
            lemma_same_multiset_as_ids(order@, self.n());
            lemma_rotation_is_pairing(order@);
        }
        let pairs = rotation_pairs(&order);
        proof {
            assert forall|i: int|
                0 <= i < pairs@.len() implies (#[trigger] pairs@[i]).0 < self.n() && pairs@[i].1
                < self.n() by {
                assert(askers_of(pairs@)[i] == pairs@[i].0);
                assert(responders_of(pairs@)[i] == pairs@[i].1);
                lemma_same_multiset_as_ids(askers_of(pairs@), self.n());
                lemma_same_multiset_as_ids(responders_of(pairs@), self.n());
            }
        }
        pairs
    }
}

} // verus!
