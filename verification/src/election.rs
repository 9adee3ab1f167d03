use rand::seq::SliceRandom;
use rand::SeedableRng;
use vstd::prelude::*;

use crate::block::Seed;
use crate::message::Addr;

verus! {

/// The peer that a generator seeded with `seed` picks among `peers`.
pub uninterp spec fn seeded_choice(seed: Seq<u8>, peers: Seq<Addr>) -> Option<Addr>;

/// Picks a peer with `rand::seq::SliceRandom::choose`, drawing from a
/// `rand::rngs::StdRng` made by `SeedableRng::from_seed` from the seed.
/// Trusted: the generator is deterministic, so the pick is a function of the
/// seed and of the list, named `seeded_choice`; `choose` gives `None` exactly
/// for an empty list and otherwise one of its elements. Which element is not
/// stated.
#[verifier::external_body]
pub(crate) fn choose_leader(seed: &Seed, peers: &Vec<Addr>) -> (r: Option<Addr>)
    ensures
        r == seeded_choice(seed@, peers@),
        r is None <==> peers@.len() == 0,
        r matches Some(a) ==> peers@.contains(a),
{
    let mut rng = rand::rngs::StdRng::from_seed(seed.0);
    peers.as_slice().choose(&mut rng).copied()
}

/// `targets` are the elements of `peers` at the positions `idx`, and no
/// position occurs twice.
pub open spec fn picked_at(peers: Seq<Addr>, targets: Seq<Addr>, idx: Seq<int>) -> bool {
    &&& idx.len() == targets.len()
    &&& idx.no_duplicates()
    &&& forall|i: int| 0 <= i < idx.len() ==> 0 <= #[trigger] idx[i] < peers.len()
    &&& forall|i: int| 0 <= i < idx.len() ==> #[trigger] targets[i] == peers[idx[i]]
}

/// Picks up to `amount` distinct positions of `peers` at random with
/// `rand::seq::SliceRandom::choose_multiple`, drawing from
/// `rand::thread_rng()`, and hands out the peers at those positions.
/// Trusted: there are as many as `amount` allows, each the peer at one
/// position of `peers`, and no position is picked twice; which ones, and in what order, depends on
/// chance and is not stated.
#[verifier::external_body]
pub(crate) fn random_peers(peers: &Vec<Addr>, amount: usize) -> (r: Vec<Addr>)
    ensures
        r@.len() == (if amount < peers@.len() { amount as nat } else { peers@.len() }),
        exists|idx: Seq<int>| picked_at(peers@, r@, idx),
{
    let mut rng = rand::thread_rng();
    peers.as_slice().choose_multiple(&mut rng, amount).copied().collect()
}

} // verus!
