use vstd::prelude::*;

use crate::message::Addr;

verus! {

/// The position of the first occurrence of `x` in `s`, or -1 when `x` does
/// not occur.
pub open spec fn first_index<T>(s: Seq<T>, x: T) -> int
    decreases s.len(),
{
    if s.len() == 0 {
        -1
    } else if s[0] == x {
        0
    } else {
        let r = first_index(s.drop_first(), x);
        if r < 0 {
            -1
        } else {
            r + 1
        }
    }
}

/// `first_index` is the smallest position that holds `x`, or -1 when none does.
pub proof fn lemma_first_index<T>(s: Seq<T>, x: T)
    ensures
        -1 <= first_index(s, x) < s.len(),
        first_index(s, x) == -1 <==> !s.contains(x),
        first_index(s, x) >= 0 ==> s[first_index(s, x)] == x,
        forall|j: int| 0 <= j < first_index(s, x) ==> s[j] != x,
        first_index(s, x) == -1 ==> forall|j: int| 0 <= j < s.len() ==> s[j] != x,
    decreases s.len(),
{
    if s.len() > 0 {
        lemma_first_index(s.drop_first(), x);
        if s[0] != x {
            if first_index(s.drop_first(), x) == -1 {
                assert forall|j: int| 0 <= j < s.len() implies s[j] != x by {
                    if j > 0 {
                        assert(s[j] == s.drop_first()[j - 1]);
                    }
                }
            } else {
                let r = first_index(s.drop_first(), x);
                assert(s[r + 1] == s.drop_first()[r]);
                assert forall|j: int| 0 <= j < r + 1 implies s[j] != x by {
                    if j > 0 {
                        assert(s[j] == s.drop_first()[j - 1]);
                    }
                }
            }
        } else {
            assert(s.contains(x));
        }
    }
}

/// In a list without repetition, the position of the element at `i` is `i`.
pub proof fn lemma_first_index_distinct<T>(s: Seq<T>, i: int)
    requires
        s.no_duplicates(),
        0 <= i < s.len(),
    ensures
        first_index(s, s[i]) == i,
{
    lemma_first_index(s, s[i]);
    assert(s.contains(s[i]));
}

/// The position of the first occurrence of `a` in `peers`.
pub fn position(peers: &Vec<Addr>, a: Addr) -> (r: Option<usize>)
    ensures
        r is None <==> !peers@.contains(a),
        r matches Some(i) ==> i == first_index(peers@, a),
{
    proof { lemma_first_index(peers@, a); }
    let mut i: usize = 0;
    while i < peers.len()
        invariant
            i <= peers.len(),
            forall|j: int| 0 <= j < i ==> peers@[j] != a,
            -1 <= first_index(peers@, a) < peers@.len(),
            first_index(peers@, a) == -1 <==> !peers@.contains(a),
            first_index(peers@, a) >= 0 ==> peers@[first_index(peers@, a)] == a,
            forall|j: int| 0 <= j < first_index(peers@, a) ==> peers@[j] != a,
        decreases peers.len() - i,
    {
        if peers[i] == a {
            return Some(i);
        }
        i = i + 1;
    }
    None
}

/// The peer that follows `a` in the ring of `peers`: the next one in the
/// list after the first occurrence of `a`, the first one after the last.
pub open spec fn ring_next(peers: Seq<Addr>, a: Addr) -> Addr {
    peers[(first_index(peers, a) + 1) % (peers.len() as int)]
}

/// The peer reached from `a` after `k` steps around the ring.
pub open spec fn ring_walk(peers: Seq<Addr>, a: Addr, k: nat) -> Addr
    decreases k,
{
    if k == 0 {
        a
    } else {
        ring_next(peers, ring_walk(peers, a, (k - 1) as nat))
    }
}

/// Around a ring of distinct peers, `k` steps from the peer at position `i`
/// lead to the peer at position `(i + k) mod n`: an event passed on from
/// peer to peer visits every peer once and comes back to its sender after
/// exactly `n` steps.
pub proof fn lemma_ring_walk(peers: Seq<Addr>, i: int, k: nat)
    requires
        peers.no_duplicates(),
        0 <= i < peers.len(),
    ensures
        ring_walk(peers, peers[i], k) == peers[(i + k) % (peers.len() as int)],
    decreases k,
{
    let n = peers.len() as int;
    if k > 0 {
        lemma_ring_walk(peers, i, (k - 1) as nat);
        let j = (i + k - 1) % n;
        assert(0 <= j < n);
        lemma_first_index_distinct(peers, j);
        assert((j + 1) % n == (i + k) % n) by {
            vstd::arithmetic::div_mod::lemma_add_mod_noop(i + k - 1, 1, n);
            vstd::arithmetic::div_mod::lemma_add_mod_noop_right(j, 1, n);
        }
    } else {
        vstd::arithmetic::div_mod::lemma_small_mod(i as nat, n as nat);
    }
}

/// Passing an event on around a ring of distinct peers brings it back to its
/// sender after as many steps as there are peers, and not before.
pub proof fn lemma_ring_round_trip(peers: Seq<Addr>, a: Addr, k: nat)
    requires
        peers.no_duplicates(),
        peers.contains(a),
        0 < k <= peers.len(),
    ensures
        (ring_walk(peers, a, k) == a) <==> k == peers.len(),
{
    let n = peers.len() as int;
    lemma_first_index(peers, a);
    let i = first_index(peers, a);
    lemma_ring_walk(peers, i, k);
    if k == n {
        assert((i + k) % n == i) by {
            vstd::arithmetic::div_mod::lemma_mod_add_multiples_vanish(i, n);
            vstd::arithmetic::div_mod::lemma_small_mod(i as nat, n as nat);
        }
    } else {
        let j = (i + k) % n;
        assert(j != i) by {
            if i + k < n {
                vstd::arithmetic::div_mod::lemma_small_mod((i + k) as nat, n as nat);
            } else {
                vstd::arithmetic::div_mod::lemma_mod_add_multiples_vanish(i + k - n, n);
                vstd::arithmetic::div_mod::lemma_small_mod((i + k - n) as nat, n as nat);
            }
        }
        assert(0 <= j < n);
        assert(peers[j] != peers[i]);
    }
}

} // verus!
