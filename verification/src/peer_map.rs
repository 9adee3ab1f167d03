use vstd::prelude::*;

use crate::block::{Block, BlockModel};
use crate::message::Addr;
use crate::ring::{first_index, lemma_first_index};

verus! {

/// The addresses of a list of entries, in order.
pub open spec fn entry_keys(s: Seq<(Addr, BlockModel)>) -> Seq<Addr> {
    s.map_values(|e: (Addr, BlockModel)| e.0)
}

/// The block that the first entry for `k` holds, if any.
pub open spec fn entry_get(s: Seq<(Addr, BlockModel)>, k: Addr) -> Option<BlockModel> {
    let i = first_index(entry_keys(s), k);
    if i < 0 {
        None
    } else {
        Some(s[i].1)
    }
}

/// The entries after putting `v` under `k`: the entry for `k` is replaced in
/// place, or a new entry goes at the end.
pub open spec fn entry_insert(s: Seq<(Addr, BlockModel)>, k: Addr, v: BlockModel) -> Seq<
    (Addr, BlockModel),
> {
    let i = first_index(entry_keys(s), k);
    if i < 0 {
        s.push((k, v))
    } else {
        s.update(i, (k, v))
    }
}

/// The abstract content of a list of entries.
pub open spec fn entries_view(v: Seq<(Addr, Block)>) -> Seq<(Addr, BlockModel)> {
    v.map_values(|e: (Addr, Block)| (e.0, e.1@))
}

/// Blocks kept by peer address, in the order in which the addresses were
/// first seen; at most one block per address.
pub struct PeerMap {
    entries: Vec<(Addr, Block)>,
}

impl View for PeerMap {
    type V = Seq<(Addr, BlockModel)>;

    closed spec fn view(&self) -> Seq<(Addr, BlockModel)> {
        entries_view(self.entries@)
    }
}

impl PeerMap {
    /// An empty map.
    pub fn new() -> (m: PeerMap)
        ensures
            m@ == Seq::<(Addr, BlockModel)>::empty(),
    {
        let m = PeerMap { entries: Vec::new() };
        assert(m@ =~= Seq::<(Addr, BlockModel)>::empty());
        m
    }

    /// The number of entries.
    pub fn len(&self) -> (n: usize)
        ensures
            n == self@.len(),
    {
        self.entries.len()
    }

    /// The position of the entry for `k`, if any.
    pub fn find(&self, k: Addr) -> (r: Option<usize>)
        ensures
            r is None <==> first_index(entry_keys(self@), k) < 0,
            r matches Some(i) ==> i == first_index(entry_keys(self@), k) && i < self@.len(),
    {
        proof { lemma_first_index(entry_keys(self@), k); }
        let mut i: usize = 0;
        while i < self.entries.len()
            invariant
                i <= self.entries.len(),
                self@.len() == self.entries.len(),
                forall|j: int| 0 <= j < i ==> entry_keys(self@)[j] != k,
                -1 <= first_index(entry_keys(self@), k) < self@.len(),
                first_index(entry_keys(self@), k) == -1 <==> !entry_keys(self@).contains(k),
                first_index(entry_keys(self@), k) >= 0 ==> entry_keys(self@)[first_index(
                    entry_keys(self@),
                    k,
                )] == k,
                forall|j: int|
                    0 <= j < first_index(entry_keys(self@), k) ==> entry_keys(self@)[j] != k,
            decreases self.entries.len() - i,
        {
            if self.entries[i].0 == k {
                assert(entry_keys(self@)[i as int] == k);
                return Some(i);
            }
            assert(entry_keys(self@)[i as int] == self.entries@[i as int].0);
            i = i + 1;
        }
        proof {
            if entry_keys(self@).contains(k) {
                let j = choose|j: int| 0 <= j < entry_keys(self@).len() && entry_keys(self@)[j] == k;
                assert(false);
            }
        }
        None
    }

    /// The address of the entry at position `i`.
    pub fn key_at(&self, i: usize) -> (k: Addr)
        requires
            i < self@.len(),
        ensures
            k == self@[i as int].0,
    {
        self.entries[i].0
    }

    /// The block of the entry at position `i`.
    pub fn block_at(&self, i: usize) -> (b: &Block)
        requires
            i < self@.len(),
        ensures
            b@ == self@[i as int].1,
    {
        &self.entries[i].1
    }

    /// The block kept for `k`, if any.
    pub fn get(&self, k: Addr) -> (r: Option<&Block>)
        ensures
            match r {
                Some(b) => entry_get(self@, k) == Some(b@),
                None => entry_get(self@, k) is None,
            },
    {
        match self.find(k) {
            Some(i) => Some(&self.entries[i].1),
            None => None,
        }
    }

    /// Keeps `b` for `k`, in place of the block kept for `k` before.
    pub fn insert(&mut self, k: Addr, b: Block)
        ensures
            final(self)@ == entry_insert(old(self)@, k, b@),
    {
        match self.find(k) {
            Some(i) => {
                self.entries.set(i, (k, b));
                assert(self@ =~= entry_insert(old(self)@, k, b@));
            },
            None => {
                self.entries.push((k, b));
                assert(self@ =~= entry_insert(old(self)@, k, b@));
            },
        }
    }

    /// Replaces the block of the entry at position `i`.
    pub fn set_block(&mut self, i: usize, b: Block)
        requires
            i < old(self)@.len(),
        ensures
            final(self)@ == old(self)@.update(i as int, (old(self)@[i as int].0, b@)),
    {
        let k = self.entries[i].0;
        self.entries.set(i, (k, b));
        assert(self@ =~= old(self)@.update(i as int, (old(self)@[i as int].0, b@)));
    }

    /// Removes every entry.
    pub fn clear(&mut self)
        ensures
            final(self)@ == Seq::<(Addr, BlockModel)>::empty(),
    {
        self.entries = Vec::new();
        assert(self@ =~= Seq::<(Addr, BlockModel)>::empty());
    }

    /// Removes every entry and hands them out, in order.
    pub fn drain(&mut self) -> (items: Vec<(Addr, Block)>)
        ensures
            entries_view(items@) == old(self)@,
            final(self)@ == Seq::<(Addr, BlockModel)>::empty(),
    {
        let mut items: Vec<(Addr, Block)> = Vec::new();
        std::mem::swap(&mut items, &mut self.entries);
        assert(self@ =~= Seq::<(Addr, BlockModel)>::empty());
        items
    }
}

/// After putting `v` under `k`, the block kept for `k` is `v`, and the
/// blocks kept for the other addresses are unchanged.
pub proof fn lemma_entry_insert_get(s: Seq<(Addr, BlockModel)>, k: Addr, v: BlockModel)
    ensures
        entry_get(entry_insert(s, k, v), k) == Some(v),
        forall|k2: Addr| k2 != k ==> entry_get(entry_insert(s, k, v), k2) == entry_get(s, k2),
{
    let ks = entry_keys(s);
    let t = entry_insert(s, k, v);
    let kt = entry_keys(t);
    lemma_first_index(ks, k);
    lemma_first_index(kt, k);
    let i = first_index(ks, k);
    if i < 0 {
        assert(kt =~= ks.push(k));
    } else {
        assert(kt =~= ks.update(i, k));
    }
    if i < 0 {
        assert(kt[ks.len() as int] == k);
        assert(kt.contains(k));
        let f = first_index(kt, k);
        if f < ks.len() {
            assert(ks[f] == k);
            assert(ks.contains(k));
        }
        assert(f == ks.len());
        assert(t[f].1 == v);
    } else {
        assert(kt[i] == k);
        assert(kt.contains(k));
        let f = first_index(kt, k);
        if f < i {
            assert(ks[f] == k);
        }
        assert(f == i);
        assert(t[f].1 == v);
    }
    assert forall|k2: Addr| k2 != k implies entry_get(t, k2) == entry_get(s, k2) by {
        lemma_first_index(ks, k2);
        lemma_first_index(kt, k2);
        let a = first_index(ks, k2);
        let c = first_index(kt, k2);
        if a >= 0 {
            assert(kt[a] == k2);
            assert(c >= 0);
            if c < a {
                assert(ks[c] == k2);
            }
            assert(c == a);
        } else {
            if c >= 0 {
                assert(ks[c] == k2);
                assert(ks.contains(k2));
            }
        }
    }
}

} // verus!
