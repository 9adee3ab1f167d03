use vstd::prelude::*;
use vstd::string::StringExecFns;

use crate::digest::{sha256, sha256_digest};

verus! {

/// The identifier of a block: the SHA-256 digest of its data and seed.
pub struct BlockID(pub [u8; 32]);

/// The seed of a block: the SHA-256 digest of the previous block's seed.
pub struct Seed(pub [u8; 32]);

/// The abstract content of a block.
pub struct BlockModel {
    pub seed: Seq<u8>,
    pub data: Seq<u8>,
    pub acks: Set<usize>,
}

/// A block of the chain, with the set of peers (by their position in the
/// ring) that acknowledged it.
pub struct Block {
    seed: Seed,
    data: Vec<u8>,
    acks: Vec<usize>,
}

impl View for BlockID {
    type V = Seq<u8>;

    open spec fn view(&self) -> Seq<u8> {
        self.0@
    }
}

impl View for Seed {
    type V = Seq<u8>;

    open spec fn view(&self) -> Seq<u8> {
        self.0@
    }
}

impl View for Block {
    type V = BlockModel;

    closed spec fn view(&self) -> BlockModel {
        BlockModel { seed: self.seed.0@, data: self.data@, acks: self.acks@.to_set() }
    }
}

/// The seed of the first block of every chain: 32 zero bytes.
pub open spec fn genesis_seed() -> Seq<u8> {
    Seq::new(32, |i: int| 0u8)
}

/// The identifier of a block: the digest of its data followed by its seed.
/// Acknowledgements play no part in it.
pub open spec fn block_hash(b: BlockModel) -> Seq<u8> {
    sha256(b.data + b.seed)
}

/// The seed of the block that follows a block with seed `seed`.
pub open spec fn next_seed(seed: Seq<u8>) -> Seq<u8> {
    sha256(seed)
}

/// The block that `next` builds after a block with seed `seed`.
pub open spec fn next_block(seed: Seq<u8>, data: Seq<u8>) -> BlockModel {
    BlockModel { seed: next_seed(seed), data, acks: Set::empty() }
}

/// The lower-case hexadecimal digits.
pub open spec fn hex_digits() -> Seq<char> {
    seq!['0', '1', '2', '3', '4', '5', '6', '7', '8', '9', 'a', 'b', 'c', 'd', 'e', 'f']
}

/// Two lower-case hexadecimal digits for each byte.
pub open spec fn hex_of(bytes: Seq<u8>) -> Seq<char>
    decreases bytes.len(),
{
    if bytes.len() == 0 {
        Seq::empty()
    } else {
        seq![hex_digits()[(bytes[0] / 16) as int], hex_digits()[(bytes[0] % 16) as int]]
            + hex_of(bytes.drop_first())
    }
}

/// The number of leading bytes of an identifier that its short form shows.
pub const ID_SHORT_LEN: usize = 4;

/// The one-character string of the hexadecimal digit `n`.
fn hex_digit(n: u8) -> (s: &'static str)
    requires
        n < 16,
    ensures
        s@ == seq![hex_digits()[n as int]],
{
    match n {
        0 => { proof { reveal_strlit("0"); } "0" },
        1 => { proof { reveal_strlit("1"); } "1" },
        2 => { proof { reveal_strlit("2"); } "2" },
        3 => { proof { reveal_strlit("3"); } "3" },
        4 => { proof { reveal_strlit("4"); } "4" },
        5 => { proof { reveal_strlit("5"); } "5" },
        6 => { proof { reveal_strlit("6"); } "6" },
        7 => { proof { reveal_strlit("7"); } "7" },
        8 => { proof { reveal_strlit("8"); } "8" },
        9 => { proof { reveal_strlit("9"); } "9" },
        10 => { proof { reveal_strlit("a"); } "a" },
        11 => { proof { reveal_strlit("b"); } "b" },
        12 => { proof { reveal_strlit("c"); } "c" },
        13 => { proof { reveal_strlit("d"); } "d" },
        14 => { proof { reveal_strlit("e"); } "e" },
        _ => { proof { reveal_strlit("f"); } "f" },
    }
}

/// `a` followed by `b`.
fn concat_bytes(a: &[u8], b: &[u8]) -> (r: Vec<u8>)
    ensures
        r@ == a@ + b@,
{
    let mut r: Vec<u8> = Vec::new();
    let mut i: usize = 0;
    while i < a.len()
        invariant
            i <= a.len(),
            r@ == a@.subrange(0, i as int),
        decreases a.len() - i,
    {
        r.push(a[i]);
        i = i + 1;
    }
    let mut j: usize = 0;
    while j < b.len()
        invariant
            j <= b.len(),
            r@ == a@ + b@.subrange(0, j as int),
        decreases b.len() - j,
    {
        r.push(b[j]);
        j = j + 1;
    }
    assert(a@.subrange(0, a@.len() as int) == a@);
    assert(b@.subrange(0, b@.len() as int) == b@);
    r
}

/// A copy of a list of peer positions.
fn copy_indices(v: &Vec<usize>) -> (r: Vec<usize>)
    ensures
        r@ == v@,
{
    let mut r: Vec<usize> = Vec::new();
    let mut i: usize = 0;
    while i < v.len()
        invariant
            i <= v.len(),
            r@ == v@.subrange(0, i as int),
        decreases v.len() - i,
    {
        r.push(v[i]);
        i = i + 1;
    }
    assert(v@.subrange(0, v@.len() as int) == v@);
    r
}

/// Whether two 32-byte arrays hold the same bytes.
fn same_bytes(a: &[u8; 32], b: &[u8; 32]) -> (r: bool)
    ensures
        r == (a@ == b@),
{
    let mut i: usize = 0;
    while i < 32
        invariant
            i <= 32,
            a@.len() == 32,
            b@.len() == 32,
            forall|k: int| 0 <= k < i ==> a@[k] == b@[k],
        decreases 32 - i,
    {
        if a[i] != b[i] {
            return false;
        }
        i = i + 1;
    }
    assert(a@ =~= b@);
    true
}

impl BlockID {
    /// The short form of the identifier: its first four bytes in lower-case
    /// hexadecimal.
    pub fn to_string(&self) -> (s: String)
        ensures
            s@ == hex_of(self@.subrange(0, ID_SHORT_LEN as int)),
    {
        let mut s = String::new();
        let mut i: usize = 0;
        while i < ID_SHORT_LEN
            invariant
                i <= ID_SHORT_LEN,
                self@.len() == 32,
                s@ == hex_of(self@.subrange(0, i as int)),
            decreases ID_SHORT_LEN - i,
        {
            let byte: u8 = self.0[i];
            s.append(hex_digit(byte / 16));
            s.append(hex_digit(byte % 16));
            proof {
                lemma_hex_of_push(self@.subrange(0, i as int), byte);
                assert(self@.subrange(0, i as int).push(byte) =~= self@.subrange(0, i + 1));
            }
            i = i + 1;
        }
        s
    }
}

/// Appending a byte appends its two digits.
proof fn lemma_hex_of_push(bytes: Seq<u8>, b: u8)
    ensures
        hex_of(bytes.push(b)) == hex_of(bytes) + seq![
            hex_digits()[(b / 16) as int],
            hex_digits()[(b % 16) as int],
        ],
    decreases bytes.len(),
{
    if bytes.len() == 0 {
        assert(bytes.push(b).drop_first() =~= Seq::<u8>::empty());
        assert(hex_of(Seq::<u8>::empty()) =~= Seq::<char>::empty());
        assert(hex_of(bytes) =~= Seq::<char>::empty());
    } else {
        lemma_hex_of_push(bytes.drop_first(), b);
        assert(bytes.push(b).drop_first() =~= bytes.drop_first().push(b));
    }
}

impl PartialEq for BlockID {
    fn eq(&self, other: &Self) -> (r: bool) {
        same_bytes(&self.0, &other.0)
    }
}

impl vstd::std_specs::cmp::PartialEqSpecImpl for BlockID {
    open spec fn obeys_eq_spec() -> bool {
        true
    }

    open spec fn eq_spec(&self, other: &BlockID) -> bool {
        self@ == other@
    }
}

impl PartialEq for Seed {
    fn eq(&self, other: &Self) -> (r: bool) {
        same_bytes(&self.0, &other.0)
    }
}

impl vstd::std_specs::cmp::PartialEqSpecImpl for Seed {
    open spec fn obeys_eq_spec() -> bool {
        true
    }

    open spec fn eq_spec(&self, other: &Seed) -> bool {
        self@ == other@
    }
}

impl Clone for BlockID {
    fn clone(&self) -> (r: Self)
        ensures
            r@ == self@,
    {
        BlockID(self.0)
    }
}

impl Clone for Seed {
    fn clone(&self) -> (r: Self)
        ensures
            r@ == self@,
    {
        Seed(self.0)
    }
}

impl Block {
    #[verifier::type_invariant]
    spec fn acks_distinct(self) -> bool {
        self.acks@.no_duplicates()
    }

    /// The first block of every chain.
    pub open spec fn genesis_model() -> BlockModel {
        BlockModel { seed: genesis_seed(), data: Seq::empty(), acks: Set::empty() }
    }

    /// A first block: a zero seed, the given data, no acknowledgement.
    pub fn new(data: Vec<u8>) -> (b: Block)
        ensures
            b@.seed == genesis_seed(),
            b@.data == data@,
            b@.acks == Set::<usize>::empty(),
    {
        let b = Block { seed: Seed([0u8; 32]), data, acks: Vec::new() };
        proof {
            assert(b.seed.0@ =~= genesis_seed());
            assert(b.acks@.to_set() =~= Set::<usize>::empty());
        }
        b
    }

    /// A block built from its parts; an acknowledgement listed twice counts
    /// once.
    pub fn from_parts(seed: Seed, data: Vec<u8>, acks: Vec<usize>) -> (b: Block)
        ensures
            b@.seed == seed@,
            b@.data == data@,
            b@.acks == acks@.to_set(),
    {
        let mut b = Block { seed, data, acks: Vec::new() };
        proof {
            assert(b.acks@.to_set() =~= Set::<usize>::empty());
        }
        let mut i: usize = 0;
        while i < acks.len()
            invariant
                i <= acks.len(),
                b@.seed == seed@,
                b@.data == data@,
                b@.acks == acks@.subrange(0, i as int).to_set(),
            decreases acks.len() - i,
        {
            b.incr_ack(acks[i]);
            assert(acks@.subrange(0, i + 1) =~= acks@.subrange(0, i as int).push(acks@[i as int]));
            proof {
                acks@.subrange(0, i as int).lemma_push_to_set_commute(acks@[i as int]);
            }
            i = i + 1;
        }
        assert(acks@.subrange(0, acks@.len() as int) == acks@);
        b
    }

    /// Every block is accepted as valid.
    pub fn verify(&self) -> (ok: bool)
        ensures
            ok,
    {
        true
    }

    /// The seed of the block.
    pub fn get_seed(&self) -> (s: &Seed)
        ensures
            s@ == self@.seed,
    {
        &self.seed
    }

    /// The data of the block.
    pub fn get_data(&self) -> (d: &Vec<u8>)
        ensures
            d@ == self@.data,
    {
        &self.data
    }

    /// The positions of the peers that acknowledged the block, each once.
    pub fn get_acks(&self) -> (a: Vec<usize>)
        ensures
            a@.to_set() == self@.acks,
            a@.no_duplicates(),
    {
        proof { use_type_invariant(self); }
        copy_indices(&self.acks)
    }

    /// The identifier of the block: SHA-256 of its data followed by its seed.
    pub fn hash(&self) -> (id: BlockID)
        ensures
            id@ == block_hash(self@),
    {
        let buf = concat_bytes(self.data.as_slice(), &self.seed.0);
        BlockID(sha256_digest(buf.as_slice()))
    }

    /// The block that follows this one: its seed is the digest of this
    /// block's seed, it holds `data` and no acknowledgement.
    pub fn next(&self, data: Vec<u8>) -> (b: Block)
        ensures
            b@ == next_block(self@.seed, data@),
    {
        let seed = Seed(sha256_digest(&self.seed.0));
        let b = Block { seed, data, acks: Vec::new() };
        proof {
            assert(b.acks@.to_set() =~= Set::<usize>::empty());
        }
        b
    }

    /// Records the acknowledgement of the peer at position `index`.
    pub fn incr_ack(&mut self, index: usize)
        ensures
            final(self)@ == (BlockModel { acks: old(self)@.acks.insert(index), ..old(self)@ }),
    {
        proof { use_type_invariant(&*self); }
        let mut i: usize = 0;
        while i < self.acks.len()
            invariant
                i <= self.acks.len(),
                forall|k: int| 0 <= k < i ==> self.acks@[k] != index,
            decreases self.acks.len() - i,
        {
            if self.acks[i] == index {
                proof {
                    assert(self.acks@.to_set().contains(index));
                    assert(self.acks@.to_set().insert(index) =~= self.acks@.to_set());
                }
                return;
            }
            i = i + 1;
        }
        let ghost before = self.acks@;
        let mut acks = copy_indices(&self.acks);
        acks.push(index);
        proof {
            before.lemma_push_to_set_commute(index);
        }
        self.acks = acks;
    }

    /// The number of distinct peers that acknowledged the block.
    pub fn get_ack(&self) -> (n: usize)
        ensures
            n == self@.acks.len(),
    {
        proof {
            use_type_invariant(self);
            self.acks@.unique_seq_to_set();
        }
        self.acks.len()
    }
}

impl Clone for Block {
    fn clone(&self) -> (r: Self)
        ensures
            r@ == self@,
    {
        proof { use_type_invariant(self); }
        let data = concat_bytes(self.data.as_slice(), &[]);
        let acks = copy_indices(&self.acks);
        assert(data@ =~= self.data@);
        Block { seed: Seed(self.seed.0), data, acks }
    }
}

} // verus!
