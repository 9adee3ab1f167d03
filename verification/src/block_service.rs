use vstd::prelude::*;

use crate::block::{block_hash, next_block, next_seed, Block, BlockID, BlockModel};
use crate::context::{net_announce, net_propagate, net_send, Context, Net};
use crate::election::{choose_leader, seeded_choice};
use crate::message::{Addr, Event, EventModel};
use crate::peer_map::{entries_view, entry_get, entry_insert, PeerMap};
use crate::ring::{first_index, lemma_first_index, position};

verus! {

/// The state of the block service of a peer: the data of every request it
/// received, the blocks proposed for the current round (by proposer), the
/// blocks proposed for a later round, and the chain of validated blocks.
#[verifier::ext_equal]
pub struct ServiceModel {
    pub buffer: Seq<u8>,
    pub queue: Seq<(Addr, BlockModel)>,
    pub future_queue: Seq<(Addr, BlockModel)>,
    pub blocks: Seq<BlockModel>,
}

/// Whether the chain holds a block with identifier `id`.
pub open spec fn chain_has(blocks: Seq<BlockModel>, id: Seq<u8>) -> bool {
    exists|i: int| 0 <= i < blocks.len() && block_hash(blocks[i]) == id
}

/// The leader of the current round: the peer picked with the seed of the
/// last block of the chain.
pub open spec fn leader_of(s: ServiceModel, peers: Seq<Addr>) -> Option<Addr> {
    seeded_choice(s.blocks.last().seed, peers)
}

/// Handling a proposal of `b` by `proposer`. A block that does not follow
/// the last block of the chain is kept for a later round; a proposal of this
/// peer's own that came back around the ring is dropped; any other proposal
/// is kept for the round, passed on to the next peer and acknowledged to the
/// proposer.
pub open spec fn propose_step(s: ServiceModel, n: Net, b: BlockModel, proposer: Addr) -> (
    ServiceModel,
    Net,
) {
    if b.seed != next_seed(s.blocks.last().seed) {
        (ServiceModel { future_queue: entry_insert(s.future_queue, proposer, b), ..s }, n)
    } else if proposer == n.addr {
        (s, n)
    } else {
        (
            ServiceModel { queue: entry_insert(s.queue, proposer, b), ..s },
            net_send(
                net_propagate(n, EventModel::ProposeBlock(b, proposer)),
                EventModel::AckBlock(block_hash(b)),
                proposer,
            ),
        )
    }
}

/// Handling the acknowledgement of block `id` by peer `from`. Only the
/// block that this peer proposed counts it; once every peer of the ring has
/// acknowledged it, its validation is passed on to the next peer.
pub open spec fn ack_step(s: ServiceModel, n: Net, id: Seq<u8>, from: Addr) -> (ServiceModel, Net) {
    let i = first_index(crate::peer_map::entry_keys(s.queue), n.addr);
    if i >= 0 && block_hash(s.queue[i].1) == id {
        let b = s.queue[i].1;
        let acked = BlockModel {
            acks: b.acks.insert(first_index(n.peers, from) as usize),
            ..b
        };
        let s2 = ServiceModel { queue: s.queue.update(i, (n.addr, acked)), ..s };
        if acked.acks.len() == n.peers.len() {
            (s2, net_propagate(n, EventModel::ValidateBlock(id)))
        } else {
            (s2, n)
        }
    } else {
        (s, n)
    }
}

/// Whether the acknowledgement of block `id` by `from` is the one that
/// completes the count of the block this peer proposed.
pub open spec fn ack_completes(s: ServiceModel, n: Net, id: Seq<u8>, from: Addr) -> bool {
    entry_get(s.queue, n.addr) matches Some(b) && block_hash(b) == id && b.acks.insert(
        first_index(n.peers, from) as usize,
    ).len() == n.peers.len()
}

/// Proposing a block with `data` after the last block of the chain: this
/// peer acknowledges it itself, keeps it for the round and passes the
/// proposal on to the next peer.
pub open spec fn create_step(s: ServiceModel, n: Net, data: Seq<u8>) -> (ServiceModel, Net) {
    let b0 = next_block(s.blocks.last().seed, data);
    let b = BlockModel { acks: b0.acks.insert(first_index(n.peers, n.addr) as usize), ..b0 };
    (
        ServiceModel { queue: entry_insert(s.queue, n.addr, b), ..s },
        net_propagate(n, EventModel::ProposeBlock(b, n.addr)),
    )
}

/// Proposing again, after a validation, a block with all the data received
/// so far, if any was.
pub open spec fn retry_step(s: ServiceModel, n: Net) -> (ServiceModel, Net) {
    if s.buffer.len() > 0 {
        create_step(s, n, s.buffer)
    } else {
        (s, n)
    }
}

/// Handling the proposals `items` one after the other.
pub open spec fn propose_all(s: ServiceModel, n: Net, items: Seq<(Addr, BlockModel)>) -> (
    ServiceModel,
    Net,
)
    decreases items.len(),
{
    if items.len() == 0 {
        (s, n)
    } else {
        let r = propose_all(s, n, items.drop_last());
        propose_step(r.0, r.1, items.last().1, items.last().0)
    }
}

/// Accepting block `b` (identifier `id`) into the chain: its validation is
/// passed on, the block is announced and appended, the proposals kept for
/// later are handled anew (those still early are then dropped), and a block
/// with all the data received so far is proposed.
pub open spec fn accept_step(s: ServiceModel, n: Net, b: BlockModel, id: Seq<u8>) -> (
    ServiceModel,
    Net,
) {
    let n1 = net_announce(net_propagate(n, EventModel::ValidateBlock(id)), b);
    let s1 = ServiceModel { blocks: s.blocks.push(b), future_queue: Seq::empty(), ..s };
    let r = propose_all(s1, n1, s.future_queue);
    retry_step(ServiceModel { future_queue: Seq::empty(), ..r.0 }, r.1)
}

/// Whether the block kept for `leader` is the block `id`.
pub open spec fn leader_block_matches(s: ServiceModel, leader: Addr, id: Seq<u8>) -> bool {
    entry_get(s.queue, leader) matches Some(b) && block_hash(b) == id
}

/// Handling the validation of block `id` once the round's leader is known:
/// the block kept for the leader is accepted if it is the one validated;
/// otherwise nothing happens.
pub open spec fn validate_from_leader(s: ServiceModel, n: Net, id: Seq<u8>, leader: Addr) -> (
    ServiceModel,
    Net,
) {
    match entry_get(s.queue, leader) {
        Some(b) => if block_hash(b) == id {
            accept_step(s, n, b, id)
        } else {
            (s, n)
        },
        None => (s, n),
    }
}

/// Handling the validation of block `id`: nothing happens if the chain
/// already holds it; otherwise the block kept for the round's leader is
/// accepted if it is the one validated.
pub open spec fn validate_step(s: ServiceModel, n: Net, id: Seq<u8>) -> (ServiceModel, Net) {
    if chain_has(s.blocks, id) {
        (s, n)
    } else {
        match leader_of(s, n.peers) {
            Some(leader) => validate_from_leader(s, n, id, leader),
            None => (s, n),
        }
    }
}

/// The inputs on which handling the validation of block `id` can pick a
/// leader (the ring is not empty), and passes the validation on only when
/// this peer is in its own ring: that is needed only where the leader's
/// block is the one validated.
pub open spec fn validate_ready(s: ServiceModel, n: Net, id: Seq<u8>) -> bool {
    !chain_has(s.blocks, id) ==> {
        &&& n.peers.len() > 0
        &&& (leader_of(s, n.peers) matches Some(l) && leader_block_matches(s, l, id))
            ==> n.peers.contains(n.addr)
    }
}

/// Handling a client's request: its data is added to the buffer and a block
/// holding it is proposed.
pub open spec fn request_step(s: ServiceModel, n: Net, data: Seq<u8>) -> (ServiceModel, Net) {
    create_step(ServiceModel { buffer: s.buffer + data, ..s }, n, data)
}

/// Handling an event received from `from`.
pub open spec fn event_step(s: ServiceModel, n: Net, e: EventModel, from: Addr) -> (
    ServiceModel,
    Net,
) {
    match e {
        EventModel::ProposeBlock(b, p) => propose_step(s, n, b, p),
        EventModel::AckBlock(id) => ack_step(s, n, id, from),
        EventModel::ValidateBlock(id) => validate_step(s, n, id),
    }
}

/// The inputs on which handling an event passes events on only when this
/// peer is in its own ring, counts acknowledgements only from peers of the
/// ring, and picks a leader only in a ring that is not empty.
pub open spec fn event_ready(s: ServiceModel, n: Net, e: EventModel, from: Addr) -> bool {
    match e {
        EventModel::ProposeBlock(b, p) => (b.seed == next_seed(s.blocks.last().seed)
            && p != n.addr) ==> n.peers.contains(n.addr),
        EventModel::AckBlock(id) => {
            &&& n.peers.contains(from)
            &&& ack_completes(s, n, id, from) ==> n.peers.contains(n.addr)
        },
        EventModel::ValidateBlock(id) => validate_ready(s, n, id),
    }
}

/// The block service: it proposes blocks for the data of requests, passes
/// proposals on around the ring, counts acknowledgements and appends the
/// leader's block to the chain once validated.
pub struct BlockService {
    buffer: Vec<u8>,
    queue: PeerMap,
    future_queue: PeerMap,
    blocks: Vec<Block>,
}

impl View for BlockService {
    type V = ServiceModel;

    closed spec fn view(&self) -> ServiceModel {
        ServiceModel {
            buffer: self.buffer@,
            queue: self.queue@,
            future_queue: self.future_queue@,
            blocks: self.blocks@.map_values(|b: Block| b@),
        }
    }
}

/// A copy of a byte string.
fn copy_bytes(v: &Vec<u8>) -> (r: Vec<u8>)
    ensures
        r@ == v@,
{
    let mut r: Vec<u8> = Vec::new();
    let mut i: usize = 0;
    while i < v.len()
        invariant
            i <= v.len(),
            r@ == v@.subrange(0, i as int),
        decreases v.len() - i,
    {
        r.push(v[i]);
        i = i + 1;
    }
    assert(v@.subrange(0, v@.len() as int) == v@);
    r
}

impl BlockService {
    /// The chain is never empty.
    pub open spec fn wf(&self) -> bool {
        self@.blocks.len() > 0
    }

    /// A service whose chain holds only the first block, with no data.
    pub fn new() -> (s: BlockService)
        ensures
            s.wf(),
            s@.buffer == Seq::<u8>::empty(),
            s@.queue == Seq::<(Addr, BlockModel)>::empty(),
            s@.future_queue == Seq::<(Addr, BlockModel)>::empty(),
            s@.blocks == seq![Block::genesis_model()],
    {
        let mut blocks: Vec<Block> = Vec::new();
        blocks.push(Block::new(Vec::new()));
        let s = BlockService {
            buffer: Vec::new(),
            queue: PeerMap::new(),
            future_queue: PeerMap::new(),
            blocks,
        };
        assert(s@.blocks =~= seq![Block::genesis_model()]);
        s
    }

    /// The last block of the chain.
    fn last_block(&self) -> (b: &Block)
        requires
            self.wf(),
        ensures
            b@ == self@.blocks.last(),
    {
        &self.blocks[self.blocks.len() - 1]
    }

    /// Handles the proposal of `block` by `proposer`.
    pub fn process_propose_block(&mut self, ctx: &mut Context, block: &Block, proposer: &Addr)
        requires
            old(self).wf(),
            (block@.seed == next_seed(old(self)@.blocks.last().seed) && *proposer
                != old(ctx)@.addr) ==> old(ctx)@.peers.contains(old(ctx)@.addr),
        ensures
            final(self).wf(),
            (final(self)@, final(ctx)@) == propose_step(old(self)@, old(ctx)@, block@, *proposer),
            final(ctx).service() == old(ctx).service(),
            final(ctx).wf() == old(ctx).wf(),
    {
        if !block.verify() {
            return;
        }
        let next = self.last_block().next(Vec::new());
        if next.get_seed() != block.get_seed() {
            self.future_queue.insert(*proposer, block.clone());
            return;
        }
        if *proposer != *ctx.get_addr() {
            self.queue.insert(*proposer, block.clone());
        } else {
            return;
        }
        ctx.propagate(&Event::ProposeBlock(block.clone(), *proposer));
        let id = block.hash();
        let ack = Event::AckBlock(id.clone());
        ctx.send(&ack, proposer);
    }

    /// Handles the acknowledgement of block `id` by peer `from`.
    pub fn process_ack_block(&mut self, ctx: &mut Context, id: &BlockID, from: &Addr)
        requires
            old(self).wf(),
            old(ctx)@.peers.contains(*from),
            ack_completes(old(self)@, old(ctx)@, id@, *from) ==> old(ctx)@.peers.contains(
                old(ctx)@.addr,
            ),
        ensures
            final(self).wf(),
            (final(self)@, final(ctx)@) == ack_step(old(self)@, old(ctx)@, id@, *from),
            final(ctx).service() == old(ctx).service(),
            final(ctx).wf() == old(ctx).wf(),
    {
        let index: usize = match position(ctx.get_peers(), *from) {
            Some(i) => i,
            None => 0,
        };
        let me = *ctx.get_addr();
        match self.queue.find(me) {
            Some(i) => {
                proof {
                    lemma_first_index(crate::peer_map::entry_keys(self@.queue), me);
                    assert(crate::peer_map::entry_keys(self@.queue)[i as int] == self@.queue[i as int].0);
                }
                let mut block = self.queue.block_at(i).clone();
                if block.hash() == *id {
                    block.incr_ack(index);
                    let count = block.get_ack();
                    let ghost acked = block@;
                    self.queue.set_block(i, block);
                    if count == ctx.get_peers().len() {
                        ctx.propagate(&Event::ValidateBlock(id.clone()));
                    }
                    proof {
                        assert(self@.queue =~= old(self)@.queue.update(i as int, (me, acked)));
                    }
                }
            },
            None => {},
        }
    }

    /// Proposes a block with `data` after the last block of the chain.
    pub fn process_create_block(&mut self, ctx: &mut Context, data: &Vec<u8>)
        requires
            old(self).wf(),
            old(ctx)@.peers.contains(old(ctx)@.addr),
        ensures
            final(self).wf(),
            (final(self)@, final(ctx)@) == create_step(old(self)@, old(ctx)@, data@),
            final(ctx).service() == old(ctx).service(),
            final(ctx).wf() == old(ctx).wf(),
    {
        let mut block = self.last_block().next(copy_bytes(data));
        let me = *ctx.get_addr();
        proof { lemma_first_index(ctx@.peers, me); }
        let index: usize = match position(ctx.get_peers(), me) {
            Some(i) => i,
            None => 0,
        };
        block.incr_ack(index);
        self.queue.insert(me, block.clone());
        ctx.propagate(&Event::ProposeBlock(block, me));
    }

    /// After a validation, proposes a block with all the data received so
    /// far, if any was.
    pub fn retry_block(&mut self, ctx: &mut Context, id: &BlockID)
        requires
            old(self).wf(),
            old(self)@.buffer.len() > 0 ==> old(ctx)@.peers.contains(old(ctx)@.addr),
        ensures
            final(self).wf(),
            (final(self)@, final(ctx)@) == retry_step(old(self)@, old(ctx)@),
            final(ctx).service() == old(ctx).service(),
            final(ctx).wf() == old(ctx).wf(),
    {
        if self.buffer.len() > 0 {
            let data = copy_bytes(&self.buffer);
            self.process_create_block(ctx, &data);
        }
    }

    /// Whether the chain holds a block with identifier `id`.
    pub fn has_block(&self, id: &BlockID) -> (r: bool)
        ensures
            r == chain_has(self@.blocks, id@),
    {
        let mut k: usize = 0;
        while k < self.blocks.len()
            invariant
                k <= self.blocks.len(),
                forall|j: int| 0 <= j < k ==> block_hash(#[trigger] self@.blocks[j]) != id@,
            decreases self.blocks.len() - k,
        {
            if self.blocks[k].hash() == *id {
                assert(block_hash(self@.blocks[k as int]) == id@);
                return true;
            }
            k = k + 1;
        }
        false
    }

    /// Handles the validation of block `id`.
    pub fn process_validate_block(&mut self, ctx: &mut Context, id: &BlockID)
        requires
            old(self).wf(),
            validate_ready(old(self)@, old(ctx)@, id@),
        ensures
            final(self).wf(),
            (final(self)@, final(ctx)@) == validate_step(old(self)@, old(ctx)@, id@),
            final(ctx).service() == old(ctx).service(),
            final(ctx).wf() == old(ctx).wf(),
    {
        if self.has_block(id) {
            return;
        }
        let leader = self.get_leader(ctx.get_peers());
        match leader {
            Some(l) => self.process_validate_from_leader(ctx, id, &l),
            None => {},
        }
    }

    /// Handles the validation of block `id` once the round's leader is
    /// known: accepts the block kept for `leader` if it is the one validated.
    pub fn process_validate_from_leader(&mut self, ctx: &mut Context, id: &BlockID, leader: &Addr)
        requires
            old(self).wf(),
            leader_block_matches(old(self)@, *leader, id@) ==> old(ctx)@.peers.contains(
                old(ctx)@.addr,
            ),
        ensures
            final(self).wf(),
            (final(self)@, final(ctx)@) == validate_from_leader(old(self)@, old(ctx)@, id@, *leader),
            final(ctx).service() == old(ctx).service(),
            final(ctx).wf() == old(ctx).wf(),
    {
        let leader = *leader;
        let block = match self.queue.get(leader) {
            Some(b) => b.clone(),
            None => {
                return;
            },
        };
        if block.hash() != *id {
            return;
        }
        let ghost s0 = self@;
        let ghost n0 = ctx@;
        ctx.propagate(&Event::ValidateBlock(id.clone()));
        ctx.announce_block(&block);
        let ghost blocks0 = self.blocks@;
        self.blocks.push(block);
        assert(self.blocks@.map_values(|b: Block| b@) =~= blocks0.map_values(|b: Block| b@).push(
            entry_get(s0.queue, leader).unwrap(),
        ));
        let items = self.future_queue.drain();
        let ghost all = entries_view(items@);
        let ghost s1 = self@;
        let ghost n1 = ctx@;
        assert(all.take(0) =~= Seq::<(Addr, BlockModel)>::empty());
        let mut j: usize = 0;
        while j < items.len()
            invariant
                j <= items.len(),
                all == entries_view(items@),
                s1.blocks.len() > 0,
                self.wf(),
                ctx@.addr == n1.addr,
                ctx@.peers == n1.peers,
                n1.peers.contains(n1.addr),
                self@.blocks == s1.blocks,
                (self@, ctx@) == propose_all(s1, n1, all.take(j as int)),
                ctx.service() == old(ctx).service(),
                ctx.wf() == old(ctx).wf(),
            decreases items.len() - j,
        {
            self.process_propose_block(ctx, &items[j].1, &items[j].0);
            proof {
                assert(all.take(j + 1).drop_last() =~= all.take(j as int));
                assert(all[j as int] == (items@[j as int].0, items@[j as int].1@));
            }
            j = j + 1;
        }
        assert(all.take(items.len() as int) =~= all);
        self.future_queue.clear();
        self.retry_block(ctx, id);
    }

    /// Handles an event received from `from`.
    pub fn process_event(&mut self, ctx: &mut Context, evt: &Event, from: &Addr)
        requires
            old(self).wf(),
            event_ready(old(self)@, old(ctx)@, evt@, *from),
        ensures
            final(self).wf(),
            (final(self)@, final(ctx)@) == event_step(old(self)@, old(ctx)@, evt@, *from),
            final(ctx).service() == old(ctx).service(),
            final(ctx).wf() == old(ctx).wf(),
    {
        match evt {
            Event::ProposeBlock(block, prop) => self.process_propose_block(ctx, block, prop),
            Event::AckBlock(id) => self.process_ack_block(ctx, id, from),
            Event::ValidateBlock(id) => self.process_validate_block(ctx, id),
        }
    }

    /// Handles a client's request to put `data` in a block.
    pub fn process_request(&mut self, ctx: &mut Context, data: Vec<u8>)
        requires
            old(self).wf(),
            old(ctx)@.peers.contains(old(ctx)@.addr),
        ensures
            final(self).wf(),
            (final(self)@, final(ctx)@) == request_step(old(self)@, old(ctx)@, data@),
            final(ctx).service() == old(ctx).service(),
            final(ctx).wf() == old(ctx).wf(),
    {
        let mut extra = copy_bytes(&data);
        self.buffer.append(&mut extra);
        self.process_create_block(ctx, &data);
    }

    /// Whether the acknowledgement of block `id` by `from`, a peer of the
    /// ring, completes the count of the block this peer proposed.
    fn completes_ack(&self, ctx: &Context, id: &BlockID, from: &Addr) -> (r: bool)
        requires
            ctx@.peers.contains(*from),
        ensures
            r == ack_completes(self@, ctx@, id@, *from),
    {
        proof { lemma_first_index(ctx@.peers, *from); }
        let index: usize = match position(ctx.get_peers(), *from) {
            Some(i) => i,
            None => 0,
        };
        match self.queue.get(*ctx.get_addr()) {
            Some(b) => {
                if b.hash() == *id {
                    let mut acked = b.clone();
                    acked.incr_ack(index);
                    acked.get_ack() == ctx.get_peers().len()
                } else {
                    false
                }
            },
            None => false,
        }
    }

    /// Whether `process_event` can be given `evt` from `from`.
    pub fn ready_for(&self, ctx: &Context, evt: &Event, from: &Addr) -> (r: bool)
        requires
            self.wf(),
        ensures
            r == event_ready(self@, ctx@, evt@, *from),
    {
        let me = *ctx.get_addr();
        let in_ring = position(ctx.get_peers(), me).is_some();
        match evt {
            Event::ProposeBlock(block, proposer) => {
                let next = self.last_block().next(Vec::new());
                !(next.get_seed() == block.get_seed() && *proposer != me) || in_ring
            },
            Event::AckBlock(id) => {
                if position(ctx.get_peers(), *from).is_none() {
                    false
                } else {
                    !self.completes_ack(ctx, id, from) || in_ring
                }
            },
            Event::ValidateBlock(id) => {
                if self.has_block(id) {
                    true
                } else {
                    match self.get_leader(ctx.get_peers()) {
                        None => false,
                        Some(l) => {
                            let matches = match self.queue.get(l) {
                                Some(b) => b.hash() == *id,
                                None => false,
                            };
                            !matches || in_ring
                        },
                    }
                }
            },
        }
    }

    /// The leader of the current round.
    pub fn get_leader(&self, peers: &Vec<Addr>) -> (l: Option<Addr>)
        requires
            self.wf(),
        ensures
            l == leader_of(self@, peers@),
            l is None <==> peers@.len() == 0,
            l matches Some(a) ==> peers@.contains(a),
    {
        choose_leader(self.last_block().get_seed(), peers)
    }
}

} // verus!
