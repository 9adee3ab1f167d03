use vstd::prelude::*;

use crate::block::{block_hash, next_block, Block, BlockID, BlockModel};
use crate::context::outbox_view;
use crate::election::{choose_leader, picked_at, random_peers, seeded_choice};
use crate::message::{Addr, Event, EventModel, Message, MessageModel};
use crate::peer_map::{entry_get, entry_insert, PeerMap};

verus! {

/// How many peers, at most, an event is passed on to.
pub const FANOUT: usize = 3;

/// A block proposed by this peer and the number of acknowledgements counted
/// for it so far.
pub struct Proposal {
    id: BlockID,
    num_ack: u64,
}

/// The state of a peer of the gossip protocol: its address, its peers, the
/// blocks proposed in the round (by proposer), its own pending proposal
/// (identifier and acknowledgements), its chain, the events it has to send
/// (in order, each with its destination) and the blocks it announced.
#[verifier::ext_equal]
pub struct GossipModel {
    pub addr: Addr,
    pub peers: Seq<Addr>,
    pub queue: Seq<(Addr, BlockModel)>,
    pub proposal: Option<(Seq<u8>, u64)>,
    pub blocks: Seq<BlockModel>,
    pub outbox: Seq<(EventModel, Addr)>,
    pub announced: Seq<BlockModel>,
}

/// `g` with the event `e` queued for `to`.
pub open spec fn gossip_send(g: GossipModel, e: EventModel, to: Addr) -> GossipModel {
    GossipModel { outbox: g.outbox.push((e, to)), ..g }
}

/// `g` with the event `e` queued for each of `targets`, in order.
pub open spec fn gossip_spread(g: GossipModel, e: EventModel, targets: Seq<Addr>) -> GossipModel {
    GossipModel { outbox: g.outbox + targets.map_values(|t: Addr| (e, t)), ..g }
}

/// The targets that passing an event on may pick among `peers`: at most
/// `FANOUT` of them, as many as there are up to that number, the peers at
/// as many distinct positions of the list.
pub open spec fn valid_targets(peers: Seq<Addr>, targets: Seq<Addr>) -> bool {
    &&& targets.len() == (if FANOUT < peers.len() { FANOUT as nat } else { peers.len() })
    &&& exists|idx: Seq<int>| picked_at(peers, targets, idx)
}

/// Handling the validation of block `id` once the leader is known: the
/// block kept for `leader`, if it is the one validated, is announced and
/// the round emptied; otherwise nothing happens.
pub open spec fn gossip_validate_from_leader(g: GossipModel, id: Seq<u8>, leader: Addr) -> GossipModel {
    match entry_get(g.queue, leader) {
        Some(b) => if block_hash(b) == id {
            GossipModel { queue: Seq::empty(), announced: g.announced.push(b), ..g }
        } else {
            g
        },
        None => g,
    }
}

/// Handling an event, where passing an event on goes to `targets`. A proposal is kept under its proposer, passed on and
/// acknowledged to the proposer. An acknowledgement of this peer's pending
/// proposal is counted; when every peer has acknowledged it, the proposal
/// is closed and its validation passed on. A validation of the block kept
/// for the leader (picked with the seed of the first block) announces that
/// block and empties the round.
pub open spec fn gossip_event_step(g: GossipModel, e: EventModel, targets: Seq<Addr>) -> GossipModel {
    match e {
        EventModel::ProposeBlock(b, p) => gossip_send(
            gossip_spread(
                GossipModel { queue: entry_insert(g.queue, p, b), ..g },
                EventModel::ProposeBlock(b, p),
                targets,
            ),
            EventModel::AckBlock(block_hash(b)),
            p,
        ),
        EventModel::AckBlock(id) => match g.proposal {
            Some((pid, k)) => if id != pid {
                g
            } else if k + 1 == g.peers.len() {
                gossip_spread(
                    GossipModel { proposal: None, ..g },
                    EventModel::ValidateBlock(id),
                    targets,
                )
            } else {
                GossipModel { proposal: Some((pid, (k + 1) as u64)), ..g }
            },
            None => g,
        },
        EventModel::ValidateBlock(id) => match seeded_choice(g.blocks[0].seed, g.peers) {
            Some(leader) => gossip_validate_from_leader(g, id, leader),
            None => g,
        },
    }
}

/// Handling a client's request: a block with `data` after the last block of
/// the chain becomes this peer's pending proposal and is sent to the last
/// peer of the list.
pub open spec fn gossip_request_step(g: GossipModel, data: Seq<u8>) -> GossipModel {
    let b = next_block(g.blocks.last().seed, data);
    gossip_send(
        GossipModel {
            queue: entry_insert(g.queue, g.addr, b),
            proposal: Some((block_hash(b), 0u64)),
            ..g
        },
        EventModel::ProposeBlock(b, g.addr),
        g.peers.last(),
    )
}

/// The messages that can be handled without picking a leader or a
/// destination among no peers.
pub open spec fn gossip_ready(g: GossipModel, m: MessageModel) -> bool {
    (m matches MessageModel::Event(EventModel::ValidateBlock(_)) || m is Request) ==> g.peers.len() > 0
}

/// A peer of the gossip protocol, where events are passed on to a few
/// peers picked at random.
pub struct GossipNode {
    addr: Addr,
    peers: Vec<Addr>,
    queue: PeerMap,
    proposal: Option<Proposal>,
    blocks: Vec<Block>,
    outbox: Vec<(Event, Addr)>,
    announced: Vec<Block>,
}

impl View for GossipNode {
    type V = GossipModel;

    closed spec fn view(&self) -> GossipModel {
        GossipModel {
            addr: self.addr,
            peers: self.peers@,
            queue: self.queue@,
            proposal: match self.proposal {
                Some(p) => Some((p.id@, p.num_ack)),
                None => None,
            },
            blocks: self.blocks@.map_values(|b: Block| b@),
            outbox: outbox_view(self.outbox@),
            announced: self.announced@.map_values(|b: Block| b@),
        }
    }
}

impl GossipNode {
    /// The chain is never empty, and a pending proposal has fewer
    /// acknowledgements than there are peers.
    pub open spec fn wf(&self) -> bool {
        &&& self@.blocks.len() > 0
        &&& self@.proposal matches Some(p) ==> p.1 < self@.peers.len()
    }

    /// A peer at `addr` among `peers`, whose chain holds only the first
    /// block, with no data.
    pub fn new(addr: Addr, peers: Vec<Addr>) -> (g: GossipNode)
        ensures
            g.wf(),
            g@ == (GossipModel {
                addr,
                peers: peers@,
                queue: Seq::empty(),
                proposal: None,
                blocks: seq![Block::genesis_model()],
                outbox: Seq::empty(),
                announced: Seq::empty(),
            }),
    {
        let mut blocks: Vec<Block> = Vec::new();
        blocks.push(Block::new(Vec::new()));
        let g = GossipNode {
            addr,
            peers,
            queue: PeerMap::new(),
            proposal: None,
            blocks,
            outbox: Vec::new(),
            announced: Vec::new(),
        };
        assert(g@ =~= (GossipModel {
            addr,
            peers: peers@,
            queue: Seq::empty(),
            proposal: None,
            blocks: seq![Block::genesis_model()],
            outbox: Seq::empty(),
            announced: Seq::empty(),
        }));
        g
    }

    /// Queues `evt` for `to`.
    fn send(&mut self, evt: &Event, to: Addr)
        ensures
            final(self)@ == gossip_send(old(self)@, evt@, to),
    {
        let ghost before = self.outbox@;
        self.outbox.push((evt.clone(), to));
        assert(outbox_view(self.outbox@) =~= outbox_view(before).push((evt@, to)));
    }

    /// Queues `evt` for each of `targets`, in order.
    pub fn propagate(&mut self, evt: &Event, targets: &Vec<Addr>)
        ensures
            final(self)@ == gossip_spread(old(self)@, evt@, targets@),
    {
        let mut i: usize = 0;
        while i < targets.len()
            invariant
                i <= targets.len(),
                self@ == gossip_spread(old(self)@, evt@, targets@.subrange(0, i as int)),
            decreases targets.len() - i,
        {
            self.send(evt, targets[i]);
            proof {
                let e = evt@;
                assert(targets@.subrange(0, i + 1).map_values(|t: Addr| (e, t)) =~= targets@.subrange(
                    0,
                    i as int,
                ).map_values(|t: Addr| (e, t)).push((e, targets@[i as int])));
            }
            i = i + 1;
        }
        assert(targets@.subrange(0, targets@.len() as int) == targets@);
    }

    /// Handles an event received from `src`, passing events on to `targets`.
    pub fn handle_event_to(&mut self, evt: &Event, src: &Addr, targets: &Vec<Addr>)
        requires
            old(self).wf(),
            evt@ is ValidateBlock ==> old(self)@.peers.len() > 0,
        ensures
            final(self).wf(),
            final(self)@ == gossip_event_step(old(self)@, evt@, targets@),
    {
        match evt {
            Event::ProposeBlock(block, proposer) => {
                if !block.verify() {
                    return;
                }
                self.queue.insert(*proposer, block.clone());
                let id = block.hash();
                self.propagate(evt, targets);
                let ack = Event::AckBlock(id);
                self.send(&ack, *proposer);
            },
            Event::AckBlock(id) => {
                let n: usize = self.peers.len();
                match &mut self.proposal {
                    Some(p) => {
                        if !(*id == p.id) {
                            return;
                        }
                        p.num_ack = p.num_ack + 1;
                        if p.num_ack as usize == n {
                            self.proposal = None;
                            self.propagate(&Event::ValidateBlock(id.clone()), targets);
                        }
                    },
                    None => {},
                }
            },
            Event::ValidateBlock(id) => {
                match choose_leader(self.blocks[0].get_seed(), &self.peers) {
                    Some(l) => self.validate_from_leader(id, &l),
                    None => {},
                }
            },
        }
    }

    /// Handles the validation of block `id` once the leader is known.
    pub fn validate_from_leader(&mut self, id: &BlockID, leader: &Addr)
        requires
            old(self).wf(),
        ensures
            final(self).wf(),
            final(self)@ == gossip_validate_from_leader(old(self)@, id@, *leader),
    {
        let leader = *leader;
        let block = match self.queue.get(leader) {
            Some(b) => b.clone(),
            None => {
                return;
            },
        };
        if block.hash() == *id {
            self.queue.clear();
            let ghost before = self.announced@;
            self.announced.push(block);
            assert(self.announced@.map_values(|b: Block| b@) =~= before.map_values(
                |b: Block| b@,
            ).push(entry_get(old(self)@.queue, leader).unwrap()));
        }
    }

    /// Handles an event received from `src`, passing events on to a few
    /// peers picked at random.
    pub fn handle_event(&mut self, evt: &Event, src: &Addr)
        requires
            old(self).wf(),
            evt@ is ValidateBlock ==> old(self)@.peers.len() > 0,
        ensures
            final(self).wf(),
            exists|targets: Seq<Addr>|
                valid_targets(old(self)@.peers, targets) && final(self)@ == gossip_event_step(
                    old(self)@,
                    evt@,
                    targets,
                ),
    {
        let targets = random_peers(&self.peers, FANOUT);
        self.handle_event_to(evt, src, &targets);
        assert(valid_targets(old(self)@.peers, targets@));
    }

    /// Handles a client's request to put `data` in a block.
    pub fn handle_request(&mut self, data: Vec<u8>)
        requires
            old(self).wf(),
            old(self)@.peers.len() > 0,
        ensures
            final(self).wf(),
            final(self)@ == gossip_request_step(old(self)@, data@),
    {
        let block = self.blocks[self.blocks.len() - 1].next(data);
        self.queue.insert(self.addr, block.clone());
        self.proposal = Some(Proposal { id: block.hash(), num_ack: 0 });
        let to = self.peers[self.peers.len() - 1];
        let me = self.addr;
        self.send(&Event::ProposeBlock(block, me), to);
    }

    /// Whether `handle_message` can be given `msg`.
    pub fn can_handle(&self, msg: &Message) -> (r: bool)
        ensures
            r == gossip_ready(self@, msg@),
    {
        match msg {
            Message::Event(Event::ValidateBlock(_)) | Message::Request(_) => self.peers.len() > 0,
            _ => true,
        }
    }

    /// Handles a message received from `src`, passing events on to a few
    /// peers picked at random.
    pub fn handle_message(&mut self, msg: Message, src: &Addr)
        requires
            old(self).wf(),
            gossip_ready(old(self)@, msg@),
        ensures
            final(self).wf(),
            match msg@ {
                MessageModel::Event(e) => exists|targets: Seq<Addr>|
                    valid_targets(old(self)@.peers, targets) && final(self)@ == gossip_event_step(
                        old(self)@,
                        e,
                        targets,
                    ),
                MessageModel::Request(d) => final(self)@ == gossip_request_step(old(self)@, d),
            },
    {
        match msg {
            Message::Event(evt) => self.handle_event(&evt, src),
            Message::Request(data) => self.handle_request(data),
        }
    }

    /// Takes the events to send, in the order in which they were queued.
    pub fn take_outbox(&mut self) -> (out: Vec<(Event, Addr)>)
        ensures
            outbox_view(out@) == old(self)@.outbox,
            final(self)@ == (GossipModel { outbox: Seq::empty(), ..old(self)@ }),
            final(self).wf() == old(self).wf(),
    {
        let mut out: Vec<(Event, Addr)> = Vec::new();
        std::mem::swap(&mut out, &mut self.outbox);
        assert(self@ =~= (GossipModel { outbox: Seq::empty(), ..old(self)@ }));
        out
    }

    /// Hands out the blocks announced so far, oldest first, and forgets them.
    pub fn take_announced(&mut self) -> (blocks: Vec<Block>)
        ensures
            blocks@.map_values(|b: Block| b@) == old(self)@.announced,
            final(self)@ == (GossipModel { announced: Seq::empty(), ..old(self)@ }),
            final(self).wf() == old(self).wf(),
    {
        let mut blocks: Vec<Block> = Vec::new();
        std::mem::swap(&mut blocks, &mut self.announced);
        assert(self@ =~= (GossipModel { announced: Seq::empty(), ..old(self)@ }));
        blocks
    }
}

} // verus!
