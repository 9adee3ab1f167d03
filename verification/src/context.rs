use vstd::prelude::*;

use crate::block::{Block, BlockModel};
use crate::block_service::{BlockService, ServiceModel, event_ready, event_step, request_step};
use crate::message::{Addr, Event, EventModel, Message, MessageModel};
use crate::ring::{position, ring_next};

verus! {

/// What a peer has to do on the network: its address, the ring of peers,
/// the events waiting to be sent (each with its destination) and the blocks
/// announced as validated, oldest first.
#[verifier::ext_equal]
pub struct Net {
    pub addr: Addr,
    pub peers: Seq<Addr>,
    pub outbox: Seq<(EventModel, Addr)>,
    pub announced: Seq<BlockModel>,
}

/// `n` with the event `e` queued for `to`.
pub open spec fn net_send(n: Net, e: EventModel, to: Addr) -> Net {
    Net { outbox: n.outbox.push((e, to)), ..n }
}

/// `n` with the event `e` queued for the next peer of the ring.
pub open spec fn net_propagate(n: Net, e: EventModel) -> Net {
    net_send(n, e, ring_next(n.peers, n.addr))
}

/// `n` with the block `b` announced.
pub open spec fn net_announce(n: Net, b: BlockModel) -> Net {
    Net { announced: n.announced.push(b), ..n }
}

/// The abstract content of a list of queued events.
pub open spec fn outbox_view(v: Seq<(Event, Addr)>) -> Seq<(EventModel, Addr)> {
    v.map_values(|e: (Event, Addr)| (e.0@, e.1))
}

/// The state of a peer: its place on the network, and the service that
/// handles the events and requests it receives.
pub struct Context {
    addr: Addr,
    peers: Vec<Addr>,
    message_queue: Vec<(Event, Addr)>,
    announced: Vec<Block>,
    event_service: Option<BlockService>,
}

impl View for Context {
    type V = Net;

    closed spec fn view(&self) -> Net {
        Net {
            addr: self.addr,
            peers: self.peers@,
            outbox: outbox_view(self.message_queue@),
            announced: self.announced@.map_values(|b: Block| b@),
        }
    }
}

impl Context {
    /// The state of the registered service, if any.
    pub closed spec fn service(&self) -> Option<ServiceModel> {
        match self.event_service {
            Some(s) => Some(s@),
            None => None,
        }
    }

    /// The registered service, if any, is well formed.
    pub closed spec fn wf(&self) -> bool {
        self.event_service matches Some(s) ==> s.wf()
    }

    /// A peer at `addr` in the ring `peers`, with nothing to send and no
    /// service yet.
    pub fn new(addr: Addr, peers: Vec<Addr>) -> (c: Context)
        ensures
            c@ == (Net { addr, peers: peers@, outbox: Seq::empty(), announced: Seq::empty() }),
            c.service() is None,
            c.wf(),
    {
        let c = Context {
            addr,
            peers,
            message_queue: Vec::new(),
            announced: Vec::new(),
            event_service: None,
        };
        assert(c@ =~= (Net { addr, peers: peers@, outbox: Seq::empty(), announced: Seq::empty() }));
        c
    }

    /// The address of this peer.
    pub fn get_addr(&self) -> (a: &Addr)
        ensures
            *a == self@.addr,
    {
        &self.addr
    }

    /// The ring of peers.
    pub fn get_peers(&self) -> (p: &Vec<Addr>)
        ensures
            p@ == self@.peers,
    {
        &self.peers
    }

    /// Makes `service` handle the events and requests of this peer.
    pub fn register_event_handler(&mut self, service: BlockService)
        requires
            service.wf(),
        ensures
            final(self)@ == old(self)@,
            final(self).service() == Some(service@),
            final(self).wf(),
    {
        self.event_service = Some(service);
    }

    /// Queues `evt` for `addr`.
    pub fn send(&mut self, evt: &Event, addr: &Addr)
        ensures
            final(self)@ == net_send(old(self)@, evt@, *addr),
            final(self).service() == old(self).service(),
            final(self).wf() == old(self).wf(),
    {
        let ghost before = self.message_queue@;
        self.message_queue.push((evt.clone(), *addr));
        assert(outbox_view(self.message_queue@) =~= outbox_view(before).push((evt@, *addr)));
    }

    /// Queues `evt` for the peer that follows this one in the ring.
    pub fn propagate(&mut self, evt: &Event)
        requires
            old(self)@.peers.contains(old(self)@.addr),
        ensures
            final(self)@ == net_propagate(old(self)@, evt@),
            final(self).service() == old(self).service(),
            final(self).wf() == old(self).wf(),
    {
        proof { crate::ring::lemma_first_index(self.peers@, self.addr); }
        let idx = position(&self.peers, self.addr);
        let idx: usize = match idx {
            Some(i) => i,
            None => 0,
        };
        assert(idx < self.peers@.len());
        let len: usize = self.peers.len();
        let succ: usize = idx + 1;
        let next: usize = succ % len;
        let to = self.peers[next];
        self.send(evt, &to);
    }

    /// Announces `block` as validated.
    pub fn announce_block(&mut self, block: &Block)
        ensures
            final(self)@ == net_announce(old(self)@, block@),
            final(self).service() == old(self).service(),
            final(self).wf() == old(self).wf(),
    {
        let ghost before = self.announced@;
        self.announced.push(block.clone());
        assert(self.announced@.map_values(|b: Block| b@) =~= before.map_values(|b: Block| b@).push(
            block@,
        ));
    }

    /// Takes the event to send next, with its destination: the one queued
    /// last.
    pub fn send_next(&mut self) -> (r: Option<(Event, Addr)>)
        ensures
            old(self)@.outbox.len() == 0 ==> r is None && final(self)@ == old(self)@,
            old(self)@.outbox.len() > 0 ==> (r matches Some(m) && (m.0@, m.1) == old(
                self,
            )@.outbox.last() && final(self)@ == (Net {
                outbox: old(self)@.outbox.drop_last(),
                ..old(self)@
            })),
            final(self).service() == old(self).service(),
            final(self).wf() == old(self).wf(),
    {
        let ghost before = self.message_queue@;
        let r = self.message_queue.pop();
        proof {
            if before.len() > 0 {
                assert(outbox_view(self.message_queue@) =~= outbox_view(before).drop_last());
            } else {
                assert(self@ =~= old(self)@);
            }
        }
        r
    }

    /// Hands out the blocks announced so far, oldest first, and forgets them.
    pub fn take_announced(&mut self) -> (blocks: Vec<Block>)
        ensures
            blocks@.map_values(|b: Block| b@) == old(self)@.announced,
            final(self)@ == (Net { announced: Seq::empty(), ..old(self)@ }),
            final(self).service() == old(self).service(),
            final(self).wf() == old(self).wf(),
    {
        let mut blocks: Vec<Block> = Vec::new();
        std::mem::swap(&mut blocks, &mut self.announced);
        assert(self@ =~= (Net { announced: Seq::empty(), ..old(self)@ }));
        blocks
    }
    /// Hands an event received from `from` to the registered service; with
    /// no service registered nothing happens.
    pub fn handle_event(&mut self, evt: &Event, from: Addr)
        requires
            old(self).wf(),
            old(self).service() matches Some(s) ==> event_ready(s, old(self)@, evt@, from),
        ensures
            final(self).wf(),
            match old(self).service() {
                Some(s) => final(self).service() == Some(event_step(s, old(self)@, evt@, from).0)
                    && final(self)@ == event_step(s, old(self)@, evt@, from).1,
                None => final(self).service() is None && final(self)@ == old(self)@,
            },
    {
        let svc = self.event_service.take();
        match svc {
            Some(mut s) => {
                s.process_event(self, evt, &from);
                self.event_service = Some(s);
            },
            None => {},
        }
    }

    /// Hands a client's request to the registered service; with no service
    /// registered nothing happens.
    pub fn handle_request(&mut self, data: Vec<u8>)
        requires
            old(self).wf(),
            old(self).service() is Some ==> old(self)@.peers.contains(old(self)@.addr),
        ensures
            final(self).wf(),
            match old(self).service() {
                Some(s) => final(self).service() == Some(request_step(s, old(self)@, data@).0)
                    && final(self)@ == request_step(s, old(self)@, data@).1,
                None => final(self).service() is None && final(self)@ == old(self)@,
            },
    {
        let svc = self.event_service.take();
        match svc {
            Some(mut s) => {
                s.process_request(self, data);
                self.event_service = Some(s);
            },
            None => {},
        }
    }

    /// Handles a message received from `from`: an event, or a request.
    pub fn handle_message(&mut self, msg: Message, from: Addr)
        requires
            old(self).wf(),
            old(self).service() matches Some(s) ==> match msg@ {
                MessageModel::Event(e) => event_ready(s, old(self)@, e, from),
                MessageModel::Request(_) => old(self)@.peers.contains(old(self)@.addr),
            },
        ensures
            final(self).wf(),
            match old(self).service() {
                Some(s) => match msg@ {
                    MessageModel::Event(e) => final(self).service() == Some(
                        event_step(s, old(self)@, e, from).0,
                    ) && final(self)@ == event_step(s, old(self)@, e, from).1,
                    MessageModel::Request(d) => final(self).service() == Some(
                        request_step(s, old(self)@, d).0,
                    ) && final(self)@ == request_step(s, old(self)@, d).1,
                },
                None => final(self).service() is None && final(self)@ == old(self)@,
            },
    {
        match msg {
            Message::Event(evt) => self.handle_event(&evt, from),
            Message::Request(data) => self.handle_request(data),
        }
    }
    /// Whether `handle_message` can be given `msg` from `from`.
    pub fn ready_for(&self, msg: &Message, from: &Addr) -> (r: bool)
        requires
            self.wf(),
        ensures
            r == (self.service() matches Some(s) ==> match msg@ {
                MessageModel::Event(e) => event_ready(s, self@, e, *from),
                MessageModel::Request(_) => self@.peers.contains(self@.addr),
            }),
    {
        match &self.event_service {
            Some(svc) => match msg {
                Message::Event(evt) => svc.ready_for(self, evt, from),
                Message::Request(_) => position(&self.peers, self.addr).is_some(),
            },
            None => true,
        }
    }

    /// Handles a message received from `from` if `handle_message` can be
    /// given it, and says whether it did; otherwise nothing changes.
    pub fn try_handle_message(&mut self, msg: Message, from: Addr) -> (handled: bool)
        requires
            old(self).wf(),
        ensures
            final(self).wf(),
            handled == (old(self).service() matches Some(s) ==> match msg@ {
                MessageModel::Event(e) => event_ready(s, old(self)@, e, from),
                MessageModel::Request(_) => old(self)@.peers.contains(old(self)@.addr),
            }),
            !handled ==> final(self)@ == old(self)@ && final(self).service() == old(self).service(),
            handled ==> match old(self).service() {
                Some(s) => match msg@ {
                    MessageModel::Event(e) => final(self).service() == Some(
                        event_step(s, old(self)@, e, from).0,
                    ) && final(self)@ == event_step(s, old(self)@, e, from).1,
                    MessageModel::Request(d) => final(self).service() == Some(
                        request_step(s, old(self)@, d).0,
                    ) && final(self)@ == request_step(s, old(self)@, d).1,
                },
                None => final(self).service() is None && final(self)@ == old(self)@,
            },
    {
        if !self.ready_for(&msg, &from) {
            return false;
        }
        self.handle_message(msg, from);
        true
    }
}

} // verus!
