use vstd::prelude::*;

use crate::block::{block_hash, next_seed, BlockModel};
use crate::block_service::{
    accept_step, ack_completes, ack_step, chain_has, create_step, event_step, leader_of,
    propose_all, propose_step,
    request_step, retry_step, validate_step, ServiceModel,
};
use crate::context::{net_send, Net};
use crate::gossip::{gossip_event_step, gossip_spread, valid_targets, GossipModel};
use crate::election::picked_at;
use crate::message::{Addr, EventModel};
use crate::peer_map::{entry_get, entry_keys, lemma_entry_insert_get};
use crate::ring::{first_index, lemma_first_index, ring_next};
use crate::digest::sha256;

verus! {

/// Acknowledging a block does not change its identifier.
pub proof fn lemma_ack_keeps_hash(b: BlockModel, i: usize)
    ensures
        block_hash(BlockModel { acks: b.acks.insert(i), ..b }) == block_hash(b),
{
}

/// The acknowledgement of a peer that had not acknowledged a block adds one
/// to its count.
pub proof fn lemma_ack_counts_new_peer(b: BlockModel, i: usize)
    requires
        b.acks.finite(),
        !b.acks.contains(i),
    ensures
        b.acks.insert(i).len() == b.acks.len() + 1,
{
}

/// Acknowledging a block twice by the same peer counts once.
pub proof fn lemma_ack_idempotent(b: BlockModel, i: usize)
    ensures
        b.acks.insert(i).insert(i) == b.acks.insert(i),
{
    assert(b.acks.insert(i).insert(i) =~= b.acks.insert(i));
}

/// An event queued last is the one sent next, and sending it leaves the
/// queue as it was before.
pub proof fn lemma_send_then_next(n: Net, e: EventModel, to: Addr)
    ensures
        net_send(n, e, to).outbox.last() == (e, to),
        net_send(n, e, to).outbox.drop_last() == n.outbox,
{
    assert(net_send(n, e, to).outbox.drop_last() =~= n.outbox);
}

/// Peers whose chains end with blocks of the same seed agree on the leader
/// of the round.
pub proof fn lemma_leader_agreement(s1: ServiceModel, s2: ServiceModel, peers: Seq<Addr>)
    requires
        s1.blocks.len() > 0,
        s2.blocks.len() > 0,
        s1.blocks.last().seed == s2.blocks.last().seed,
    ensures
        leader_of(s1, peers) == leader_of(s2, peers),
{
}

/// Handling proposals, proposing a block and retrying leave the chain as it
/// is and the peer where it is.
proof fn lemma_steps_keep_chain(s: ServiceModel, n: Net, items: Seq<(Addr, BlockModel)>)
    ensures
        propose_all(s, n, items).0.blocks == s.blocks,
        propose_all(s, n, items).1.addr == n.addr,
        propose_all(s, n, items).1.peers == n.peers,
        propose_all(s, n, items).1.announced == n.announced,
        retry_step(s, n).0.blocks == s.blocks,
        retry_step(s, n).1.announced == n.announced,
    decreases items.len(),
{
    if items.len() > 0 {
        lemma_steps_keep_chain(s, n, items.drop_last());
    }
}

/// The chain only grows, by at most one block per event: the block kept for
/// the round's leader, whose identifier is the one validated. Requests
/// never change the chain.
pub proof fn lemma_chain_append_only(s: ServiceModel, n: Net, e: EventModel, from: Addr)
    ensures
        ({
            let r = event_step(s, n, e, from).0;
            ||| r.blocks == s.blocks
            ||| (e matches EventModel::ValidateBlock(id) && leader_of(s, n.peers) matches Some(l)
                && entry_get(s.queue, l) matches Some(b) && block_hash(b) == id && !chain_has(
                s.blocks,
                id,
            ) && r.blocks == s.blocks.push(b))
        }),
{
    match e {
        EventModel::ValidateBlock(id) => {
            if !chain_has(s.blocks, id) {
                if let Some(l) = leader_of(s, n.peers) {
                    if let Some(b) = entry_get(s.queue, l) {
                        if block_hash(b) == id {
                            lemma_accept_appends(s, n, b, id);
                        }
                    }
                }
            }
        },
        _ => {},
    }
}

/// Requests never change the chain.
pub proof fn lemma_request_keeps_chain(s: ServiceModel, n: Net, data: Seq<u8>)
    ensures
        request_step(s, n, data).0.blocks == s.blocks,
{
}

/// Accepting a block appends exactly that block to the chain and announces
/// exactly that block.
proof fn lemma_accept_appends(s: ServiceModel, n: Net, b: BlockModel, id: Seq<u8>)
    ensures
        accept_step(s, n, b, id).0.blocks == s.blocks.push(b),
        accept_step(s, n, b, id).1.announced == n.announced.push(b),
{
    let n1 = crate::context::net_announce(
        crate::context::net_propagate(n, EventModel::ValidateBlock(id)),
        b,
    );
    let s1 = ServiceModel { blocks: s.blocks.push(b), future_queue: Seq::empty(), ..s };
    lemma_steps_keep_chain(s1, n1, s.future_queue);
    let r = propose_all(s1, n1, s.future_queue);
    lemma_steps_keep_chain(ServiceModel { future_queue: Seq::empty(), ..r.0 }, r.1, Seq::empty());
}

/// Validating a block twice has the effect of validating it once: after the
/// first validation, whatever it did, a second one of the same identifier
/// changes nothing.
pub proof fn lemma_validate_idempotent(s: ServiceModel, n: Net, id: Seq<u8>)
    ensures
        ({
            let r = validate_step(s, n, id);
            validate_step(r.0, r.1, id) == r
        }),
{
    let r = validate_step(s, n, id);
    if !chain_has(s.blocks, id) {
        if let Some(l) = leader_of(s, n.peers) {
            if let Some(b) = entry_get(s.queue, l) {
                if block_hash(b) == id {
                    lemma_accept_appends(s, n, b, id);
                    assert(r.0.blocks[s.blocks.len() as int] == b);
                    assert(chain_has(r.0.blocks, id));
                }
            }
        }
    }
}

/// A proposal that comes back to the peer that made it changes nothing.
pub proof fn lemma_own_proposal_dropped(s: ServiceModel, n: Net, b: BlockModel)
    requires
        b.seed == crate::block::next_seed(s.blocks.last().seed),
    ensures
        propose_step(s, n, b, n.addr) == (s, n),
{
}

/// A proposal for a later round is kept, under its proposer, until the next
/// validation; nothing is sent for it.
pub proof fn lemma_future_proposal_kept(s: ServiceModel, n: Net, b: BlockModel, p: Addr)
    requires
        b.seed != crate::block::next_seed(s.blocks.last().seed),
    ensures
        entry_get(propose_step(s, n, b, p).0.future_queue, p) == Some(b),
        propose_step(s, n, b, p).1 == n,
{
    crate::peer_map::lemma_entry_insert_get(s.future_queue, p, b);
}

/// A proposed block is acknowledged by its proposer and kept for the round
/// under the proposer's address.
pub proof fn lemma_created_block_kept(s: ServiceModel, n: Net, data: Seq<u8>)
    requires
        n.peers.contains(n.addr),
    ensures
        ({
            let r = create_step(s, n, data);
            entry_get(r.0.queue, n.addr) matches Some(b) && b.data == data && b.seed
                == crate::block::next_seed(s.blocks.last().seed) && b.acks.contains(
                crate::ring::first_index(n.peers, n.addr) as usize,
            )
        }),
{
    let b0 = crate::block::next_block(s.blocks.last().seed, data);
    let b = BlockModel { acks: b0.acks.insert(crate::ring::first_index(n.peers, n.addr) as usize), ..b0 };
    crate::peer_map::lemma_entry_insert_get(s.queue, n.addr, b);
}

/// In the gossip protocol, an acknowledgement of the pending proposal closes
/// it, and passes its validation on, exactly when it completes the count of
/// peers; otherwise it is only counted. An acknowledgement of another block
/// changes nothing.
pub proof fn lemma_gossip_ack_threshold(g: GossipModel, id: Seq<u8>, targets: Seq<Addr>)
    requires
        g.proposal is Some,
        g.proposal.unwrap().1 < g.peers.len(),
    ensures
        ({
            let (pid, k) = g.proposal.unwrap();
            let r = gossip_event_step(g, EventModel::AckBlock(id), targets);
            &&& id != pid ==> r == g
            &&& (id == pid && k + 1 == g.peers.len()) ==> r == gossip_spread(
                GossipModel { proposal: None, ..g },
                EventModel::ValidateBlock(id),
                targets,
            )
            &&& (id == pid && k + 1 < g.peers.len()) ==> r == GossipModel {
                proposal: Some((pid, (k + 1) as u64)),
                ..g
            }
        }),
{
}

/// A peer announces a block exactly when it appends it to its chain: every
/// event announces the blocks it appends, in order, and nothing else.
pub proof fn lemma_announced_as_appended(s: ServiceModel, n: Net, e: EventModel, from: Addr)
    requires
        s.blocks.len() > 0,
    ensures
        ({
            let r = event_step(s, n, e, from);
            r.0.blocks.len() >= s.blocks.len() && r.0.blocks.subrange(0, s.blocks.len() as int)
                == s.blocks && r.1.announced.len() >= n.announced.len() && r.1.announced.subrange(
                0,
                n.announced.len() as int,
            ) == n.announced && r.0.blocks.subrange(s.blocks.len() as int, r.0.blocks.len() as int)
                == r.1.announced.subrange(n.announced.len() as int, r.1.announced.len() as int)
        }),
{
    let r = event_step(s, n, e, from);
    lemma_chain_append_only(s, n, e, from);
    match e {
        EventModel::ValidateBlock(id) => {
            if !chain_has(s.blocks, id) {
                if let Some(l) = leader_of(s, n.peers) {
                    if let Some(b) = entry_get(s.queue, l) {
                        if block_hash(b) == id {
                            lemma_accept_appends(s, n, b, id);
                            assert(r.0.blocks.subrange(s.blocks.len() as int, r.0.blocks.len() as int)
                                =~= seq![b]);
                            assert(r.1.announced.subrange(n.announced.len() as int, r.1.announced.len() as int)
                                =~= seq![b]);
                        }
                    }
                }
            }
        },
        _ => {},
    }
    assert(r.0.blocks.subrange(0, s.blocks.len() as int) =~= s.blocks);
    assert(r.1.announced.subrange(0, n.announced.len() as int) =~= n.announced);
    assert(r.0.blocks.subrange(s.blocks.len() as int, r.0.blocks.len() as int)
        =~= r.1.announced.subrange(n.announced.len() as int, r.1.announced.len() as int));
}

/// One input of the block service: an event with its sender, or a request.
pub enum ServiceInput {
    Event(EventModel, Addr),
    Request(Seq<u8>),
}

/// Handling one input.
pub open spec fn input_step(s: ServiceModel, n: Net, i: ServiceInput) -> (ServiceModel, Net) {
    match i {
        ServiceInput::Event(e, from) => event_step(s, n, e, from),
        ServiceInput::Request(d) => request_step(s, n, d),
    }
}

/// Handling the inputs one after the other.
pub open spec fn run_inputs(s: ServiceModel, n: Net, inputs: Seq<ServiceInput>) -> (
    ServiceModel,
    Net,
)
    decreases inputs.len(),
{
    if inputs.len() == 0 {
        (s, n)
    } else {
        let r = run_inputs(s, n, inputs.drop_last());
        input_step(r.0, r.1, inputs.last())
    }
}

/// No two blocks of the list have the same identifier.
pub open spec fn ids_distinct(blocks: Seq<BlockModel>) -> bool {
    forall|i: int, j: int|
        0 <= i < j < blocks.len() ==> block_hash(#[trigger] blocks[i]) != block_hash(
            #[trigger] blocks[j],
        )
}

/// A fresh chain, holding only the first block, has no repeated identifier.
pub proof fn lemma_fresh_chain_distinct()
    ensures
        ids_distinct(seq![crate::block::Block::genesis_model()]),
{
}

/// One input either changes neither the chain nor the announcements, or
/// appends one block whose identifier the chain did not hold, and announces
/// that block.
proof fn lemma_input_step(s: ServiceModel, n: Net, i: ServiceInput)
    requires
        s.blocks.len() > 0,
    ensures
        ({
            let r = input_step(s, n, i);
            ||| (r.0.blocks == s.blocks && r.1.announced == n.announced)
            ||| exists|b: BlockModel|
                !chain_has(s.blocks, block_hash(b)) && r.0.blocks == s.blocks.push(b)
                    && r.1.announced == n.announced.push(b)
        }),
{
    let r = input_step(s, n, i);
    match i {
        ServiceInput::Event(e, from) => {
            lemma_chain_append_only(s, n, e, from);
            lemma_announced_as_appended(s, n, e, from);
            if r.0.blocks == s.blocks {
                assert(r.1.announced =~= n.announced) by {
                    assert(r.0.blocks.subrange(s.blocks.len() as int, r.0.blocks.len() as int)
                        =~= Seq::<BlockModel>::empty());
                    assert(r.1.announced =~= r.1.announced.subrange(0, n.announced.len() as int)
                        + r.1.announced.subrange(
                        n.announced.len() as int,
                        r.1.announced.len() as int,
                    ));
                }
            } else {
                let id = e->ValidateBlock_0;
                let l = leader_of(s, n.peers).unwrap();
                let b = entry_get(s.queue, l).unwrap();
                assert(r.0.blocks == s.blocks.push(b));
                assert(r.0.blocks.subrange(s.blocks.len() as int, r.0.blocks.len() as int)
                    =~= seq![b]);
                assert(r.1.announced =~= r.1.announced.subrange(0, n.announced.len() as int)
                    + r.1.announced.subrange(n.announced.len() as int, r.1.announced.len() as int));
                assert(r.1.announced =~= n.announced.push(b));
                assert(!chain_has(s.blocks, block_hash(b)));
            }
        },
        ServiceInput::Request(d) => {
            lemma_request_keeps_chain(s, n, d);
        },
    }
}

/// Over any sequence of inputs, the chain only grows by appending, every
/// appended block is announced, in order, and nothing else is; a chain
/// without repeated identifiers keeps none, so no identifier is announced
/// twice, nor one the chain already held.
pub proof fn lemma_run_announces_once(s: ServiceModel, n: Net, inputs: Seq<ServiceInput>)
    requires
        s.blocks.len() > 0,
        ids_distinct(s.blocks),
    ensures
        ({
            let r = run_inputs(s, n, inputs);
            let added = r.1.announced.subrange(n.announced.len() as int, r.1.announced.len() as int);
            &&& r.1.announced.len() >= n.announced.len()
            &&& r.1.announced == n.announced + added
            &&& r.0.blocks == s.blocks + added
            &&& ids_distinct(r.0.blocks)
            &&& ids_distinct(added)
            &&& forall|k: int| 0 <= k < added.len() ==> !chain_has(s.blocks, block_hash(#[trigger] added[k]))
        }),
    decreases inputs.len(),
{
    let r = run_inputs(s, n, inputs);
    if inputs.len() == 0 {
        let added = r.1.announced.subrange(n.announced.len() as int, r.1.announced.len() as int);
        assert(added =~= Seq::<BlockModel>::empty());
        assert(r.1.announced =~= n.announced + added);
        assert(r.0.blocks =~= s.blocks + added);
    } else {
        lemma_run_announces_once(s, n, inputs.drop_last());
        let p = run_inputs(s, n, inputs.drop_last());
        let padded = p.1.announced.subrange(n.announced.len() as int, p.1.announced.len() as int);
        assert(p.0.blocks.len() > 0);
        lemma_input_step(p.0, p.1, inputs.last());
        let added = r.1.announced.subrange(n.announced.len() as int, r.1.announced.len() as int);
        if r.0.blocks == p.0.blocks && r.1.announced == p.1.announced {
            assert(added =~= padded);
        } else {
            let b = choose|b: BlockModel|
                !chain_has(p.0.blocks, block_hash(b)) && r.0.blocks == p.0.blocks.push(b)
                    && r.1.announced == p.1.announced.push(b);
            assert(added =~= padded.push(b));
            assert(r.1.announced =~= n.announced + added);
            assert(r.0.blocks =~= s.blocks + added);
            assert forall|i: int, j: int| 0 <= i < j < r.0.blocks.len() implies block_hash(
                #[trigger] r.0.blocks[i],
            ) != block_hash(#[trigger] r.0.blocks[j]) by {
                if j == r.0.blocks.len() - 1 {
                    assert(r.0.blocks[i] == p.0.blocks[i]);
                    if block_hash(r.0.blocks[i]) == block_hash(b) {
                        assert(chain_has(p.0.blocks, block_hash(b)));
                    }
                } else {
                    assert(r.0.blocks[i] == p.0.blocks[i]);
                    assert(r.0.blocks[j] == p.0.blocks[j]);
                }
            }
        }
        assert forall|i: int, j: int| 0 <= i < j < added.len() implies block_hash(
            #[trigger] added[i],
        ) != block_hash(#[trigger] added[j]) by {
            assert(added[i] == r.0.blocks[s.blocks.len() + i]);
            assert(added[j] == r.0.blocks[s.blocks.len() + j]);
        }
        assert forall|k: int| 0 <= k < added.len() implies !chain_has(
            s.blocks,
            block_hash(#[trigger] added[k]),
        ) by {
            if chain_has(s.blocks, block_hash(added[k])) {
                let m = choose|m: int| 0 <= m < s.blocks.len() && block_hash(s.blocks[m]) == block_hash(added[k]);
                assert(r.0.blocks[m] == s.blocks[m]);
                assert(added[k] == r.0.blocks[s.blocks.len() + k]);
            }
        }
    }
}

/// The peers an event is passed on to are distinct where the list of peers
/// has no repeated address.
pub proof fn lemma_targets_distinct(peers: Seq<Addr>, targets: Seq<Addr>)
    requires
        valid_targets(peers, targets),
        peers.no_duplicates(),
    ensures
        targets.no_duplicates(),
{
    let idx = choose|idx: Seq<int>| picked_at(peers, targets, idx);
    assert forall|i: int, j: int| 0 <= i < targets.len() && 0 <= j < targets.len() && i != j implies targets[i]
        != targets[j] by {
        assert(targets[i] == peers[idx[i]]);
        assert(targets[j] == peers[idx[j]]);
        assert(idx[i] != idx[j]);
    }
}

/// A proposal from another peer of a block that follows the last block of
/// the chain is kept for the round under its proposer, in place of any block
/// kept for it before, while the blocks kept for other peers stay; it is
/// passed on to the next peer of the ring and then acknowledged to its
/// proposer, and nothing else is sent, kept or announced.
pub proof fn lemma_proposal_kept_and_acked(s: ServiceModel, n: Net, b: BlockModel, p: Addr)
    requires
        b.seed == next_seed(s.blocks.last().seed),
        p != n.addr,
    ensures
        ({
            let r = propose_step(s, n, b, p);
            &&& entry_get(r.0.queue, p) == Some(b)
            &&& forall|k: Addr| k != p ==> entry_get(r.0.queue, k) == entry_get(s.queue, k)
            &&& r.0.blocks == s.blocks
            &&& r.0.future_queue == s.future_queue
            &&& r.0.buffer == s.buffer
            &&& r.1.outbox == n.outbox.push(
                (EventModel::ProposeBlock(b, p), ring_next(n.peers, n.addr)),
            ).push((EventModel::AckBlock(block_hash(b)), p))
            &&& r.1.announced == n.announced
            &&& r.1.addr == n.addr
            &&& r.1.peers == n.peers
        }),
{
    lemma_entry_insert_get(s.queue, p, b);
}

/// What any proposal changes: never the chain or the peer's place, and
/// never the block kept for another proposer; the events queued before stay
/// queued, first.
proof fn lemma_propose_step_frame(s: ServiceModel, n: Net, b: BlockModel, p: Addr)
    ensures
        ({
            let r = propose_step(s, n, b, p);
            &&& r.0.blocks == s.blocks
            &&& r.1.addr == n.addr
            &&& r.1.peers == n.peers
            &&& r.1.outbox.len() >= n.outbox.len()
            &&& r.1.outbox.subrange(0, n.outbox.len() as int) == n.outbox
            &&& forall|k: Addr| k != p ==> entry_get(r.0.queue, k) == entry_get(s.queue, k)
        }),
{
    lemma_entry_insert_get(s.queue, p, b);
    let r = propose_step(s, n, b, p);
    assert(r.1.outbox.subrange(0, n.outbox.len() as int) =~= n.outbox);
}

/// Handling held proposals one after the other keeps each one that follows
/// the chain's last block and comes from another peer, under its proposer,
/// and passes it on and acknowledges it.
proof fn lemma_propose_all_replays(s: ServiceModel, n: Net, items: Seq<(Addr, BlockModel)>, j: int)
    requires
        entry_keys(items).no_duplicates(),
        0 <= j < items.len(),
        items[j].1.seed == next_seed(s.blocks.last().seed),
        items[j].0 != n.addr,
    ensures
        ({
            let r = propose_all(s, n, items);
            &&& entry_get(r.0.queue, items[j].0) == Some(items[j].1)
            &&& exists|k: int|
                #![trigger r.1.outbox[k]]
                0 <= k && k + 1 < r.1.outbox.len() && r.1.outbox[k] == (
                    EventModel::ProposeBlock(items[j].1, items[j].0),
                    ring_next(n.peers, n.addr),
                ) && r.1.outbox[k + 1] == (EventModel::AckBlock(block_hash(items[j].1)), items[j].0)
        }),
    decreases items.len(),
{
    let m = items.len() - 1;
    let front = items.drop_last();
    let r0 = propose_all(s, n, front);
    let r = propose_all(s, n, items);
    lemma_steps_keep_chain(s, n, front);
    if j == m {
        lemma_proposal_kept_and_acked(r0.0, r0.1, items[j].1, items[j].0);
        let k = r0.1.outbox.len() as int;
        assert(r.1.outbox[k] == (
            EventModel::ProposeBlock(items[j].1, items[j].0),
            ring_next(n.peers, n.addr),
        ));
    } else {
        assert(entry_keys(front) =~= entry_keys(items).drop_last());
        assert(front[j] == items[j]);
        lemma_propose_all_replays(s, n, front, j);
        lemma_propose_step_frame(r0.0, r0.1, items[m].1, items[m].0);
        assert(entry_keys(items)[j] == items[j].0);
        assert(entry_keys(items)[m] == items[m].0);
        assert(items[m].0 != items[j].0);
        let k = choose|k: int|
            #![trigger r0.1.outbox[k]]
            0 <= k && k + 1 < r0.1.outbox.len() && r0.1.outbox[k] == (
                EventModel::ProposeBlock(items[j].1, items[j].0),
                ring_next(n.peers, n.addr),
            ) && r0.1.outbox[k + 1] == (EventModel::AckBlock(block_hash(items[j].1)), items[j].0);
        assert(r.1.outbox[k] == r.1.outbox.subrange(0, r0.1.outbox.len() as int)[k]);
        assert(r.1.outbox[k + 1] == r.1.outbox.subrange(0, r0.1.outbox.len() as int)[k + 1]);
    }
}

/// Accepting block `b` appends it to the chain and handles again the
/// proposals held for a later round: each one held under `p`, from another
/// peer, whose block `c` follows `b` is then kept for the round under `p`,
/// passed on to the next peer of the ring and acknowledged to `p`.
pub proof fn lemma_accept_replays_held(
    s: ServiceModel,
    n: Net,
    b: BlockModel,
    id: Seq<u8>,
    p: Addr,
    c: BlockModel,
)
    requires
        entry_keys(s.future_queue).no_duplicates(),
        entry_get(s.future_queue, p) == Some(c),
        c.seed == next_seed(b.seed),
        p != n.addr,
    ensures
        ({
            let r = accept_step(s, n, b, id);
            &&& r.0.blocks == s.blocks.push(b)
            &&& entry_get(r.0.queue, p) == Some(c)
            &&& exists|k: int|
                #![trigger r.1.outbox[k]]
                0 <= k && k + 1 < r.1.outbox.len() && r.1.outbox[k] == (
                    EventModel::ProposeBlock(c, p),
                    ring_next(n.peers, n.addr),
                ) && r.1.outbox[k + 1] == (EventModel::AckBlock(block_hash(c)), p)
        }),
{
    lemma_accept_appends(s, n, b, id);
    let n1 = crate::context::net_announce(
        crate::context::net_propagate(n, EventModel::ValidateBlock(id)),
        b,
    );
    let s1 = ServiceModel { blocks: s.blocks.push(b), future_queue: Seq::empty(), ..s };
    let items = s.future_queue;
    lemma_first_index(entry_keys(items), p);
    let j = first_index(entry_keys(items), p);
    assert(entry_keys(items)[j] == items[j].0);
    assert(s1.blocks.last() == b);
    lemma_propose_all_replays(s1, n1, items, j);
    let r1 = propose_all(s1, n1, items);
    lemma_steps_keep_chain(s1, n1, items);
    let s2 = ServiceModel { future_queue: Seq::empty(), ..r1.0 };
    let r = accept_step(s, n, b, id);
    let k = choose|k: int|
        #![trigger r1.1.outbox[k]]
        0 <= k && k + 1 < r1.1.outbox.len() && r1.1.outbox[k] == (
            EventModel::ProposeBlock(c, p),
            ring_next(n.peers, n.addr),
        ) && r1.1.outbox[k + 1] == (EventModel::AckBlock(block_hash(c)), p);
    if s2.buffer.len() > 0 {
        lemma_entry_insert_get(
            s2.queue,
            r1.1.addr,
            BlockModel {
                acks: crate::block::next_block(s2.blocks.last().seed, s2.buffer).acks.insert(
                    first_index(r1.1.peers, r1.1.addr) as usize,
                ),
                ..crate::block::next_block(s2.blocks.last().seed, s2.buffer)
            },
        );
        assert(r.1.outbox[k] == r1.1.outbox[k]);
        assert(r.1.outbox[k + 1] == r1.1.outbox[k + 1]);
    }
}

/// An acknowledgement counts only for the block this peer proposed and
/// keeps for the round: one of any other block, or with no such block kept,
/// changes nothing and never completes a count.
pub proof fn lemma_ack_for_other_block_ignored(s: ServiceModel, n: Net, id: Seq<u8>, from: Addr)
    requires
        !(entry_get(s.queue, n.addr) matches Some(b) && block_hash(b) == id),
    ensures
        ack_step(s, n, id, from) == (s, n),
        !ack_completes(s, n, id, from),
{
}

/// An acknowledgement of the block this peer proposed records the
/// acknowledging peer's position in the ring on that block and on no other;
/// the validation is passed on to the next peer exactly when every peer of
/// the ring has then acknowledged it, and nothing else is sent.
pub proof fn lemma_ack_counted(s: ServiceModel, n: Net, id: Seq<u8>, from: Addr, b: BlockModel)
    requires
        entry_get(s.queue, n.addr) == Some(b),
        block_hash(b) == id,
    ensures
        ({
            let r = ack_step(s, n, id, from);
            let acked = BlockModel { acks: b.acks.insert(first_index(n.peers, from) as usize), ..b };
            &&& entry_get(r.0.queue, n.addr) == Some(acked)
            &&& forall|k: Addr| k != n.addr ==> entry_get(r.0.queue, k) == entry_get(s.queue, k)
            &&& r.0.blocks == s.blocks
            &&& r.0.future_queue == s.future_queue
            &&& r.1.outbox == (if acked.acks.len() == n.peers.len() {
                n.outbox.push((EventModel::ValidateBlock(id), ring_next(n.peers, n.addr)))
            } else {
                n.outbox
            })
            &&& ack_completes(s, n, id, from) == (acked.acks.len() == n.peers.len())
        }),
{
    let ks = entry_keys(s.queue);
    lemma_first_index(ks, n.addr);
    let i = first_index(ks, n.addr);
    let acked = BlockModel { acks: b.acks.insert(first_index(n.peers, from) as usize), ..b };
    let q2 = s.queue.update(i, (n.addr, acked));
    assert(ks[i] == s.queue[i].0);
    assert(entry_keys(q2) =~= ks);
    assert forall|k: Addr| k != n.addr implies entry_get(q2, k) == entry_get(s.queue, k) by {
        lemma_first_index(ks, k);
        let a = first_index(ks, k);
        if a >= 0 {
            assert(ks[a] == s.queue[a].0);
            assert(a != i);
        }
    }
}

/// A request proposes a block holding exactly the request's data, whatever
/// was received before: the data joins the buffer, and the block, which
/// follows the last block of the chain and carries this peer's own
/// acknowledgement, is kept under this peer and passed on to the next peer
/// of the ring.
pub proof fn lemma_request_proposes_its_data(s: ServiceModel, n: Net, d: Seq<u8>)
    ensures
        ({
            let r = request_step(s, n, d);
            &&& r.0.buffer == s.buffer + d
            &&& r.0.blocks == s.blocks
            &&& r.0.future_queue == s.future_queue
            &&& entry_get(r.0.queue, n.addr) matches Some(b) && b.data == d && b.seed == next_seed(
                s.blocks.last().seed,
            ) && b.acks == Set::<usize>::empty().insert(first_index(n.peers, n.addr) as usize)
                && r.1.outbox == n.outbox.push(
                (EventModel::ProposeBlock(b, n.addr), ring_next(n.peers, n.addr)),
            )
            &&& r.1.announced == n.announced
        }),
{
    let b0 = crate::block::next_block(s.blocks.last().seed, d);
    let b = BlockModel { acks: b0.acks.insert(first_index(n.peers, n.addr) as usize), ..b0 };
    lemma_entry_insert_get(s.queue, n.addr, b);
}

/// A block's identifier covers all of its data and its seed: blocks with the
/// same identifier hold the same data and the same seed, unless SHA-256 maps
/// the two different byte strings made of data followed by seed to the same
/// digest.
pub proof fn lemma_hash_covers_data_and_seed(b1: BlockModel, b2: BlockModel)
    requires
        b1.seed.len() == b2.seed.len(),
    ensures
        block_hash(b1) == block_hash(b2) ==> (b1.data == b2.data && b1.seed == b2.seed) || (
        b1.data + b1.seed != b2.data + b2.seed && sha256(b1.data + b1.seed) == sha256(
            b2.data + b2.seed,
        )),
{
    let x = b1.data + b1.seed;
    let y = b2.data + b2.seed;
    if x == y {
        assert(x.len() == b1.data.len() + b1.seed.len());
        assert(y.len() == b2.data.len() + b2.seed.len());
        assert(b1.data.len() == b2.data.len());
        assert(x.subrange(0, b1.data.len() as int) =~= b1.data);
        assert(y.subrange(0, b2.data.len() as int) =~= b2.data);
        assert(x.subrange(b1.data.len() as int, x.len() as int) =~= b1.seed);
        assert(y.subrange(b2.data.len() as int, y.len() as int) =~= b2.seed);
    }
}

} // verus!
