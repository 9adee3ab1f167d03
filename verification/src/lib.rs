//! A small replicated block chain: blocks linked by SHA-256, proposed by one
//! peer, acknowledged around a ring of peers, and validated once every peer
//! has acknowledged the block of the round's leader.
//!
//! `block` holds the blocks; `context` and `block_service` the ring protocol
//! as a state machine (each handler queues the events to send and the blocks
//! to announce); `gossip` the variant in which events are passed on to a
//! few peers picked at random; `laws` what holds of the protocol as a whole.

mod block;
mod block_service;
mod context;
mod digest;
mod election;
mod gossip;
mod laws;
mod message;
mod peer_map;
mod ring;

pub use block::{
    Block, BlockID, BlockModel, Seed, ID_SHORT_LEN, block_hash, genesis_seed, hex_digits, hex_of,
    next_block, next_seed,
};
pub use block_service::{
    BlockService, ServiceModel, accept_step, ack_completes, ack_step, chain_has, create_step,
    event_ready, event_step, leader_block_matches, leader_of, propose_all, propose_step, request_step, retry_step,
    validate_from_leader, validate_ready, validate_step,
};
pub use context::{Context, Net, net_announce, net_propagate, net_send, outbox_view};
pub use digest::sha256;
pub use election::{picked_at, seeded_choice};
pub use gossip::{
    FANOUT, GossipModel, GossipNode, Proposal, gossip_event_step, gossip_ready, gossip_request_step,
    gossip_send, gossip_spread, gossip_validate_from_leader, valid_targets,
};
pub use laws::{
    lemma_ack_counts_new_peer, lemma_ack_idempotent, lemma_ack_keeps_hash, lemma_announced_as_appended, lemma_chain_append_only, lemma_created_block_kept,
    lemma_future_proposal_kept, lemma_gossip_ack_threshold, lemma_leader_agreement,
    lemma_own_proposal_dropped, lemma_request_keeps_chain, lemma_send_then_next,
    lemma_validate_idempotent, lemma_run_announces_once, ServiceInput, input_step, run_inputs,
    ids_distinct, lemma_fresh_chain_distinct, lemma_targets_distinct, lemma_proposal_kept_and_acked, lemma_accept_replays_held,
    lemma_ack_for_other_block_ignored, lemma_ack_counted, lemma_request_proposes_its_data,
    lemma_hash_covers_data_and_seed,
};
pub use message::{Addr, Event, EventModel, Message, MessageModel};
pub use peer_map::{
    PeerMap, entries_view, entry_get, entry_insert, entry_keys, lemma_entry_insert_get,
};
pub use ring::{
    first_index, lemma_first_index, lemma_first_index_distinct, lemma_ring_round_trip,
    lemma_ring_walk, position, ring_next, ring_walk,
};
