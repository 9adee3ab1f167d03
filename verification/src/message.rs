use vstd::prelude::*;

use crate::block::{Block, BlockID, BlockModel};

verus! {

/// The network address of a peer.
#[derive(Clone, Copy, PartialEq, Eq, Structural, Debug)]
pub enum Addr {
    V4 { ip: u32, port: u16 },
    V6 { ip6: u128, port: u16, flowinfo: u32, scope_id: u32 },
}

/// An event of the protocol, exchanged between peers.
pub enum Event {
    /// A peer (the address) proposes a block for the next round.
    ProposeBlock(Block, Addr),
    /// A peer acknowledges the block with this identifier.
    AckBlock(BlockID),
    /// The block with this identifier is validated.
    ValidateBlock(BlockID),
}

/// The abstract content of an event.
pub enum EventModel {
    ProposeBlock(BlockModel, Addr),
    AckBlock(Seq<u8>),
    ValidateBlock(Seq<u8>),
}

impl View for Event {
    type V = EventModel;

    open spec fn view(&self) -> EventModel {
        match self {
            Event::ProposeBlock(b, a) => EventModel::ProposeBlock(b@, *a),
            Event::AckBlock(id) => EventModel::AckBlock(id@),
            Event::ValidateBlock(id) => EventModel::ValidateBlock(id@),
        }
    }
}

impl Clone for Event {
    fn clone(&self) -> (r: Self)
        ensures
            r@ == self@,
    {
        match self {
            Event::ProposeBlock(b, a) => Event::ProposeBlock(b.clone(), *a),
            Event::AckBlock(id) => Event::AckBlock(id.clone()),
            Event::ValidateBlock(id) => Event::ValidateBlock(id.clone()),
        }
    }
}

/// What a peer receives: an event of the protocol, or a client's request to
/// put data in a new block.
pub enum Message {
    Event(Event),
    Request(Vec<u8>),
}

/// The abstract content of a message.
pub enum MessageModel {
    Event(EventModel),
    Request(Seq<u8>),
}

impl View for Message {
    type V = MessageModel;

    open spec fn view(&self) -> MessageModel {
        match self {
            Message::Event(e) => MessageModel::Event(e@),
            Message::Request(d) => MessageModel::Request(d@),
        }
    }
}

} // verus!
