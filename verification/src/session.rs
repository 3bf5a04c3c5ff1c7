//! What a session does with each thing that happens on its connection.
//!
//! A session owns one connection. It never touches the world: it turns
//! frames into messages for the world, and the payloads from its outbox into
//! frames. The waiting and the transport are the caller's; the decisions are
//! here.

use vstd::prelude::*;
use crate::protocol::{ack, ack_text, parse, parse_command, Parsed, Request};
use crate::wire::{be_bytes, encode_id};
use crate::world::WorldMsg;

verus! {

/// The kinds of frame a session tells apart.
#[derive(Clone, Copy, Debug, PartialEq, Eq)]
pub enum FrameKind {
    Text,
    Binary,
    Close,
    /// Any control or continuation frame that the transport lets through.
    Other,
}

/// What can happen to a session while it waits.
pub enum SessionEvent {
    /// A frame arrived from the client.
    Frame { kind: FrameKind, payload: Vec<u8> },
    /// Reading from the client failed.
    TransportError,
    /// The world put a payload into the outbox.
    Outbox { payload: Vec<u8> },
    /// The world dropped its end of the outbox.
    OutboxClosed,
}

/// What a session does next.
pub enum SessionAction {
    /// Send the message to the world and the reply to the client, as text.
    Submit { message: WorldMsg, reply: &'static str },
    /// Send the reply to the client, as text, and nothing to the world.
    Reject { reply: &'static str },
    /// Send the payload to the client as one binary frame.
    Deliver { payload: Vec<u8> },
    /// Go on waiting.
    Ignore,
    /// Stop waiting, send the message to the world and close the connection.
    Leave { message: WorldMsg },
}

/// The message that carries a client's request to the world.
pub open spec fn message_for(id: u32, request: Request) -> WorldMsg {
    match request {
        Request::SetInterest { center, radius } => WorldMsg::SetInterest { id, center, radius },
        Request::SetPosition { position } => WorldMsg::SetPosition { id, position },
        Request::SetRotation { rotation } => WorldMsg::SetRotation { id, rotation },
    }
}

/// Whether `action` is what the session of player `id` does on `event`.
///
/// A close frame, a transport error and a closed outbox all end the session
/// with a `Disconnect` for its own id. A text frame is read as a command:
/// a well-formed one goes to the world under the session's id and is
/// acknowledged, any other is answered with what is wrong with it and goes
/// nowhere. Commands come as text, so a binary frame is answered like an
/// unknown command. A payload from the outbox goes to the client unchanged.
pub open spec fn reacts(id: u32, event: SessionEvent, action: SessionAction) -> bool {
    match event {
        SessionEvent::Frame { kind: FrameKind::Close, .. } => action == (SessionAction::Leave {
            message: WorldMsg::Disconnect { id },
        }),
        SessionEvent::Frame { kind: FrameKind::Text, payload } => match parse(payload@) {
            Parsed::Accepted(request) => action matches SessionAction::Submit { message, reply }
                && message == message_for(id, request) && reply@ == ack_text(parse(payload@)),
            other => action matches SessionAction::Reject { reply } && reply@ == ack_text(other),
        },
        SessionEvent::Frame { kind: FrameKind::Binary, .. } => action matches SessionAction::Reject {
            reply,
        } && reply@ == ack_text(Parsed::Unknown),
        SessionEvent::Frame { kind: FrameKind::Other, .. } => action is Ignore,
        SessionEvent::TransportError => action == (SessionAction::Leave {
            message: WorldMsg::Disconnect { id },
        }),
        SessionEvent::Outbox { payload } => action matches SessionAction::Deliver { payload: out }
            && out@ == payload@,
        SessionEvent::OutboxClosed => action == (SessionAction::Leave {
            message: WorldMsg::Disconnect { id },
        }),
    }
}

/// The first frame a session sends: the id that the world assigned, as a
/// binary frame of four bytes.
pub fn greeting(id: u32) -> (payload: Vec<u8>)
    ensures
        payload@ == be_bytes(id),
{
    encode_id(id)
}

/// The message that carries a client's request to the world.
pub fn to_message(id: u32, request: Request) -> (message: WorldMsg)
    ensures
        message == message_for(id, request),
{
    match request {
        Request::SetInterest { center, radius } => WorldMsg::SetInterest { id, center, radius },
        Request::SetPosition { position } => WorldMsg::SetPosition { id, position },
        Request::SetRotation { rotation } => WorldMsg::SetRotation { id, rotation },
    }
}

/// Decides what the session of player `id` does on `event`.
pub fn react(id: u32, event: SessionEvent) -> (action: SessionAction)
    ensures
        reacts(id, event, action),
{
    match event {
        SessionEvent::Frame { kind, payload } => match kind {
            FrameKind::Close => SessionAction::Leave { message: WorldMsg::Disconnect { id } },
            FrameKind::Text => {
                let parsed = parse_command(payload.as_slice());
                match parsed {
                    Parsed::Accepted(request) => SessionAction::Submit {
                        message: to_message(id, request),
                        reply: ack(parsed),
                    },
                    _ => SessionAction::Reject { reply: ack(parsed) },
                }
            },
            FrameKind::Binary => SessionAction::Reject { reply: ack(Parsed::Unknown) },
            FrameKind::Other => SessionAction::Ignore,
        },
        SessionEvent::TransportError => SessionAction::Leave {
            message: WorldMsg::Disconnect { id },
        },
        SessionEvent::Outbox { payload } => SessionAction::Deliver { payload },
        SessionEvent::OutboxClosed => SessionAction::Leave { message: WorldMsg::Disconnect { id } },
    }
}

} // verus!
