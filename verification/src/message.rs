//! Wire-level message shapes: the inbound signal and the outbound
//! messages the router can produce.
//!
//! Payload contents are opaque to the relay: `data` carries the
//! serialized payload through unmodified, and nothing here reads it.

use vstd::prelude::*;

verus! {

/// One inbound signal, as parsed off the wire.
///
/// `action` names the request; `room_id` is required for `join`;
/// `target` asks for direct delivery to one client; `data` is the opaque
/// negotiation payload; `sender` is the issuer's claimed identity
/// (routing decisions use the connection's own identity instead).
#[derive(Debug, Clone, PartialEq, Eq)]
pub struct SignalMessage {
    pub action: String,
    pub room_id: Option<String>,
    pub target: Option<String>,
    pub data: String,
    pub sender: String,
}

/// An outbound message produced by the router.
#[derive(Debug, Clone, PartialEq, Eq)]
pub enum OutboundMessage {
    /// Confirmation to the joiner: `{action:"joined", room_id, client_id, success:true}`.
    Joined { room_id: String, client_id: String },
    /// Confirmation to the leaver: `{action:"left", client_id, success:true}`.
    Left { client_id: String },
    /// Announce to a room's other occupants that a client arrived:
    /// `{action:"user-joined", room_id, client_id}`.
    UserJoined { room_id: String, client_id: String },
    /// Announce to a room's other occupants that a client left:
    /// `{action:"user-left", room_id, client_id}`.
    UserLeft { room_id: String, client_id: String },
    /// A relayed signal, forwarded verbatim.
    Relay(SignalMessage),
    /// Error reply when an inbound frame could not be parsed.
    MalformedInput { details: String },
    /// Error reply when a `join` request carries no room identifier.
    MissingRoomId,
    /// Error reply echoing an action outside the fixed vocabulary.
    UnknownAction { action: String },
}

/// One (recipient, outbound message) pair decided by the router.
#[derive(Debug, Clone, PartialEq, Eq)]
pub struct Delivery {
    pub recipient: String,
    pub message: OutboundMessage,
}

/// The actions that relay a payload without touching session state.
pub open spec fn is_relay_action(a: Seq<char>) -> bool {
    a == "offer"@ || a == "answer"@ || a == "ice-candidate"@
}

/// The router's fixed vocabulary: which branch of the dispatch table an
/// action name selects.
pub enum ActionKind {
    Join,
    Leave,
    Relay,
    Unknown,
}

/// Classifies an action name, in the router's dispatch order.
pub open spec fn action_kind(a: Seq<char>) -> ActionKind {
    if a == "join"@ {
        ActionKind::Join
    } else if a == "leave"@ {
        ActionKind::Leave
    } else if is_relay_action(a) {
        ActionKind::Relay
    } else {
        ActionKind::Unknown
    }
}

fn clone_opt_string(o: &Option<String>) -> (r: Option<String>)
    ensures
        r == *o,
{
    match o {
        Some(s) => Some(s.clone()),
        None => None,
    }
}

impl SignalMessage {
    /// An exact copy, so one signal can be fanned out to several recipients.
    pub fn duplicate(&self) -> (r: Self)
        ensures
            r == *self,
    {
        SignalMessage {
            action: self.action.clone(),
            room_id: clone_opt_string(&self.room_id),
            target: clone_opt_string(&self.target),
            data: self.data.clone(),
            sender: self.sender.clone(),
        }
    }
}

impl OutboundMessage {
    /// An exact copy, so one outbound message can be fanned out.
    pub fn duplicate(&self) -> (r: Self)
        ensures
            r == *self,
    {
        match self {
            OutboundMessage::Joined { room_id, client_id } => OutboundMessage::Joined {
                room_id: room_id.clone(),
                client_id: client_id.clone(),
            },
            OutboundMessage::Left { client_id } => OutboundMessage::Left {
                client_id: client_id.clone(),
            },
            OutboundMessage::UserJoined { room_id, client_id } => OutboundMessage::UserJoined {
                room_id: room_id.clone(),
                client_id: client_id.clone(),
            },
            OutboundMessage::UserLeft { room_id, client_id } => OutboundMessage::UserLeft {
                room_id: room_id.clone(),
                client_id: client_id.clone(),
            },
            OutboundMessage::Relay(m) => OutboundMessage::Relay(m.duplicate()),
            OutboundMessage::MalformedInput { details } => OutboundMessage::MalformedInput {
                details: details.clone(),
            },
            OutboundMessage::MissingRoomId => OutboundMessage::MissingRoomId,
            OutboundMessage::UnknownAction { action } => OutboundMessage::UnknownAction {
                action: action.clone(),
            },
        }
    }
}

} // verus!
