use vstd::prelude::*;

use crate::peer::PeerId;
use crate::room::{ChatMessage, RoomId};

verus! {

/// What the network side tells the user of the chat.
#[derive(Debug)]
pub enum QalamEvent {
    /// A room was joined.
    RoomJoined { room: RoomId },
    /// A room was left.
    RoomLeft { room: RoomId },
    /// A message arrived in a room, or was sent to it from here.
    ChatMessageReceieved { room: RoomId, message: ChatMessage },
    /// A peer said who it is.
    PersonaReceived { peer: PeerId, persona: String },
}

} // verus!
