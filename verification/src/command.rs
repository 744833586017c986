use vstd::prelude::*;

use crate::peer::PeerId;
use crate::room::RoomId;

verus! {

/// What the user of the chat asks of the network side.
#[derive(Debug)]
pub enum QalamCommand {
    /// Stop the event loop.
    Shutdown,
    /// Join the public room with this name.
    JoinRoom { name: String },
    /// Leave a room.
    LeaveRoom { room: RoomId },
    /// Send a message of these lines to a room.
    SendRoomMessage { room: RoomId, from: PeerId, message: Vec<String> },
    /// Ask a peer who it is.
    RequestPersona { peer: PeerId },
}

} // verus!
