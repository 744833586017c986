//! Decision and encoding core of a peer-to-peer chat: room identifiers,
//! the direct request/response protocol, message framing and the state
//! that the network event loop consults.

pub mod cbor;
pub mod command;
pub mod digest;
pub mod direct;
pub mod event;
pub mod hex;
pub mod peer;
pub mod qalam;
pub mod room;
pub mod text;
pub mod time;
pub mod utils;

pub use peer::PeerId;
pub use qalam::{CommandPlan, GossipError, JoinedRooms, QalamCore};
