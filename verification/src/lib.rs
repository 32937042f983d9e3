//! A real-time collaboration backend: participants join a room, and the server
//! keeps the room's membership and the lock state of its shared objects, and
//! fans validated updates out to the other participants.

pub mod handlers;
pub mod ledger;
pub mod protocol;
pub mod registry;
pub mod rejection;
pub mod room;
pub mod rules;
pub mod text;
pub mod ws;

pub use crate::registry::Registry;
pub use crate::room::{Client, Room};
