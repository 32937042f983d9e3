//! The two ways into a room: joining one that exists, and opening a new one.

use vstd::prelude::*;
use crate::registry::Registry;
use crate::rejection::RoomNotFound;
use crate::ws::{Connection, Phase};

verus! {

/// Decides on a request to join the room `room_id`. Where the room exists, the
/// transport may be upgraded, and the connection that is returned is to be
/// opened on it. Where it does not, the request is turned away and the
/// transport is left alone.
pub fn join_handler(room_id: String, rooms: &Registry) -> (done: Result<Connection, RoomNotFound>)
    ensures
        done is Ok == rooms.has_room(room_id@),
        done matches Ok(connection) ==> connection.room() == room_id@ && connection.stage()
            == Phase::Connecting,
{
    if rooms.contains_room(room_id.as_str()) {
        Ok(Connection::new(room_id))
    } else {
        Err(RoomNotFound)
    }
}

/// The display name of a room that was opened without one.
pub open spec fn default_title() -> Seq<char> {
    "New Project"@
}

/// Opens a new room under a generated id, with the default display name, and
/// returns the connection that is to be opened on it.
pub fn new_handler(rooms: &mut Registry) -> (connection: Connection)
    ensures
        connection.stage() == Phase::Connecting,
        final(rooms).opened(*old(rooms), connection.room(), default_title()),
{
    let room_id = rooms.create_room("New Project".to_owned());
    Connection::new(room_id)
}

} // verus!
