//! The life of one connection: it is opened into a room, reacts to each
//! inbound frame, and is closed when the transport ends.

use vstd::prelude::*;
use uuid::Uuid;
use crate::protocol::{decode_error, handled, DecodeError, ErrorWS, MessageJSON, ObjectUpdate};
use crate::registry::Registry;
use crate::room::{
    fan_out, notices, reaches, welcome_text, Client, ClientView, Delivery, JoinError, Notice,
    Outbound,
};
use crate::text::tagged;

verus! {

/// Draws a random id with `uuid::Uuid::new_v4` and writes it with the
/// formatter that `uuid::Uuid::to_simple` gives: 32 hexadecimal digits in
/// lower case, without hyphens. Only the length is claimed here. `new_v4` panics
/// where the operating system has no random numbers to give.
#[verifier::external_body]
fn random_client_id() -> (id: String)
    ensures
        id@.len() == 32,
{
    Uuid::new_v4().to_simple().to_string()
}

/// Where a connection stands.
#[derive(Clone, Copy, Debug, PartialEq, Eq, Structural)]
pub enum Phase {
    /// The transport is up, the client is not yet registered.
    Connecting,
    /// The client is registered in its room and its frames are handled.
    Active,
    /// The transport has ended, the client is still to be unregistered.
    Closing,
    /// The client is unregistered; nothing more happens.
    Closed,
}

/// What the transport reports of a connection.
#[derive(Debug)]
pub enum Event {
    /// A text frame came in; this is what the decoder made of it: the message,
    /// or why the frame could not be decoded.
    Text(Result<MessageJSON, DecodeError>),
    /// A frame came in that is not text.
    NotText,
    /// The transport failed to read.
    ReadError,
    /// The transport failed to write what was queued for the client.
    WriteError,
    /// The peer closed the stream.
    End,
}

/// What is to be done after a frame has been handled.
#[derive(Debug)]
pub enum Reaction {
    /// The batch was accepted: send it, encoded, to the other clients of the room.
    Broadcast(Vec<ObjectUpdate>),
    /// The frame was refused: send the error, encoded, to the sender alone.
    Reply(ErrorWS<'static>),
    /// The connection takes no more frames: stop reading and close it.
    Hangup,
}

/// What handling a frame came to, read off the reaction to it.
pub open spec fn outcome(reaction: Reaction) -> Result<Vec<ObjectUpdate>, ErrorWS<'static>> {
    match reaction {
        Reaction::Broadcast(accepted) => Ok(accepted),
        Reaction::Reply(error) => Err(error),
        Reaction::Hangup => arbitrary(),
    }
}

/// One connection: the client it stands for, the room it belongs to and the
/// phase it is in. A client belongs to one room for as long as it lives.
#[derive(Debug)]
pub struct Connection {
    client_id: String,
    room_id: String,
    phase: Phase,
}

impl Connection {
    /// The id of the client.
    pub closed spec fn client(&self) -> Seq<char> {
        self.client_id@
    }

    /// The id of the room.
    pub closed spec fn room(&self) -> Seq<char> {
        self.room_id@
    }

    /// The phase of the connection.
    pub closed spec fn stage(&self) -> Phase {
        self.phase
    }

    /// Whether the client of the connection is registered in its room.
    pub open spec fn registered(&self, rooms: Registry) -> bool {
        rooms.has_room(self.room()) && rooms.room(self.room()).is_member(self.client())
    }

    /// A connection for the room `room_id` with a freshly drawn client id,
    /// not yet registered.
    pub fn new(room_id: String) -> (connection: Connection)
        ensures
            connection.room() == room_id@,
            connection.client().len() == 32,
            connection.stage() == Phase::Connecting,
    {
        Connection { client_id: random_client_id(), room_id, phase: Phase::Connecting }
    }

    /// A connection of the client `client_id` for the room `room_id`, not yet
    /// registered.
    pub fn with_client_id(room_id: String, client_id: String) -> (connection: Connection)
        ensures
            connection.room() == room_id@,
            connection.client() == client_id@,
            connection.stage() == Phase::Connecting,
    {
        Connection { client_id, room_id, phase: Phase::Connecting }
    }

    /// The id of the client.
    pub fn client_id(&self) -> (id: &String)
        ensures
            id@ == self.client(),
    {
        &self.client_id
    }

    /// The id of the room.
    pub fn room_id(&self) -> (id: &String)
        ensures
            id@ == self.room(),
    {
        &self.room_id
    }

    /// The phase of the connection.
    pub fn phase(&self) -> (phase: Phase)
        ensures
            phase == self.stage(),
    {
        self.phase
    }

    /// Opens the connection: the welcome notice is pushed onto the client's
    /// queue, the client is registered in its room, and the connection is
    /// active. Where the room does not exist or the client's id is in use,
    /// nothing is pushed, nobody is registered, and the connection is closed.
    /// A connection that has been opened before stays as it is.
    pub fn open(&mut self, rooms: &mut Registry, sender: Option<Outbound>) -> (done: Result<
        Option<Delivery>,
        JoinError,
    >)
        ensures
            final(self).client() == old(self).client(),
            final(self).room() == old(self).room(),
            final(rooms).same_but(*old(rooms), old(self).room()),
            old(self).stage() != Phase::Connecting ==> {
                &&& done == Err::<Option<Delivery>, JoinError>(JoinError::NotConnecting)
                &&& final(self).stage() == old(self).stage()
                &&& final(rooms).rooms() == old(rooms).rooms()
            },
            old(self).stage() == Phase::Connecting && !old(rooms).has_room(old(self).room()) ==> {
                &&& done == Err::<Option<Delivery>, JoinError>(JoinError::RoomNotFound)
                &&& final(self).stage() == Phase::Closed
                &&& final(rooms).rooms() == old(rooms).rooms()
            },
            old(self).stage() == Phase::Connecting && old(rooms).has_room(old(self).room())
                && old(rooms).knows_client(old(self).client()) ==> {
                &&& done == Err::<Option<Delivery>, JoinError>(JoinError::ClientIdInUse)
                &&& final(self).stage() == Phase::Closed
                &&& final(rooms).rooms() == old(rooms).rooms()
            },
            old(self).stage() == Phase::Connecting && old(rooms).has_room(old(self).room())
                && !old(rooms).knows_client(old(self).client()) ==> {
                &&& final(self).stage() == Phase::Active
                &&& done matches Ok(welcome)
                &&& welcome is Some == sender is Some
                &&& welcome matches Some(delivery) ==> delivery.notice() == (Notice {
                    recipient: old(self).client(),
                    payload: welcome_text(old(self).room()),
                })
                &&& final(rooms).room(old(self).room()).admitted(
                    old(rooms).room(old(self).room()),
                    ClientView { id: old(self).client(), reachable: sender is Some },
                )
            },
    {
        if self.phase != Phase::Connecting {
            return Err(JoinError::NotConnecting);
        }
        if !rooms.contains_room(self.room_id.as_str()) {
            self.phase = Phase::Closed;
            return Err(JoinError::RoomNotFound);
        }
        if rooms.contains_client(&self.client_id) {
            self.phase = Phase::Closed;
            return Err(JoinError::ClientIdInUse);
        }
        let client = Client { client_id: self.client_id.clone(), sender };
        let welcome = client.welcome(self.room_id.as_str());
        match rooms.join(self.room_id.as_str(), client) {
            Ok(()) => {
                self.phase = Phase::Active;
                Ok(welcome)
            },
            Err(error) => {
                self.phase = Phase::Closed;
                Err(error)
            },
        }
    }

    /// Pushes `message`, tagged with the room's id, onto the queue of every
    /// other client of the room, and reports each push. A connection that is
    /// not active pushes nothing.
    pub fn broadcast(&self, rooms: &Registry, message: &str) -> (report: Vec<Delivery>)
        ensures
            self.stage() == Phase::Active && rooms.has_room(self.room()) ==> notices(report@)
                == fan_out(
                rooms.room(self.room()).members(),
                self.client(),
                tagged(self.room(), message@),
            ),
            !(self.stage() == Phase::Active && rooms.has_room(self.room())) ==> report@.len() == 0,
    {
        if self.phase == Phase::Active {
            rooms.broadcast(self.room_id.as_str(), self.client_id.as_str(), message)
        } else {
            Vec::new()
        }
    }

    /// Pushes `text` onto the client's own queue. A connection that is not
    /// active pushes nothing.
    pub fn reply(&self, rooms: &Registry, text: &str) -> (sent: Option<Delivery>)
        ensures
            sent is Some == (self.stage() == Phase::Active && rooms.has_room(self.room())
                && reaches(rooms.room(self.room()).members(), self.client())),
            sent matches Some(delivery) ==> delivery.notice() == (Notice {
                recipient: self.client(),
                payload: text@,
            }),
    {
        if self.phase == Phase::Active {
            rooms.notify(self.room_id.as_str(), self.client_id.as_str(), text)
        } else {
            None
        }
    }

    /// Closes the connection. Where it had been opened, its client is
    /// unregistered and every lock that the client holds is released; a client
    /// that is already gone is passed over in silence.
    pub fn close(&mut self, rooms: &mut Registry) -> (left: bool)
        ensures
            final(self).client() == old(self).client(),
            final(self).room() == old(self).room(),
            final(self).stage() == Phase::Closed,
            final(rooms).same_but(*old(rooms), old(self).room()),
            !(old(self).stage() == Phase::Active || old(self).stage() == Phase::Closing) ==> !left
                && final(rooms).rooms() == old(rooms).rooms(),
            !old(rooms).has_room(old(self).room()) ==> !left && final(rooms).rooms() == old(
                rooms,
            ).rooms(),
            (old(self).stage() == Phase::Active || old(self).stage() == Phase::Closing) && old(
                rooms,
            ).has_room(old(self).room()) ==> {
                &&& left == old(rooms).room(old(self).room()).is_member(old(self).client())
                &&& final(rooms).room(old(self).room()).without(
                    old(rooms).room(old(self).room()),
                    old(self).client(),
                )
            },
    {
        let opened = self.phase == Phase::Active || self.phase == Phase::Closing;
        self.phase = Phase::Closed;
        if opened {
            rooms.leave(self.room_id.as_str(), self.client_id.as_str())
        } else {
            false
        }
    }
}

/// Handles what the transport reports of an active connection.
///
/// A text frame is handled as the registry's `receive` says: an accepted batch
/// is to be broadcast, a refused or undecodable one is answered to the sender,
/// and the connection stays active. Anything else (a frame that is not text, a
/// failure to read or to write, the end of the stream), and a text frame of a
/// client that is not registered in its room, ends the reading: the connection
/// is closing, and nothing else changes. A connection that is not active
/// reacts to nothing.
pub fn client_connection(connection: &mut Connection, rooms: &mut Registry, event: Event) -> (reaction:
    Reaction)
    ensures
        final(connection).client() == old(connection).client(),
        final(connection).room() == old(connection).room(),
        final(rooms).same_but(*old(rooms), old(connection).room()),
        old(connection).stage() != Phase::Active ==> {
            &&& reaction is Hangup
            &&& final(connection).stage() == old(connection).stage()
            &&& final(rooms).rooms() == old(rooms).rooms()
        },
        old(connection).stage() == Phase::Active && !(event is Text && old(connection).registered(
            *old(rooms),
        )) ==> {
            &&& reaction is Hangup
            &&& final(connection).stage() == Phase::Closing
            &&& final(rooms).rooms() == old(rooms).rooms()
        },
        old(connection).stage() == Phase::Active && old(connection).registered(*old(rooms)) ==> (
        event matches Event::Text(message) ==> {
            &&& final(connection).stage() == Phase::Active
            &&& !(reaction is Hangup)
            &&& match message {
                Ok(message_json) => handled(
                    old(rooms).room(old(connection).room()),
                    final(rooms).room(old(connection).room()),
                    old(connection).client(),
                    message_json.object_update,
                    outcome(reaction),
                ),
                Err(failure) => {
                    &&& reaction matches Reaction::Reply(error)
                    &&& error@ == decode_error(failure)
                    &&& final(rooms).rooms() == old(rooms).rooms()
                },
            }
        }),
{
    if connection.phase != Phase::Active {
        return Reaction::Hangup;
    }
    match event {
        Event::Text(message) => {
            let registered = match rooms.get_room(connection.room_id.as_str()) {
                Some(room) => room.has_client(&connection.client_id),
                None => false,
            };
            if !registered {
                connection.phase = Phase::Closing;
                return Reaction::Hangup;
            }
            match rooms.receive(
                connection.room_id.as_str(),
                connection.client_id.as_str(),
                message,
            ) {
                Ok(accepted) => Reaction::Broadcast(accepted),
                Err(error) => Reaction::Reply(error),
            }
        },
        _ => {
            connection.phase = Phase::Closing;
            Reaction::Hangup
        },
    }
}

} // verus!
