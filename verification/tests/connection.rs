use collab_rooms::handlers::{join_handler, new_handler};
use collab_rooms::protocol::{ActionType, DecodeError, MessageJSON, ObjectUpdate};
use collab_rooms::rejection::{handle_rejection, RoomNotFound};
use collab_rooms::room::{JoinError, Outbound};
use collab_rooms::ws::{client_connection, Connection, Event, Phase, Reaction};
use collab_rooms::{Client, Registry};
use tokio::sync::mpsc::{unbounded_channel, UnboundedReceiver};
use warp::ws::Message;

type Inbox = UnboundedReceiver<Result<Message, warp::Error>>;

fn name(text: &str) -> String {
    text.to_string()
}

fn queue() -> (Outbound, Inbox) {
    unbounded_channel()
}

fn drain(inbox: &mut Inbox) -> Vec<String> {
    let mut texts = Vec::new();
    while let Ok(item) = inbox.try_recv() {
        match item {
            Ok(frame) => texts.push(frame.to_str().unwrap().to_string()),
            Err(_) => panic!("a failure was queued"),
        }
    }
    texts
}

fn den() -> Registry {
    let mut rooms = Registry::new();
    rooms.create_room_with_id(name("den"), name("New Project"));
    rooms
}

fn opened(rooms: &mut Registry, id: &str) -> (Connection, Inbox) {
    let (sender, mut inbox) = queue();
    let mut connection = Connection::with_client_id(name("den"), name(id));
    assert!(connection.open(rooms, Some(sender)).is_ok());
    assert_eq!(drain(&mut inbox), vec![name("[den] Connected")]);
    (connection, inbox)
}

fn text(actions: Vec<ObjectUpdate>) -> Event {
    Event::Text(Ok(MessageJSON { version: 1, object_update: actions }))
}

fn lock(id: u32) -> ObjectUpdate {
    ObjectUpdate { kind: ActionType::Lock, reference: vec![id], states: None }
}

#[test]
fn drawn_client_id_is_thirty_two_hex_digits() {
    let connection = Connection::new(name("den"));
    let id = connection.client_id();
    assert_eq!(id.chars().count(), 32);
    assert!(id.chars().all(|c| c.is_ascii_digit() || ('a'..='f').contains(&c)));
    assert_eq!(connection.room_id(), "den");
    assert_eq!(connection.phase(), Phase::Connecting);
}

#[test]
fn drawn_client_ids_differ() {
    let first = Connection::new(name("den"));
    let second = Connection::new(name("den"));
    assert_ne!(first.client_id(), second.client_id());
}

#[test]
fn open_greets_and_registers() {
    let mut rooms = den();
    let (sender, mut inbox) = queue();
    let mut connection = Connection::with_client_id(name("den"), name("a"));
    assert_eq!(connection.phase(), Phase::Connecting);
    let welcome = connection.open(&mut rooms, Some(sender)).unwrap().unwrap();
    assert_eq!(welcome.recipient, "a");
    assert_eq!(welcome.payload, "[den] Connected");
    assert!(welcome.accepted);
    assert_eq!(connection.phase(), Phase::Active);
    assert_eq!(connection.client_id(), "a");
    assert_eq!(connection.room_id(), "den");
    assert!(rooms.get_room("den").unwrap().has_client(&name("a")));
    assert_eq!(drain(&mut inbox), vec![name("[den] Connected")]);
}

#[test]
fn open_with_a_drawn_id_registers_that_id() {
    let mut rooms = den();
    let (sender, mut inbox) = queue();
    let mut connection = Connection::new(name("den"));
    assert!(connection.open(&mut rooms, Some(sender)).is_ok());
    assert_eq!(connection.phase(), Phase::Active);
    assert!(rooms.get_room("den").unwrap().has_client(connection.client_id()));
    assert_eq!(drain(&mut inbox), vec![name("[den] Connected")]);
}

#[test]
fn open_without_queue_registers_in_silence() {
    let mut rooms = den();
    let mut connection = Connection::with_client_id(name("den"), name("a"));
    assert!(connection.open(&mut rooms, None).unwrap().is_none());
    assert_eq!(connection.phase(), Phase::Active);
    assert!(rooms.get_room("den").unwrap().has_client(&name("a")));
}

#[test]
fn open_on_a_missing_room_registers_nobody() {
    let mut rooms = den();
    let (sender, mut inbox) = queue();
    let mut connection = Connection::with_client_id(name("does-not-exist"), name("a"));
    assert_eq!(connection.open(&mut rooms, Some(sender)).unwrap_err(), JoinError::RoomNotFound);
    assert_eq!(connection.phase(), Phase::Closed);
    assert!(!rooms.contains_client(&name("a")));
    assert_eq!(rooms.room_count(), 1);
    assert!(drain(&mut inbox).is_empty());
}

#[test]
fn open_with_an_id_in_use_registers_nobody_and_leaves_the_other_alone() {
    let mut rooms = den();
    let (_first, _inbox) = opened(&mut rooms, "a");
    let (sender, mut inbox) = queue();
    let mut second = Connection::with_client_id(name("den"), name("a"));
    assert_eq!(second.open(&mut rooms, Some(sender)).unwrap_err(), JoinError::ClientIdInUse);
    assert_eq!(second.phase(), Phase::Closed);
    assert!(drain(&mut inbox).is_empty());
    assert!(!second.close(&mut rooms));
    assert!(rooms.get_room("den").unwrap().has_client(&name("a")));
}

#[test]
fn open_happens_once() {
    let mut rooms = den();
    let (mut connection, mut inbox) = opened(&mut rooms, "a");
    let (sender, mut other) = queue();
    assert_eq!(connection.open(&mut rooms, Some(sender)).unwrap_err(), JoinError::NotConnecting);
    assert_eq!(connection.phase(), Phase::Active);
    assert_eq!(rooms.get_room("den").unwrap().client_count(), 1);
    assert!(drain(&mut inbox).is_empty());
    assert!(drain(&mut other).is_empty());
}

#[test]
fn accepted_batch_is_to_be_broadcast() {
    let mut rooms = den();
    let (mut a, mut inbox_a) = opened(&mut rooms, "a");
    let (_b, mut inbox_b) = opened(&mut rooms, "b");
    let reaction = client_connection(&mut a, &mut rooms, text(vec![lock(1)]));
    let accepted = match reaction {
        Reaction::Broadcast(accepted) => accepted,
        _ => panic!("the batch was not accepted"),
    };
    assert_eq!(accepted.len(), 1);
    assert_eq!(accepted[0].kind, ActionType::Lock);
    assert_eq!(accepted[0].reference, vec![1]);
    assert_eq!(a.phase(), Phase::Active);
    assert_eq!(
        rooms.get_room("den").unwrap().ledger().get(1).unwrap().lock_holder(),
        &Some(name("a"))
    );

    let report = a.broadcast(&rooms, "[{\"type\":\"Lock\"}]");
    assert_eq!(report.len(), 1);
    assert_eq!(report[0].recipient, "b");
    assert!(drain(&mut inbox_a).is_empty());
    assert_eq!(drain(&mut inbox_b), vec![name("[den] [{\"type\":\"Lock\"}]")]);
}

#[test]
fn refused_batch_is_answered_to_the_sender_alone() {
    let mut rooms = den();
    let (mut a, mut inbox_a) = opened(&mut rooms, "a");
    let (mut b, mut inbox_b) = opened(&mut rooms, "b");
    assert!(matches!(
        client_connection(&mut a, &mut rooms, text(vec![lock(1)])),
        Reaction::Broadcast(_)
    ));
    let error = match client_connection(&mut b, &mut rooms, text(vec![lock(1)])) {
        Reaction::Reply(error) => error,
        _ => panic!("the batch was not refused"),
    };
    assert_eq!(error.name, "LockConflict");
    assert_eq!(error.status_code, 409);
    assert_eq!(b.phase(), Phase::Active);

    let delivery = b.reply(&rooms, "{\"name\":\"LockConflict\"}").unwrap();
    assert_eq!(delivery.recipient, "b");
    assert!(delivery.accepted);
    assert!(drain(&mut inbox_a).is_empty());
    assert_eq!(drain(&mut inbox_b), vec![name("{\"name\":\"LockConflict\"}")]);
}

#[test]
fn undecodable_frame_is_answered_and_the_connection_goes_on() {
    let mut rooms = den();
    let (mut a, _inbox) = opened(&mut rooms, "a");
    let frame = Event::Text(Err(DecodeError::Malformed(name("oops"))));
    let error = match client_connection(&mut a, &mut rooms, frame) {
        Reaction::Reply(error) => error,
        _ => panic!("the frame was not answered"),
    };
    assert_eq!(error.name, "JSON Deserialize");
    assert_eq!(error.status_code, 400);
    assert_eq!(error.message, "Unable to parse received JSON\noops");
    assert_eq!(a.phase(), Phase::Active);

    let unknown = match client_connection(&mut a, &mut rooms, Event::Text(Err(DecodeError::UnknownAction))) {
        Reaction::Reply(error) => error,
        _ => panic!("the frame was not answered"),
    };
    assert_eq!(unknown.name, "Unkown action");
    assert_eq!(a.phase(), Phase::Active);
    assert!(matches!(
        client_connection(&mut a, &mut rooms, text(vec![lock(1)])),
        Reaction::Broadcast(_)
    ));
}

#[test]
fn end_of_the_transport_ends_the_reading() {
    for event in [Event::NotText, Event::ReadError, Event::WriteError, Event::End] {
        let mut rooms = den();
        let (mut a, _inbox) = opened(&mut rooms, "a");
        assert!(matches!(client_connection(&mut a, &mut rooms, event), Reaction::Hangup));
        assert_eq!(a.phase(), Phase::Closing);
        assert!(rooms.get_room("den").unwrap().has_client(&name("a")));
        assert!(matches!(
            client_connection(&mut a, &mut rooms, text(vec![lock(1)])),
            Reaction::Hangup
        ));
        assert_eq!(a.phase(), Phase::Closing);
        assert!(rooms.get_room("den").unwrap().ledger().get(1).is_none());
        assert!(a.close(&mut rooms));
        assert_eq!(a.phase(), Phase::Closed);
        assert!(!rooms.get_room("den").unwrap().has_client(&name("a")));
    }
}

#[test]
fn frame_of_an_unregistered_client_ends_the_reading() {
    let mut rooms = den();
    let (mut a, _inbox) = opened(&mut rooms, "a");
    assert!(rooms.leave("den", "a"));
    assert!(matches!(
        client_connection(&mut a, &mut rooms, text(vec![lock(1)])),
        Reaction::Hangup
    ));
    assert_eq!(a.phase(), Phase::Closing);
    assert!(rooms.get_room("den").unwrap().ledger().get(1).is_none());
    assert!(!a.close(&mut rooms));
    assert_eq!(a.phase(), Phase::Closed);
}

#[test]
fn connection_that_was_never_opened_reacts_to_nothing() {
    let mut rooms = den();
    let mut a = Connection::with_client_id(name("den"), name("a"));
    assert!(matches!(
        client_connection(&mut a, &mut rooms, text(vec![lock(1)])),
        Reaction::Hangup
    ));
    assert_eq!(a.phase(), Phase::Connecting);
    assert!(a.broadcast(&rooms, "x").is_empty());
    assert!(a.reply(&rooms, "x").is_none());
    assert!(!a.close(&mut rooms));
    assert_eq!(a.phase(), Phase::Closed);
}

#[test]
fn close_unregisters_and_releases_locks() {
    let mut rooms = den();
    let (mut a, _inbox_a) = opened(&mut rooms, "a");
    let (mut b, _inbox_b) = opened(&mut rooms, "b");
    assert!(matches!(
        client_connection(&mut a, &mut rooms, text(vec![lock(1)])),
        Reaction::Broadcast(_)
    ));
    assert!(a.close(&mut rooms));
    assert_eq!(a.phase(), Phase::Closed);
    assert!(!rooms.contains_client(&name("a")));
    assert_eq!(rooms.get_room("den").unwrap().ledger().get(1).unwrap().lock_holder(), &None);
    assert!(matches!(
        client_connection(&mut b, &mut rooms, text(vec![lock(1)])),
        Reaction::Broadcast(_)
    ));
    assert!(!a.close(&mut rooms));
    assert_eq!(a.phase(), Phase::Closed);
    assert!(rooms.contains_client(&name("b")));
}

#[test]
fn closed_connection_gets_no_more_broadcasts() {
    let mut rooms = den();
    let (a, mut inbox_a) = opened(&mut rooms, "a");
    let (mut b, mut inbox_b) = opened(&mut rooms, "b");
    let (_c, mut inbox_c) = opened(&mut rooms, "c");
    assert!(matches!(client_connection(&mut b, &mut rooms, Event::End), Reaction::Hangup));
    assert!(b.close(&mut rooms));
    let report = a.broadcast(&rooms, "after");
    assert_eq!(report.len(), 1);
    assert_eq!(report[0].recipient, "c");
    assert!(report[0].accepted);
    assert!(drain(&mut inbox_a).is_empty());
    assert!(drain(&mut inbox_b).is_empty());
    assert_eq!(drain(&mut inbox_c), vec![name("[den] after")]);
    assert!(b.broadcast(&rooms, "from the grave").is_empty());
    assert!(b.reply(&rooms, "x").is_none());
    assert!(drain(&mut inbox_a).is_empty());
    assert!(drain(&mut inbox_c).is_empty());
}

#[test]
fn join_of_a_missing_room_is_answered_with_404() {
    let rooms = den();
    let refused = join_handler(name("does-not-exist"), &rooms).unwrap_err();
    assert_eq!(refused, RoomNotFound);
    let reply = handle_rejection(refused.rejected());
    assert_eq!(reply.code, 404);
    assert_eq!(reply.message, "ROOM NOT_FOUND");
    assert_eq!(rooms.room_count(), 1);
    assert_eq!(rooms.get_room("den").unwrap().client_count(), 0);
}

#[test]
fn join_of_an_existing_room_yields_a_connection_to_open() {
    let mut rooms = den();
    let mut connection = join_handler(name("den"), &rooms).unwrap();
    assert_eq!(connection.room_id(), "den");
    assert_eq!(connection.phase(), Phase::Connecting);
    assert_eq!(connection.client_id().chars().count(), 32);
    assert_eq!(rooms.get_room("den").unwrap().client_count(), 0);
    let (sender, mut inbox) = queue();
    assert!(connection.open(&mut rooms, Some(sender)).is_ok());
    assert_eq!(drain(&mut inbox), vec![name("[den] Connected")]);
}

#[test]
fn new_room_gets_the_default_name() {
    let mut rooms = den();
    let mut connection = new_handler(&mut rooms);
    assert_eq!(connection.phase(), Phase::Connecting);
    assert_eq!(rooms.room_count(), 2);
    let id = connection.room_id().clone();
    assert_ne!(id, "den");
    {
        let room = rooms.get_room(&id).unwrap();
        assert_eq!(room.name(), "New Project");
        assert_eq!(room.client_count(), 0);
    }
    let (sender, mut inbox) = queue();
    assert!(connection.open(&mut rooms, Some(sender)).is_ok());
    assert_eq!(drain(&mut inbox), vec![format!("[{}] Connected", id)]);
    assert!(join_handler(id, &rooms).is_ok());
}

#[test]
fn client_struct_is_plain_data() {
    let client = Client { client_id: name("a"), sender: None };
    assert_eq!(client.client_id, "a");
    assert!(client.sender.is_none());
}
