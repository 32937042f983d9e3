use collab_rooms::protocol::{ActionType, DecodeError, MessageJSON, ObjectUpdate};
use collab_rooms::room::{JoinError, Outbound};
use collab_rooms::{Client, Registry};
use tokio::sync::mpsc::{unbounded_channel, UnboundedReceiver};
use warp::ws::Message;

type Inbox = UnboundedReceiver<Result<Message, warp::Error>>;

fn name(text: &str) -> String {
    text.to_string()
}

fn queue() -> (Outbound, Inbox) {
    unbounded_channel()
}

fn drain(inbox: &mut Inbox) -> Vec<String> {
    let mut texts = Vec::new();
    while let Ok(item) = inbox.try_recv() {
        match item {
            Ok(frame) => texts.push(frame.to_str().unwrap().to_string()),
            Err(_) => panic!("a failure was queued"),
        }
    }
    texts
}

fn member(rooms: &mut Registry, room_id: &str, id: &str) -> Inbox {
    let (sender, inbox) = queue();
    assert_eq!(rooms.join(room_id, Client { client_id: name(id), sender: Some(sender) }), Ok(()));
    inbox
}

fn lock(id: u32) -> MessageJSON {
    MessageJSON {
        version: 1,
        object_update: vec![ObjectUpdate { kind: ActionType::Lock, reference: vec![id], states: None }],
    }
}

#[test]
fn new_registry_has_no_room() {
    let rooms = Registry::new();
    assert_eq!(rooms.room_count(), 0);
    assert!(rooms.get_room("den").is_none());
    assert!(!rooms.contains_room("den"));
    assert!(!rooms.contains_room(""));
}

#[test]
fn created_room_is_empty_and_found_under_its_id() {
    let mut rooms = Registry::new();
    let id = rooms.create_room_with_id(name("den"), name("New Project"));
    assert_eq!(id, "den");
    assert_eq!(rooms.room_count(), 1);
    assert!(rooms.contains_room("den"));
    let room = rooms.get_room("den").unwrap();
    assert_eq!(room.room_id(), "den");
    assert_eq!(room.name(), "New Project");
    assert_eq!(room.client_count(), 0);
    assert!(room.ledger().get(0).is_none());
}

#[test]
fn generated_ids_resolve_and_differ() {
    let mut rooms = Registry::new();
    let first = rooms.create_room(name("one"));
    let second = rooms.create_room(name("two"));
    let third = rooms.create_room(name("three"));
    assert!(!first.is_empty());
    assert_ne!(first, second);
    assert_ne!(first, third);
    assert_ne!(second, third);
    assert_eq!(rooms.room_count(), 3);
    assert_eq!(rooms.get_room(&first).unwrap().name(), "one");
    assert_eq!(rooms.get_room(&second).unwrap().name(), "two");
    assert_eq!(rooms.get_room(&third).unwrap().name(), "three");
}

#[test]
fn generated_id_is_a_numbered_slug() {
    let mut rooms = Registry::new();
    let id = rooms.create_room(name("New Project"));
    let parts: Vec<&str> = id.split('-').collect();
    assert!(parts.len() >= 3);
    let number = parts[parts.len() - 1];
    assert_eq!(number.len(), 4);
    assert!(number.chars().all(|c| c.is_ascii_digit()));
    assert!(parts.iter().all(|part| !part.is_empty()));
}

#[test]
fn taken_candidate_is_lengthened_past_every_id() {
    let mut rooms = Registry::new();
    assert_eq!(rooms.create_room_with_id(name("den"), name("first")), "den");
    assert_eq!(rooms.create_room_with_id(name("attic"), name("second")), "attic");
    assert_eq!(rooms.create_room_with_id(name("den"), name("third")), "den000");
    assert_eq!(rooms.create_room_with_id(name("den"), name("fourth")), "den0000");
    assert_eq!(rooms.create_room_with_id(name("attic"), name("fifth")), "attic000");
    assert_eq!(rooms.room_count(), 5);
    assert_eq!(rooms.get_room("den").unwrap().name(), "first");
    assert_eq!(rooms.get_room("den000").unwrap().name(), "third");
    assert_eq!(rooms.get_room("den0000").unwrap().name(), "fourth");
    assert_eq!(rooms.get_room("attic000").unwrap().name(), "fifth");
}

#[test]
fn empty_candidate_is_an_id_like_any_other() {
    let mut rooms = Registry::new();
    assert_eq!(rooms.create_room_with_id(name(""), name("first")), "");
    assert_eq!(rooms.create_room_with_id(name(""), name("second")), "0");
    assert_eq!(rooms.get_room("").unwrap().name(), "first");
    assert_eq!(rooms.get_room("0").unwrap().name(), "second");
}

#[test]
fn rooms_outlast_later_creations_and_traffic() {
    let mut rooms = Registry::new();
    let den = rooms.create_room_with_id(name("den"), name("first"));
    let mut a = member(&mut rooms, &den, "a");
    assert!(rooms.receive(&den, "a", Ok(lock(1))).is_ok());
    for n in 0..20 {
        let id = rooms.create_room(format!("room {}", n));
        assert!(rooms.contains_room(&id));
        let room = rooms.get_room(&den).unwrap();
        assert_eq!(room.name(), "first");
        assert_eq!(room.client_count(), 1);
        assert!(room.has_client(&name("a")));
        assert_eq!(room.ledger().get(1).unwrap().lock_holder(), &Some(name("a")));
    }
    assert_eq!(rooms.room_count(), 21);
    assert!(rooms.leave(&den, "a"));
    assert!(rooms.contains_room(&den));
    assert_eq!(rooms.get_room(&den).unwrap().client_count(), 0);
    assert!(drain(&mut a).is_empty());
}

#[test]
fn join_of_a_missing_room_is_refused() {
    let mut rooms = Registry::new();
    rooms.create_room_with_id(name("den"), name("first"));
    assert_eq!(
        rooms.join("does-not-exist", Client { client_id: name("a"), sender: None }),
        Err(JoinError::RoomNotFound)
    );
    assert!(!rooms.contains_client(&name("a")));
    assert_eq!(rooms.room_count(), 1);
    assert_eq!(rooms.get_room("den").unwrap().client_count(), 0);
}

#[test]
fn client_ids_are_unique_across_rooms() {
    let mut rooms = Registry::new();
    rooms.create_room_with_id(name("den"), name("first"));
    rooms.create_room_with_id(name("attic"), name("second"));
    let _a = member(&mut rooms, "den", "a");
    assert!(rooms.contains_client(&name("a")));
    assert_eq!(
        rooms.join("attic", Client { client_id: name("a"), sender: None }),
        Err(JoinError::ClientIdInUse)
    );
    assert_eq!(
        rooms.join("den", Client { client_id: name("a"), sender: None }),
        Err(JoinError::ClientIdInUse)
    );
    assert_eq!(rooms.get_room("attic").unwrap().client_count(), 0);
    assert_eq!(rooms.get_room("den").unwrap().client_count(), 1);
    assert!(rooms.leave("den", "a"));
    assert!(!rooms.contains_client(&name("a")));
    assert_eq!(rooms.join("attic", Client { client_id: name("a"), sender: None }), Ok(()));
    assert!(rooms.get_room("attic").unwrap().has_client(&name("a")));
}

#[test]
fn leave_looks_in_the_named_room_only() {
    let mut rooms = Registry::new();
    rooms.create_room_with_id(name("den"), name("first"));
    rooms.create_room_with_id(name("attic"), name("second"));
    let _a = member(&mut rooms, "den", "a");
    assert!(!rooms.leave("attic", "a"));
    assert!(!rooms.leave("nowhere", "a"));
    assert!(rooms.get_room("den").unwrap().has_client(&name("a")));
    assert!(rooms.leave("den", "a"));
    assert!(!rooms.leave("den", "a"));
}

#[test]
fn rooms_keep_their_ledgers_apart() {
    let mut rooms = Registry::new();
    rooms.create_room_with_id(name("den"), name("first"));
    rooms.create_room_with_id(name("attic"), name("second"));
    let _a = member(&mut rooms, "den", "a");
    let _b = member(&mut rooms, "attic", "b");
    assert!(rooms.receive("den", "a", Ok(lock(1))).is_ok());
    assert!(rooms.receive("attic", "b", Ok(lock(1))).is_ok());
    assert_eq!(rooms.get_room("den").unwrap().ledger().get(1).unwrap().lock_holder(), &Some(name("a")));
    assert_eq!(rooms.get_room("attic").unwrap().ledger().get(1).unwrap().lock_holder(), &Some(name("b")));
}

#[test]
fn receive_for_a_missing_room_is_an_internal_failure() {
    let mut rooms = Registry::new();
    let error = rooms.receive("nowhere", "a", Ok(lock(1))).unwrap_err();
    assert_eq!(error.name, "InternalUnhandled");
    assert_eq!(error.status_code, 500);
    assert_eq!(error.message, "room is not registered");
}

#[test]
fn receive_of_a_client_from_another_room_is_refused() {
    let mut rooms = Registry::new();
    rooms.create_room_with_id(name("den"), name("first"));
    rooms.create_room_with_id(name("attic"), name("second"));
    let _a = member(&mut rooms, "den", "a");
    let error = rooms.receive("attic", "a", Ok(lock(1))).unwrap_err();
    assert_eq!(error.status_code, 500);
    assert!(rooms.get_room("attic").unwrap().ledger().get(1).is_none());
}

#[test]
fn receive_reports_a_frame_that_is_no_message() {
    let mut rooms = Registry::new();
    rooms.create_room_with_id(name("den"), name("first"));
    let _a = member(&mut rooms, "den", "a");
    let error = rooms.receive("den", "a", Err(DecodeError::Malformed(name("oops")))).unwrap_err();
    assert_eq!(error.name, "JSON Deserialize");
    assert_eq!(error.message, "Unable to parse received JSON\noops");
}

#[test]
fn broadcast_stays_inside_the_room() {
    let mut rooms = Registry::new();
    rooms.create_room_with_id(name("den"), name("first"));
    rooms.create_room_with_id(name("attic"), name("second"));
    let mut a = member(&mut rooms, "den", "a");
    let mut b = member(&mut rooms, "den", "b");
    let mut c = member(&mut rooms, "attic", "c");
    let report = rooms.broadcast("den", "a", "hello");
    assert_eq!(report.len(), 1);
    assert_eq!(report[0].recipient, "b");
    assert_eq!(report[0].payload, "[den] hello");
    assert!(drain(&mut a).is_empty());
    assert_eq!(drain(&mut b), vec![name("[den] hello")]);
    assert!(drain(&mut c).is_empty());
    assert!(rooms.broadcast("nowhere", "a", "hello").is_empty());
}

#[test]
fn notify_reaches_the_named_client() {
    let mut rooms = Registry::new();
    rooms.create_room_with_id(name("den"), name("first"));
    let mut a = member(&mut rooms, "den", "a");
    let delivery = rooms.notify("den", "a", "only you").unwrap();
    assert_eq!(delivery.recipient, "a");
    assert_eq!(delivery.payload, "only you");
    assert_eq!(drain(&mut a), vec![name("only you")]);
    assert!(rooms.notify("den", "z", "x").is_none());
    assert!(rooms.notify("nowhere", "a", "x").is_none());
}
