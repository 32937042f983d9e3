//! The object update protocol: the wire shapes of a client's message, the
//! errors that answer it, and the handler that applies a batch of actions to a
//! room's ledger.

use vstd::prelude::*;
use vstd::string::*;
use crate::ledger::{Failure, Ledger, LedgerView, ObjectId};
use crate::room::Room;
use crate::rules::{
    apply_action, apply_batch, apply_refs, lemma_batch_refused, lemma_refs_refused, states_len,
    step_one, ActionView, Refusal,
};
use crate::text::{decimal, decimal_text, same_text};

verus! {

/// What an action asks for.
#[derive(Clone, Copy, Debug, PartialEq, Eq, Structural)]
pub enum ActionType {
    /// Replace the state of the referenced objects.
    Update,
    /// Remove the referenced objects.
    Delete,
    /// Take the lock on the referenced objects.
    Lock,
    /// Give the lock on the referenced objects back.
    Unlock,
    /// Pass the action on to the other participants without touching the ledger.
    Broadcast,
}

/// The word that the wire uses for a kind of action.
pub open spec fn kind_name(kind: ActionType) -> Seq<char> {
    match kind {
        ActionType::Update => "Update"@,
        ActionType::Delete => "Delete"@,
        ActionType::Lock => "Lock"@,
        ActionType::Unlock => "Unlock"@,
        ActionType::Broadcast => "Broadcast"@,
    }
}

/// The kind of action that a word of the wire stands for, if any.
pub open spec fn kind_named(name: Seq<char>) -> Option<ActionType> {
    if name == "Update"@ {
        Some(ActionType::Update)
    } else if name == "Delete"@ {
        Some(ActionType::Delete)
    } else if name == "Lock"@ {
        Some(ActionType::Lock)
    } else if name == "Unlock"@ {
        Some(ActionType::Unlock)
    } else if name == "Broadcast"@ {
        Some(ActionType::Broadcast)
    } else {
        None
    }
}

impl ActionType {
    /// The word that the wire uses for this kind of action.
    pub fn name(&self) -> (name: &'static str)
        ensures
            name@ == kind_name(*self),
    {
        match self {
            ActionType::Update => "Update",
            ActionType::Delete => "Delete",
            ActionType::Lock => "Lock",
            ActionType::Unlock => "Unlock",
            ActionType::Broadcast => "Broadcast",
        }
    }

    /// Reads a kind of action from the word that the wire uses for it. Any
    /// other word is an unknown action.
    pub fn from_name(name: &str) -> (kind: Result<ActionType, DecodeError>)
        ensures
            match kind_named(name@) {
                Some(known) => kind matches Ok(k) && k == known,
                None => kind matches Err(failure) && failure is UnknownAction,
            },
    {
        if same_text(name, "Update") {
            Ok(ActionType::Update)
        } else if same_text(name, "Delete") {
            Ok(ActionType::Delete)
        } else if same_text(name, "Lock") {
            Ok(ActionType::Lock)
        } else if same_text(name, "Unlock") {
            Ok(ActionType::Unlock)
        } else if same_text(name, "Broadcast") {
            Ok(ActionType::Broadcast)
        } else {
            Err(DecodeError::UnknownAction)
        }
    }
}

/// One action of a client's message.
#[derive(Debug)]
pub struct ObjectUpdate {
    /// What the action asks for.
    pub kind: ActionType,
    /// The objects that it refers to, in order.
    pub reference: Vec<ObjectId>,
    /// The states that it carries, one for each referenced object of an update.
    pub states: Option<Vec<String>>,
}

/// The texts that a sequence of strings holds.
pub open spec fn texts(strings: Seq<String>) -> Seq<Seq<char>> {
    Seq::new(strings.len(), |i: int| strings[i]@)
}

impl ObjectUpdate {
    /// The action as the rules see it.
    pub open spec fn view(&self) -> ActionView {
        ActionView {
            kind: self.kind,
            reference: self.reference@,
            states: match self.states {
                Some(states) => Some(texts(states@)),
                None => None,
            },
        }
    }
}

/// The actions that a sequence of updates stands for.
pub open spec fn actions_of(updates: Seq<ObjectUpdate>) -> Seq<ActionView> {
    Seq::new(updates.len(), |i: int| updates[i]@)
}

/// A client's message: a protocol version and a batch of actions.
#[derive(Debug)]
pub struct MessageJSON {
    /// The protocol version that the client speaks.
    pub version: u32,
    /// The batch of actions, applied in order and all or none.
    pub object_update: Vec<ObjectUpdate>,
}

/// An error as it goes over the wire to the sender of a message.
pub struct ErrorView {
    /// The name of the kind of error.
    pub name: Seq<char>,
    /// The status code, in the manner of HTTP.
    pub status_code: u32,
    /// What went wrong, for a human reader.
    pub message: Seq<char>,
}

/// A structured error, sent only to the client whose message caused it.
#[derive(Debug)]
pub struct ErrorWS<'a> {
    /// The name of the kind of error.
    pub name: &'a str,
    /// The status code, in the manner of HTTP.
    pub status_code: u32,
    /// What went wrong, for a human reader.
    pub message: String,
}

impl<'a> ErrorWS<'a> {
    /// The error as it goes over the wire.
    pub open spec fn view(&self) -> ErrorView {
        ErrorView { name: self.name@, status_code: self.status_code, message: self.message@ }
    }
}

/// Why a text frame could not be read as a message.
#[derive(Debug)]
pub enum DecodeError {
    /// The frame is not a message of the wire's shape; the text is what the
    /// decoder said of it.
    Malformed(String),
    /// The frame holds an action of a kind that the protocol does not know.
    UnknownAction,
}

/// The error that reports a frame that could not be read as a message.
pub open spec fn decode_error(failure: DecodeError) -> ErrorView {
    match failure {
        DecodeError::Malformed(detail) => malformed_error(detail@),
        DecodeError::UnknownAction => unknown_action_error(),
    }
}

impl DecodeError {
    /// The error that tells the sender of the frame about the failure.
    pub fn to_error(&self) -> (error: ErrorWS<'static>)
        ensures
            error@ == decode_error(*self),
    {
        match self {
            DecodeError::Malformed(detail) => {
                let mut text = "Unable to parse received JSON\n".to_owned();
                text.append(detail.as_str());
                ErrorWS { name: "JSON Deserialize", status_code: 400, message: text }
            },
            DecodeError::UnknownAction => ErrorWS {
                name: "Unkown action",
                status_code: 400,
                message: "Action for object update is unkown".to_owned(),
            },
        }
    }
}

/// The name under which a failure is reported.
pub open spec fn failure_name(failure: Failure) -> Seq<char> {
    match failure {
        Failure::LockConflict => "LockConflict"@,
        Failure::NotHolder => "Forbidden"@,
        Failure::LockedByOther => "Forbidden"@,
        Failure::LengthMismatch => "ValidationError"@,
    }
}

/// The status code under which a failure is reported.
pub open spec fn failure_status(failure: Failure) -> u32 {
    match failure {
        Failure::LockConflict => 409,
        Failure::NotHolder => 403,
        Failure::LockedByOther => 403,
        Failure::LengthMismatch => 400,
    }
}

/// The words in which a failure is reported.
pub open spec fn failure_reason(failure: Failure) -> Seq<char> {
    match failure {
        Failure::LockConflict => "locked by another client"@,
        Failure::NotHolder => "not the holder"@,
        Failure::LockedByOther => "locked by another client"@,
        Failure::LengthMismatch => "length mismatch"@,
    }
}

/// The error that reports a refused batch: it names the failing action by its
/// place in the batch and by what it asked for.
pub open spec fn refusal_error(refusal: Refusal) -> ErrorView {
    ErrorView {
        name: failure_name(refusal.failure),
        status_code: failure_status(refusal.failure),
        message: "action "@ + decimal(refusal.index) + " ("@ + kind_name(refusal.kind) + "): "@
            + failure_reason(refusal.failure),
    }
}

/// The error that reports a message that could not be decoded; `detail` is what
/// the decoder said.
pub open spec fn malformed_error(detail: Seq<char>) -> ErrorView {
    ErrorView {
        name: "JSON Deserialize"@,
        status_code: 400,
        message: "Unable to parse received JSON\n"@ + detail,
    }
}

/// The error that reports an action of a kind that the protocol does not know.
pub open spec fn unknown_action_error() -> ErrorView {
    ErrorView {
        name: "Unkown action"@,
        status_code: 400,
        message: "Action for object update is unkown"@,
    }
}

/// The error that reports a message from a client that the room does not know.
pub open spec fn stranger_error() -> ErrorView {
    ErrorView {
        name: "InternalUnhandled"@,
        status_code: 500,
        message: "sender is not registered in the room"@,
    }
}

/// A refused batch, as the handler reports it.
#[derive(Clone, Copy, Debug, PartialEq, Eq, Structural)]
pub struct Rejection {
    /// The place of the failing action in the batch, counted from zero.
    pub index: usize,
    /// What the failing action asked for.
    pub kind: ActionType,
    /// Why it was refused.
    pub failure: Failure,
}

impl Rejection {
    /// The refusal that this rejection reports.
    pub open spec fn view(&self) -> Refusal {
        Refusal { index: self.index as nat, kind: self.kind, failure: self.failure }
    }

    /// The error that tells the sender of the batch about the rejection.
    pub fn to_error(&self) -> (error: ErrorWS<'static>)
        ensures
            error@ == refusal_error(self@),
    {
        let name = match self.failure {
            Failure::LockConflict => "LockConflict",
            Failure::NotHolder => "Forbidden",
            Failure::LockedByOther => "Forbidden",
            Failure::LengthMismatch => "ValidationError",
        };
        let status_code: u32 = match self.failure {
            Failure::LockConflict => 409,
            Failure::NotHolder => 403,
            Failure::LockedByOther => 403,
            Failure::LengthMismatch => 400,
        };
        let reason = match self.failure {
            Failure::LockConflict => "locked by another client",
            Failure::NotHolder => "not the holder",
            Failure::LockedByOther => "locked by another client",
            Failure::LengthMismatch => "length mismatch",
        };
        let mut message = "action ".to_owned();
        message.append(decimal_text(self.index).as_str());
        message.append(" (");
        message.append(self.kind.name());
        message.append("): ");
        message.append(reason);
        let error = ErrorWS { name, status_code, message };
        assert(error@.message =~= refusal_error(self@).message);
        error
    }
}

fn apply_action_to(ledger: &mut Ledger, who: &String, action: &ObjectUpdate) -> (done: Result<
    (),
    Failure,
>)
    ensures
        match apply_action(old(ledger)@, who@, action@) {
            Ok(next) => done is Ok && final(ledger)@ == next,
            Err(failure) => done == Err::<(), Failure>(failure),
        },
{
    let n = action.reference.len();
    let carried = match &action.states {
        Some(states) => states.len(),
        None => 0,
    };
    if action.kind == ActionType::Update && n != carried {
        return Err(Failure::LengthMismatch);
    }
    let ghost start = ledger@;
    let mut k: usize = 0;
    while k < n
        invariant
            k <= n,
            n == action.reference@.len(),
            start == old(ledger)@,
            action.kind == ActionType::Update ==> states_len(action@) == n,
            apply_refs(start, who@, action@, k as nat) == Ok::<LedgerView, Failure>(ledger@),
        decreases n - k,
    {
        let ghost before = ledger@;
        let id = action.reference[k];
        let step = match action.kind {
            ActionType::Lock => ledger.lock(who, id),
            ActionType::Unlock => ledger.unlock(who, id),
            ActionType::Delete => ledger.delete(who, id),
            ActionType::Broadcast => Ok(()),
            ActionType::Update => {
                let state = match &action.states {
                    Some(states) => states[k].clone(),
                    None => String::new(),
                };
                ledger.update(who, id, state)
            },
        };
        assert(apply_refs(start, who@, action@, (k + 1) as nat) == step_one(
            before,
            who@,
            action@,
            k as int,
        ));
        match step {
            Ok(()) => {},
            Err(failure) => {
                proof {
                    lemma_refs_refused(start, who@, action@, (k + 1) as nat, n as nat);
                }
                return Err(failure);
            },
        }
        k += 1;
    }
    Ok(())
}

impl Ledger {
    /// Applies a batch of actions on behalf of `who`, all or none: the ledger
    /// changes only if every action of the batch is accepted, and a refused
    /// batch reports its first failing action.
    pub fn apply(&mut self, who: &String, actions: &Vec<ObjectUpdate>) -> (done: Result<
        (),
        Rejection,
    >)
        ensures
            match apply_batch(old(self)@, who@, actions_of(actions@), actions@.len()) {
                Ok(next) => done is Ok && final(self)@ == next,
                Err(refusal) => done matches Err(rejection) && rejection@ == refusal
                    && final(self)@ == old(self)@,
            },
    {
        let mut work = self.duplicate();
        let ghost batch = actions_of(actions@);
        let mut i: usize = 0;
        while i < actions.len()
            invariant
                i <= actions@.len(),
                batch == actions_of(actions@),
                *self == *old(self),
                apply_batch(self@, who@, batch, i as nat) == Ok::<LedgerView, Refusal>(work@),
            decreases actions@.len() - i,
        {
            assert(batch[i as int] == actions@[i as int]@);
            let ghost before = work@;
            assert(apply_batch(self@, who@, batch, (i + 1) as nat) == match apply_action(
                before,
                who@,
                batch[i as int],
            ) {
                Ok(next) => Ok::<LedgerView, Refusal>(next),
                Err(failure) => Err(
                    Refusal { index: i as nat, kind: batch[i as int].kind, failure },
                ),
            });
            match apply_action_to(&mut work, who, &actions[i]) {
                Ok(()) => {},
                Err(failure) => {
                    proof {
                        lemma_batch_refused(
                            self@,
                            who@,
                            batch,
                            (i + 1) as nat,
                            actions@.len() as nat,
                        );
                    }
                    return Err(Rejection { index: i, kind: actions[i].kind, failure });
                },
            }
            i += 1;
        }
        *self = work;
        Ok(())
    }
}

/// Whether `done` is what handling the batch `updates` from `client_id` owes,
/// and `after` the room that it leaves: a batch that is accepted as a whole is
/// echoed and changes the ledger as `apply_batch` says; a batch with a refused
/// action, or from a client that is not registered, changes nothing and is
/// answered with an error.
pub open spec fn handled(
    before: Room,
    after: Room,
    client_id: Seq<char>,
    updates: Vec<ObjectUpdate>,
    done: Result<Vec<ObjectUpdate>, ErrorWS>,
) -> bool {
    &&& after.id() == before.id()
    &&& after.title() == before.title()
    &&& after.members() == before.members()
    &&& if !before.is_member(client_id) {
        &&& done matches Err(error)
        &&& error@ == stranger_error()
        &&& after.objects() == before.objects()
    } else {
        match apply_batch(before.objects(), client_id, actions_of(updates@), updates@.len()) {
            Ok(next) => {
                &&& done matches Ok(accepted)
                &&& accepted == updates
                &&& after.objects() == next
            },
            Err(refusal) => {
                &&& done matches Err(error)
                &&& error@ == refusal_error(refusal)
                &&& after.objects() == before.objects()
            },
        }
    }
}

/// Handles the batch of a decoded message on behalf of `client_id`: every
/// action is checked and applied in order against the ledger as the actions
/// before it left it, and the room's ledger changes only if all are accepted.
pub fn process_actions<'a>(client_id: &str, message_json: MessageJSON, room: &mut Room) -> (done:
    Result<Vec<ObjectUpdate>, ErrorWS<'a>>)
    ensures
        handled(*old(room), *final(room), client_id@, message_json.object_update, done),
{
    let who = client_id.to_owned();
    if !room.has_client(&who) {
        return Err(
            ErrorWS {
                name: "InternalUnhandled",
                status_code: 500,
                message: "sender is not registered in the room".to_owned(),
            },
        );
    }
    match room.apply(&who, &message_json.object_update) {
        Ok(()) => Ok(message_json.object_update),
        Err(rejection) => Err(rejection.to_error()),
    }
}

/// Handles one inbound text frame of `client_id`. `message` is what the decoder
/// made of the frame: the message, or why the frame could not be decoded. A
/// frame that could not be decoded changes nothing and is answered with an
/// error; a decoded message is handled as `process_actions` says.
pub fn receive<'a>(
    client_id: &str,
    client_room: &mut Room,
    message: Result<MessageJSON, DecodeError>,
) -> (done: Result<Vec<ObjectUpdate>, ErrorWS<'a>>)
    ensures
        match message {
            Ok(message_json) => handled(
                *old(client_room),
                *final(client_room),
                client_id@,
                message_json.object_update,
                done,
            ),
            Err(failure) => {
                &&& done matches Err(error)
                &&& error@ == decode_error(failure)
                &&& *final(client_room) == *old(client_room)
            },
        },
{
    match message {
        Ok(message_json) => process_actions(client_id, message_json, client_room),
        Err(failure) => Err(failure.to_error()),
    }
}

} // verus!
