//! A room: its participants, their outbound queues and the ledger they share.

use vstd::prelude::*;
use tokio::sync::mpsc::UnboundedSender;
use warp::ws::Message;
use crate::ledger::{holders_among, released, Ledger, LedgerView, ObjectId, ObjectView};
use crate::protocol::{actions_of, ObjectUpdate, Rejection};
use crate::rules::{apply_batch, lemma_batch_holders};
use crate::text::{tag_message, tagged};

verus! {

/// `tokio::sync::mpsc::UnboundedSender`, the sending half of an unbounded
/// channel. Nothing is claimed of what a value holds.
#[verifier::external_type_specification]
#[verifier::external_body]
#[verifier::reject_recursive_types(T)]
pub struct ExUnboundedSender<T>(UnboundedSender<T>);

/// `warp::ws::Message`, one websocket frame. Nothing is claimed of what a value holds.
#[verifier::external_type_specification]
#[verifier::external_body]
pub struct ExMessage(Message);

/// `warp::Error`, a failure of the transport. Nothing is claimed of what a value holds.
#[verifier::external_type_specification]
#[verifier::external_body]
pub struct ExTransportError(warp::Error);

/// The handle to a client's outbound delivery queue.
pub type Outbound = UnboundedSender<Result<Message, warp::Error>>;

/// Calls `warp::ws::Message::text` on `text` and hands the frame to
/// `tokio::sync::mpsc::UnboundedSender::send`, which never blocks. The result
/// says whether the queue took the frame; a queue whose receiving half is
/// closed or gone takes none, so nothing is promised of the result.
#[verifier::external_body]
fn push_text(sender: &Outbound, text: &str) -> (accepted: bool) {
    sender.send(Ok(Message::text(text))).is_ok()
}

/// A participant as the rules see it.
pub struct ClientView {
    /// The client's id.
    pub id: Seq<char>,
    /// Whether the client has an outbound queue.
    pub reachable: bool,
}

/// A connected participant: its id and the handle to its outbound queue.
#[derive(Debug)]
pub struct Client {
    /// The id of the client, unique among all clients of all rooms.
    pub client_id: String,
    /// The handle to the client's outbound queue.
    pub sender: Option<Outbound>,
}

impl Client {
    /// The participant as the rules see it.
    pub open spec fn view(&self) -> ClientView {
        ClientView { id: self.client_id@, reachable: self.sender is Some }
    }

    /// Pushes `text` onto the client's queue, if it has one.
    pub fn notify(&self, text: &str) -> (sent: Option<Delivery>)
        ensures
            sent is Some == self@.reachable,
            sent matches Some(delivery) ==> delivery.notice() == (Notice {
                recipient: self@.id,
                payload: text@,
            }),
    {
        match &self.sender {
            Some(sender) => {
                let accepted = push_text(sender, text);
                Some(
                    Delivery {
                        recipient: self.client_id.clone(),
                        payload: text.to_owned(),
                        accepted,
                    },
                )
            },
            None => None,
        }
    }

    /// Pushes the notice that greets the client in the room `room_id` onto the
    /// client's queue, if it has one.
    pub fn welcome(&self, room_id: &str) -> (sent: Option<Delivery>)
        ensures
            sent is Some == self@.reachable,
            sent matches Some(delivery) ==> delivery.notice() == (Notice {
                recipient: self@.id,
                payload: welcome_text(room_id@),
            }),
    {
        let text = tag_message(room_id, "Connected");
        self.notify(text.as_str())
    }
}

/// The participants that a sequence of clients stands for.
pub open spec fn views(clients: Seq<Client>) -> Seq<ClientView> {
    Seq::new(clients.len(), |i: int| clients[i]@)
}

/// A payload bound for a recipient.
pub struct Notice {
    /// The id of the client whose queue the payload is pushed onto.
    pub recipient: Seq<char>,
    /// The text that is pushed.
    pub payload: Seq<char>,
}

/// One push onto a client's outbound queue.
#[derive(Debug)]
pub struct Delivery {
    /// The id of the client whose queue the payload was pushed onto.
    pub recipient: String,
    /// The text that was pushed.
    pub payload: String,
    /// Whether the queue took it. A queue that is closed takes nothing.
    pub accepted: bool,
}

impl Delivery {
    /// What was pushed, and for whom.
    pub open spec fn notice(&self) -> Notice {
        Notice { recipient: self.recipient@, payload: self.payload@ }
    }
}

/// What each delivery of a report pushed, and for whom.
pub open spec fn notices(report: Seq<Delivery>) -> Seq<Notice> {
    report.map_values(|delivery: Delivery| delivery.notice())
}

/// Whether a member receives what `origin` broadcasts: everyone with a queue
/// does, but for `origin` itself.
pub open spec fn hears(member: ClientView, origin: Seq<char>) -> bool {
    member.id != origin && member.reachable
}

/// The members that receive what `origin` broadcasts.
pub open spec fn listeners(origin: Seq<char>) -> spec_fn(ClientView) -> bool {
    |member: ClientView| hears(member, origin)
}

/// A payload addressed to a member.
pub open spec fn addressed(payload: Seq<char>) -> spec_fn(ClientView) -> Notice {
    |member: ClientView| Notice { recipient: member.id, payload }
}

/// The fan-out of `payload` from `origin`: one notice for each member that
/// hears `origin`, in the order in which the members joined.
pub open spec fn fan_out(members: Seq<ClientView>, origin: Seq<char>, payload: Seq<char>) -> Seq<
    Notice,
> {
    members.filter(listeners(origin)).map_values(addressed(payload))
}

/// The notice that greets a client in the room `room_id`.
pub open spec fn welcome_text(room_id: Seq<char>) -> Seq<char> {
    tagged(room_id, "Connected"@)
}

/// Whether no two members share an id.
pub open spec fn distinct_ids(members: Seq<ClientView>) -> bool {
    forall|i: int, j: int|
        0 <= i < j < members.len() ==> (#[trigger] members[i]).id != (#[trigger] members[j]).id
}

/// Whether one of the members has the id `id`.
pub open spec fn among(members: Seq<ClientView>, id: Seq<char>) -> bool {
    exists|i: int| 0 <= i < members.len() && (#[trigger] members[i]).id == id
}

/// Whether one of the members has the id `id` and an outbound queue.
pub open spec fn reaches(members: Seq<ClientView>, id: Seq<char>) -> bool {
    exists|i: int| 0 <= i < members.len() && (#[trigger] members[i]).id == id && members[i].reachable
}

/// The place of the member with the id `id`.
pub open spec fn place_of(members: Seq<ClientView>, id: Seq<char>) -> int {
    choose|i: int| 0 <= i < members.len() && (#[trigger] members[i]).id == id
}

/// The ids of the members, as a set.
pub open spec fn id_set(members: Seq<ClientView>) -> Set<Seq<char>> {
    Set::new(|id: Seq<char>| among(members, id))
}

/// Why a client could not be registered.
#[derive(Clone, Copy, Debug, PartialEq, Eq, Structural)]
pub enum JoinError {
    /// No room has the id that was asked for.
    RoomNotFound,
    /// A registered client already has the id.
    ClientIdInUse,
    /// The connection is past the point at which it registers its client.
    NotConnecting,
}

/// An isolated collaboration session: a set of clients and the ledger of the
/// objects they share.
#[derive(Debug)]
pub struct Room {
    room_id: String,
    name: String,
    clients: Vec<Client>,
    ledger: Ledger,
}

impl Room {
    /// The id of the room.
    pub closed spec fn id(&self) -> Seq<char> {
        self.room_id@
    }

    /// The display name of the room.
    pub closed spec fn title(&self) -> Seq<char> {
        self.name@
    }

    /// The registered clients, in the order in which they joined.
    pub closed spec fn members(&self) -> Seq<ClientView> {
        views(self.clients@)
    }

    /// The ledger of the room.
    pub closed spec fn objects(&self) -> LedgerView {
        self.ledger@
    }

    /// Whether `id` is registered in the room.
    pub open spec fn is_member(&self, id: Seq<char>) -> bool {
        among(self.members(), id)
    }

    /// What holds of every room: no two clients share an id, and every lock of
    /// the ledger is held by a registered client.
    #[verifier::type_invariant]
    pub open spec fn wf(&self) -> bool {
        &&& distinct_ids(self.members())
        &&& holders_among(self.objects(), id_set(self.members()))
    }

    /// Whether this room is `before` with `member` registered after the others.
    pub open spec fn admitted(&self, before: Room, member: ClientView) -> bool {
        &&& self.id() == before.id()
        &&& self.title() == before.title()
        &&& self.objects() == before.objects()
        &&& self.members() == before.members().push(member)
    }

    /// Whether this room is `before` without the client `id`: the client is no
    /// member any more, and every lock that it held is released. A room that
    /// did not have the client is as it was.
    pub open spec fn without(&self, before: Room, id: Seq<char>) -> bool {
        &&& self.id() == before.id()
        &&& self.title() == before.title()
        &&& !self.is_member(id)
        &&& if before.is_member(id) {
            &&& self.members() == before.members().remove(place_of(before.members(), id))
            &&& self.objects() == released(before.objects(), id)
        } else {
            &&& self.members() == before.members()
            &&& self.objects() == before.objects()
        }
    }

    /// A room without clients and without objects.
    pub fn new(room_id: String, name: String) -> (room: Room)
        ensures
            room.id() == room_id@,
            room.title() == name@,
            room.members() == Seq::<ClientView>::empty(),
            room.objects() == Map::<ObjectId, ObjectView>::empty(),
    {
        let room = Room { room_id, name, clients: Vec::new(), ledger: Ledger::new() };
        assert(room.members() =~= Seq::<ClientView>::empty());
        room
    }

    /// The id of the room.
    pub fn room_id(&self) -> (id: &String)
        ensures
            id@ == self.id(),
    {
        &self.room_id
    }

    /// The display name of the room.
    pub fn name(&self) -> (name: &String)
        ensures
            name@ == self.title(),
    {
        &self.name
    }

    /// The ledger of the room.
    pub fn ledger(&self) -> (ledger: &Ledger)
        ensures
            ledger@ == self.objects(),
    {
        &self.ledger
    }

    /// The number of registered clients.
    pub fn client_count(&self) -> (n: usize)
        ensures
            n == self.members().len(),
    {
        self.clients.len()
    }

    /// The id of the `i`-th registered client, in the order of joining.
    pub fn client_id_at(&self, i: usize) -> (id: Option<&String>)
        ensures
            id is Some <==> i < self.members().len(),
            id matches Some(text) ==> text@ == self.members()[i as int].id,
    {
        if i < self.clients.len() {
            Some(&self.clients[i].client_id)
        } else {
            None
        }
    }

    fn find(&self, client_id: &String) -> (slot: Option<usize>)
        ensures
            match slot {
                Some(i) => i < self.members().len() && self.members()[i as int].id == client_id@
                    && among(self.members(), client_id@),
                None => !among(self.members(), client_id@),
            },
    {
        let mut i: usize = 0;
        while i < self.clients.len()
            invariant
                i <= self.clients@.len(),
                forall|j: int| 0 <= j < i ==> (#[trigger] self.members()[j]).id != client_id@,
            decreases self.clients@.len() - i,
        {
            if self.clients[i].client_id == *client_id {
                assert(self.members()[i as int].id == client_id@);
                return Some(i);
            }
            i += 1;
        }
        None
    }

    /// Whether `client_id` is registered in the room.
    pub fn has_client(&self, client_id: &String) -> (found: bool)
        ensures
            found == self.is_member(client_id@),
    {
        self.find(client_id).is_some()
    }

    /// Registers `client`. A client whose id is already registered is refused,
    /// and the room stays as it was.
    pub fn join(&mut self, client: Client) -> (done: Result<(), JoinError>)
        ensures
            old(self).is_member(client@.id) ==> done == Err::<(), JoinError>(
                JoinError::ClientIdInUse,
            ) && *final(self) == *old(self),
            !old(self).is_member(client@.id) ==> done is Ok && final(self).admitted(
                *old(self),
                client@,
            ),
    {
        if self.find(&client.client_id).is_some() {
            return Err(JoinError::ClientIdInUse);
        }
        proof {
            use_type_invariant(&*self);
        }
        let ghost before = self.members();
        let ghost objects = self.objects();
        let mut ledger = Ledger::new();
        std::mem::swap(&mut ledger, &mut self.ledger);
        let mut clients: Vec<Client> = Vec::new();
        std::mem::swap(&mut clients, &mut self.clients);
        clients.push(client);
        proof {
            assert(views(clients@) =~= before.push(client@));
            lemma_push_member(before, client@);
            lemma_holders_widen(objects, id_set(before), id_set(before.push(client@)));
        }
        self.clients = clients;
        self.ledger = ledger;
        Ok(())
    }

    /// Unregisters `client_id` and releases every lock that it holds. A client
    /// that is not registered is passed over in silence.
    pub fn leave(&mut self, client_id: &String) -> (left: bool)
        ensures
            left == old(self).is_member(client_id@),
            final(self).without(*old(self), client_id@),
    {
        match self.find(client_id) {
            None => false,
            Some(i) => {
                proof {
                    use_type_invariant(&*self);
                }
                let ghost before = self.members();
                let ghost objects = self.objects();
                let mut ledger = Ledger::new();
                std::mem::swap(&mut ledger, &mut self.ledger);
                let mut clients: Vec<Client> = Vec::new();
                std::mem::swap(&mut clients, &mut self.clients);
                ledger.release(client_id);
                clients.remove(i);
                proof {
                    assert(views(clients@) =~= before.remove(i as int));
                    lemma_place(before, i as int);
                    lemma_remove_member(before, i as int);
                    lemma_released_holders(objects, before, i as int);
                }
                self.clients = clients;
                self.ledger = ledger;
                true
            },
        }
    }

    /// Applies a batch of actions on behalf of the registered client `who`, all
    /// or none.
    pub(crate) fn apply(&mut self, who: &String, actions: &Vec<ObjectUpdate>) -> (done: Result<
        (),
        Rejection,
    >)
        requires
            old(self).is_member(who@),
        ensures
            final(self).id() == old(self).id(),
            final(self).title() == old(self).title(),
            final(self).members() == old(self).members(),
            match apply_batch(old(self).objects(), who@, actions_of(actions@), actions@.len()) {
                Ok(next) => done is Ok && final(self).objects() == next,
                Err(refusal) => done matches Err(rejection) && rejection@ == refusal
                    && final(self).objects() == old(self).objects(),
            },
    {
        proof {
            use_type_invariant(&*self);
            lemma_batch_holders(
                self.objects(),
                who@,
                actions_of(actions@),
                actions@.len(),
                id_set(self.members()),
            );
        }
        let mut ledger = Ledger::new();
        std::mem::swap(&mut ledger, &mut self.ledger);
        let done = ledger.apply(who, actions);
        self.ledger = ledger;
        done
    }

    /// Pushes `text` onto the queue of `client_id`, if it is registered and has one.
    pub fn notify(&self, client_id: &String, text: &str) -> (sent: Option<Delivery>)
        ensures
            sent is Some == reaches(self.members(), client_id@),
            sent matches Some(delivery) ==> delivery.notice() == (Notice {
                recipient: client_id@,
                payload: text@,
            }),
    {
        let mut i: usize = 0;
        while i < self.clients.len()
            invariant
                i <= self.clients@.len(),
                forall|j: int|
                    0 <= j < i && (#[trigger] self.members()[j]).id == client_id@
                        ==> !self.members()[j].reachable,
            decreases self.clients@.len() - i,
        {
            if self.clients[i].client_id == *client_id {
                if let Some(sender) = &self.clients[i].sender {
                    let accepted = push_text(sender, text);
                    assert(self.members()[i as int].id == client_id@ && self.members()[i as int].reachable);
                    return Some(
                        Delivery {
                            recipient: client_id.clone(),
                            payload: text.to_owned(),
                            accepted,
                        },
                    );
                }
            }
            i += 1;
        }
        None
    }

    /// Pushes `message`, tagged with the room's id, onto the queue of every
    /// registered client but `client_id`, and reports each push. A queue that
    /// does not take the payload does not keep the others from getting it.
    pub fn broadcast(&self, client_id: &str, message: &str) -> (report: Vec<Delivery>)
        ensures
            notices(report@) == fan_out(
                self.members(),
                client_id@,
                tagged(self.id(), message@),
            ),
    {
        let origin = client_id.to_owned();
        let payload = tag_message(self.room_id.as_str(), message);
        let mut report: Vec<Delivery> = Vec::new();
        let mut i: usize = 0;
        proof {
            reveal(Seq::filter);
            assert(self.members().take(0) =~= Seq::<ClientView>::empty());
            assert(notices(report@) =~= fan_out(self.members().take(0), origin@, payload@));
        }
        while i < self.clients.len()
            invariant
                i <= self.clients@.len(),
                origin@ == client_id@,
                payload@ == tagged(self.id(), message@),
                notices(report@) == fan_out(self.members().take(i as int), origin@, payload@),
            decreases self.clients@.len() - i,
        {
            let ghost done = self.members().take(i as int);
            let ghost member = self.members()[i as int];
            let ghost before = report@;
            proof {
                assert(self.members().take(i + 1) =~= done.push(member));
                done.lemma_filter_push(member, listeners(origin@));
            }
            if !(self.clients[i].client_id == origin) {
                if let Some(sender) = &self.clients[i].sender {
                    let accepted = push_text(sender, payload.as_str());
                    let delivery = Delivery {
                        recipient: self.clients[i].client_id.clone(),
                        payload: payload.clone(),
                        accepted,
                    };
                    report.push(delivery);
                    proof {
                        assert(hears(member, origin@));
                        assert(notices(report@) =~= notices(before).push(delivery.notice()));
                        assert(done.filter(listeners(origin@)).push(member).map_values(
                            addressed(payload@),
                        ) =~= done.filter(listeners(origin@)).map_values(
                            addressed(payload@),
                        ).push(delivery.notice()));
                    }
                }
            }
            i += 1;
        }
        assert(self.members().take(i as int) =~= self.members());
        report
    }
}

proof fn lemma_fan_out(members: Seq<ClientView>, origin: Seq<char>, payload: Seq<char>, n: int)
    requires
        distinct_ids(members),
        0 <= n <= members.len(),
    ensures
        ({
            let fan = fan_out(members.take(n), origin, payload);
            &&& forall|k: int|
                0 <= k < fan.len() ==> (#[trigger] fan[k]).payload == payload && fan[k].recipient
                    != origin && exists|j: int|
                    0 <= j < n && (#[trigger] members[j]).id == fan[k].recipient
            &&& forall|j: int|
                0 <= j < n && hears(#[trigger] members[j], origin) ==> exists|k: int|
                    0 <= k < fan.len() && (#[trigger] fan[k]).recipient == members[j].id
            &&& forall|k1: int, k2: int|
                0 <= k1 < k2 < fan.len() ==> (#[trigger] fan[k1]).recipient != (
                #[trigger] fan[k2]).recipient
        }),
    decreases n,
{
    let fan = fan_out(members.take(n), origin, payload);
    if n == 0 {
        reveal(Seq::filter);
        assert(members.take(0) =~= Seq::<ClientView>::empty());
        assert(fan.len() == 0);
    } else {
        lemma_fan_out(members, origin, payload, n - 1);
        let done = members.take(n - 1);
        let member = members[n - 1];
        let earlier = fan_out(done, origin, payload);
        assert(members.take(n) =~= done.push(member));
        done.lemma_filter_push(member, listeners(origin));
        if hears(member, origin) {
            let notice = Notice { recipient: member.id, payload };
            assert(fan =~= earlier.push(notice));
            assert forall|k: int| 0 <= k < fan.len() implies (#[trigger] fan[k]).payload == payload
                && fan[k].recipient != origin && exists|j: int|
                0 <= j < n && (#[trigger] members[j]).id == fan[k].recipient by {
                if k < earlier.len() {
                    assert(fan[k] == earlier[k]);
                    let j = choose|j: int|
                        0 <= j < n - 1 && (#[trigger] members[j]).id == earlier[k].recipient;
                    assert(members[j].id == fan[k].recipient);
                } else {
                    assert(members[n - 1].id == fan[k].recipient);
                }
            }
            assert forall|j: int| 0 <= j < n && hears(#[trigger] members[j], origin) implies exists|
                k: int,
            |
                0 <= k < fan.len() && (#[trigger] fan[k]).recipient == members[j].id by {
                if j < n - 1 {
                    let k = choose|k: int|
                        0 <= k < earlier.len() && (#[trigger] earlier[k]).recipient
                            == members[j].id;
                    assert(fan[k].recipient == members[j].id);
                } else {
                    assert(fan[earlier.len() as int].recipient == members[j].id);
                }
            }
            assert forall|k1: int, k2: int| 0 <= k1 < k2 < fan.len() implies (
            #[trigger] fan[k1]).recipient != (#[trigger] fan[k2]).recipient by {
                if k2 < earlier.len() {
                    assert(earlier[k1].recipient != earlier[k2].recipient);
                } else {
                    assert(fan[k1] == earlier[k1]);
                    let j = choose|j: int|
                        0 <= j < n - 1 && (#[trigger] members[j]).id == earlier[k1].recipient;
                    assert(members[j].id != members[n - 1].id);
                }
            }
        } else {
            assert(fan =~= earlier);
            assert forall|k: int| 0 <= k < fan.len() implies (#[trigger] fan[k]).payload == payload
                && fan[k].recipient != origin && exists|j: int|
                0 <= j < n && (#[trigger] members[j]).id == fan[k].recipient by {
                let j = choose|j: int|
                    0 <= j < n - 1 && (#[trigger] members[j]).id == earlier[k].recipient;
                assert(members[j].id == fan[k].recipient);
            }
        }
    }
}

/// No self-echo. Of a room whose members have distinct ids, a broadcast pushes
/// nothing onto the queue of its originator, pushes the same payload onto the
/// queue of every other member that has one, and onto none of them twice.
pub proof fn law_no_self_echo(members: Seq<ClientView>, origin: Seq<char>, payload: Seq<char>)
    requires
        distinct_ids(members),
    ensures
        ({
            let fan = fan_out(members, origin, payload);
            &&& forall|k: int|
                0 <= k < fan.len() ==> (#[trigger] fan[k]).recipient != origin && fan[k].payload
                    == payload
            &&& forall|j: int|
                0 <= j < members.len() && (#[trigger] members[j]).id != origin
                    && members[j].reachable ==> exists|k: int|
                    0 <= k < fan.len() && (#[trigger] fan[k]).recipient == members[j].id
            &&& forall|k1: int, k2: int|
                0 <= k1 < k2 < fan.len() ==> (#[trigger] fan[k1]).recipient != (
                #[trigger] fan[k2]).recipient
        }),
{
    lemma_fan_out(members, origin, payload, members.len() as int);
    assert(members.take(members.len() as int) =~= members);
}

/// Clean disconnect. Once a member has left, a broadcast pushes nothing onto
/// its queue, and still reaches every other member that it reached before.
pub proof fn law_clean_disconnect(
    members: Seq<ClientView>,
    gone: Seq<char>,
    origin: Seq<char>,
    payload: Seq<char>,
)
    requires
        distinct_ids(members),
        among(members, gone),
    ensures
        ({
            let rest = members.remove(place_of(members, gone));
            let fan = fan_out(rest, origin, payload);
            &&& !among(rest, gone)
            &&& forall|k: int| 0 <= k < fan.len() ==> (#[trigger] fan[k]).recipient != gone
            &&& forall|j: int|
                0 <= j < members.len() && (#[trigger] members[j]).id != gone && hears(
                    members[j],
                    origin,
                ) ==> exists|k: int|
                    0 <= k < fan.len() && (#[trigger] fan[k]).recipient == members[j].id
        }),
{
    let i = place_of(members, gone);
    let rest = members.remove(i);
    let fan = fan_out(rest, origin, payload);
    lemma_remove_member(members, i);
    lemma_fan_out(rest, origin, payload, rest.len() as int);
    assert(rest.take(rest.len() as int) =~= rest);
    assert forall|k: int| 0 <= k < fan.len() implies (#[trigger] fan[k]).recipient != gone by {
        let j = choose|j: int| 0 <= j < rest.len() && (#[trigger] rest[j]).id == fan[k].recipient;
        assert(among(rest, rest[j].id));
    }
    assert forall|j: int|
        0 <= j < members.len() && (#[trigger] members[j]).id != gone && hears(
            members[j],
            origin,
        ) implies exists|k: int|
        0 <= k < fan.len() && (#[trigger] fan[k]).recipient == members[j].id by {
        let j1 = if j < i { j } else { j - 1 };
        assert(j != i);
        assert(rest[j1] == members[j]);
        assert(hears(rest[j1], origin));
    }
}

/// Taking a member out adds none: whoever is among the rest was a member before.
pub proof fn lemma_remove_subset(members: Seq<ClientView>, i: int)
    requires
        0 <= i < members.len(),
    ensures
        forall|id: Seq<char>| among(members.remove(i), id) ==> among(members, id),
{
    let rest = members.remove(i);
    assert forall|id: Seq<char>| among(rest, id) implies among(members, id) by {
        let k = place_of(rest, id);
        let k0 = if k < i { k } else { k + 1 };
        assert(members[k0].id == id);
    }
}

/// Whoever is a member after one more has joined was a member before, or is the one.
pub proof fn lemma_push_subset(members: Seq<ClientView>, member: ClientView)
    ensures
        forall|id: Seq<char>|
            among(members.push(member), id) ==> among(members, id) || id == member.id,
        among(members.push(member), member.id),
{
    let grown = members.push(member);
    assert forall|id: Seq<char>| among(grown, id) implies among(members, id) || id
        == member.id by {
        let k = place_of(grown, id);
        if k < members.len() {
            assert(members[k].id == id);
        }
    }
    assert(grown[members.len() as int].id == member.id);
}

proof fn lemma_place(members: Seq<ClientView>, i: int)
    requires
        distinct_ids(members),
        0 <= i < members.len(),
    ensures
        place_of(members, members[i].id) == i,
{
    let k = place_of(members, members[i].id);
    assert(0 <= k < members.len() && members[k].id == members[i].id);
    if k < i {
        assert(members[k].id != members[i].id);
    } else if i < k {
        assert(members[i].id != members[k].id);
    }
}

proof fn lemma_push_member(members: Seq<ClientView>, member: ClientView)
    requires
        distinct_ids(members),
        !among(members, member.id),
    ensures
        distinct_ids(members.push(member)),
        forall|id: Seq<char>| among(members, id) ==> among(members.push(member), id),
{
    let grown = members.push(member);
    assert forall|i: int, j: int| 0 <= i < j < grown.len() implies (#[trigger] grown[i]).id != (
    #[trigger] grown[j]).id by {
        if j < members.len() {
            assert(members[i].id != members[j].id);
        } else {
            assert(members[i].id != member.id);
        }
    }
    assert forall|id: Seq<char>| among(members, id) implies among(grown, id) by {
        let k = place_of(members, id);
        assert(grown[k].id == id);
    }
}

proof fn lemma_remove_member(members: Seq<ClientView>, i: int)
    requires
        distinct_ids(members),
        0 <= i < members.len(),
    ensures
        distinct_ids(members.remove(i)),
        !among(members.remove(i), members[i].id),
        forall|id: Seq<char>|
            among(members, id) && id != members[i].id ==> among(members.remove(i), id),
{
    let rest = members.remove(i);
    assert forall|a: int, b: int| 0 <= a < b < rest.len() implies (#[trigger] rest[a]).id != (
    #[trigger] rest[b]).id by {
        let a0 = if a < i { a } else { a + 1 };
        let b0 = if b < i { b } else { b + 1 };
        assert(members[a0].id != members[b0].id);
    }
    if among(rest, members[i].id) {
        let k = place_of(rest, members[i].id);
        let k0 = if k < i { k } else { k + 1 };
        assert(rest[k] == members[k0]);
        if k0 < i {
            assert(members[k0].id != members[i].id);
        } else {
            assert(members[i].id != members[k0].id);
        }
    }
    assert forall|id: Seq<char>| among(members, id) && id != members[i].id implies among(
        rest,
        id,
    ) by {
        let k = place_of(members, id);
        let k1 = if k < i { k } else { k - 1 };
        assert(rest[k1].id == id);
    }
}

proof fn lemma_holders_widen(ledger: LedgerView, small: Set<Seq<char>>, large: Set<Seq<char>>)
    requires
        holders_among(ledger, small),
        forall|id: Seq<char>| small.contains(id) ==> large.contains(id),
    ensures
        holders_among(ledger, large),
{
    assert forall|id: ObjectId| #[trigger] ledger.dom().contains(id) implies (
    ledger[id].lock_holder matches Some(h) ==> large.contains(h)) by {
        if let Some(h) = ledger[id].lock_holder {
            assert(small.contains(h));
        }
    }
}

proof fn lemma_released_holders(ledger: LedgerView, members: Seq<ClientView>, i: int)
    requires
        distinct_ids(members),
        0 <= i < members.len(),
        holders_among(ledger, id_set(members)),
    ensures
        holders_among(released(ledger, members[i].id), id_set(members.remove(i))),
{
    let gone = members[i].id;
    let after = released(ledger, gone);
    lemma_remove_member(members, i);
    assert forall|id: ObjectId| #[trigger] after.dom().contains(id) implies (
    after[id].lock_holder matches Some(h) ==> id_set(members.remove(i)).contains(h)) by {
        assert(ledger.dom().contains(id));
        if let Some(h) = after[id].lock_holder {
            assert(ledger[id].lock_holder == Some(h));
            assert(id_set(members).contains(h));
            assert(h != gone);
        }
    }
}

} // verus!
