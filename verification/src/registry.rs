//! The room registry: every room of the process, each under its own id.

use vstd::prelude::*;
use vstd::string::*;
use names::{Generator, Name};
use crate::ledger::{ObjectId, ObjectView};
use crate::protocol::{
    decode_error, handled, receive, DecodeError, ErrorView, ErrorWS, MessageJSON, ObjectUpdate,
};
use crate::room::{
    among, fan_out, lemma_push_subset, lemma_remove_subset, notices, place_of, reaches, Client,
    ClientView, Delivery, JoinError, Notice, Room,
};
use crate::text::tagged;

verus! {

/// Builds a `names::Generator` with `names::Generator::with_naming` for
/// `names::Name::Numbered` and takes one name from it with its `next`. The name
/// is drawn at random, so nothing is promised of it.
#[verifier::external_body]
fn random_name() -> (name: Option<String>) {
    let mut generator = Generator::with_naming(Name::Numbered);
    generator.next()
}

/// The length of the longest id among `rooms`.
pub open spec fn longest_id(rooms: Seq<Room>) -> nat
    decreases rooms.len(),
{
    if rooms.len() == 0 {
        0
    } else {
        let rest = longest_id(rooms.drop_last());
        if rooms.last().id().len() > rest {
            rooms.last().id().len()
        } else {
            rest
        }
    }
}

/// `n` zeros.
pub open spec fn zeros(n: nat) -> Seq<char> {
    Seq::new(n, |i: int| '0')
}

/// The error that reports a message for a room that the registry does not know.
pub open spec fn lost_room_error() -> ErrorView {
    ErrorView {
        name: "InternalUnhandled"@,
        status_code: 500,
        message: "room is not registered"@,
    }
}

proof fn lemma_longest(rooms: Seq<Room>, i: int)
    requires
        0 <= i < rooms.len(),
    ensures
        rooms[i].id().len() <= longest_id(rooms),
    decreases rooms.len(),
{
    if i < rooms.len() - 1 {
        lemma_longest(rooms.drop_last(), i);
    }
}

/// The rooms of the process.
#[derive(Debug)]
pub struct Registry {
    rooms: Vec<Room>,
}

impl Registry {
    /// The rooms, in the order in which they were created.
    pub closed spec fn rooms(&self) -> Seq<Room> {
        self.rooms@
    }

    /// Whether a room has the id `id`.
    pub open spec fn has_room(&self, id: Seq<char>) -> bool {
        exists|i: int| 0 <= i < self.rooms().len() && (#[trigger] self.rooms()[i]).id() == id
    }

    /// The place of the room with the id `id`.
    pub open spec fn room_place(&self, id: Seq<char>) -> int {
        choose|i: int| 0 <= i < self.rooms().len() && (#[trigger] self.rooms()[i]).id() == id
    }

    /// The room with the id `id`.
    pub open spec fn room(&self, id: Seq<char>) -> Room {
        self.rooms()[self.room_place(id)]
    }

    /// Whether a client with the id `id` is registered in some room.
    pub open spec fn knows_client(&self, id: Seq<char>) -> bool {
        exists|i: int| 0 <= i < self.rooms().len() && (#[trigger] self.rooms()[i]).is_member(id)
    }

    /// What holds of every registry: every room is well formed, no two rooms
    /// share an id, and no client is registered in two rooms.
    #[verifier::type_invariant]
    pub open spec fn wf(&self) -> bool {
        &&& forall|i: int| 0 <= i < self.rooms().len() ==> (#[trigger] self.rooms()[i]).wf()
        &&& forall|i: int, j: int|
            0 <= i < j < self.rooms().len() ==> (#[trigger] self.rooms()[i]).id() != (
            #[trigger] self.rooms()[j]).id()
        &&& forall|i: int, j: int, id: Seq<char>|
            0 <= i < self.rooms().len() && 0 <= j < self.rooms().len() && i != j
                && #[trigger] self.rooms()[i].is_member(id) ==> !#[trigger] self.rooms()[j].is_member(
                id,
            )
    }

    /// Whether this registry has the rooms of `before`, but for the one with
    /// the id `id`, which may have changed and has kept its id.
    pub open spec fn same_but(&self, before: Registry, id: Seq<char>) -> bool {
        &&& self.rooms().len() == before.rooms().len()
        &&& forall|i: int|
            0 <= i < self.rooms().len() ==> (#[trigger] self.rooms()[i]).id()
                == before.rooms()[i].id()
        &&& forall|i: int|
            0 <= i < self.rooms().len() && before.rooms()[i].id() != id
                ==> #[trigger] self.rooms()[i] == before.rooms()[i]
    }

    /// Whether this registry has every room of `before`, each as it was and
    /// under the id it had, and perhaps more.
    pub open spec fn extends(&self, before: Registry) -> bool {
        &&& before.rooms().len() <= self.rooms().len()
        &&& forall|i: int|
            0 <= i < before.rooms().len() ==> #[trigger] self.rooms()[i] == before.rooms()[i]
    }

    /// Whether this registry is `before` with one room more: a room without
    /// clients and without objects, under the id `id`, which no room had, and
    /// with the display name `title`. Every room of `before` is as it was.
    pub open spec fn opened(&self, before: Registry, id: Seq<char>, title: Seq<char>) -> bool {
        &&& !before.has_room(id)
        &&& self.extends(before)
        &&& self.rooms().len() == before.rooms().len() + 1
        &&& self.has_room(id)
        &&& self.room(id) == self.rooms().last()
        &&& self.room(id).id() == id
        &&& self.room(id).title() == title
        &&& self.room(id).members() == Seq::<ClientView>::empty()
        &&& self.room(id).objects() == Map::<ObjectId, ObjectView>::empty()
    }

    /// Whether every room of `before` still has its place and its id in this
    /// registry.
    pub open spec fn keeps(&self, before: Registry) -> bool {
        &&& before.rooms().len() <= self.rooms().len()
        &&& forall|i: int|
            0 <= i < before.rooms().len() ==> (#[trigger] self.rooms()[i]).id()
                == before.rooms()[i].id()
    }

    /// The id under which a room is created when `candidate` is proposed for
    /// it: `candidate` itself where no room has it, and else `candidate`
    /// followed by as many zeros as make it longer than every id in use.
    pub open spec fn fresh_id(&self, candidate: Seq<char>) -> Seq<char> {
        if !self.has_room(candidate) {
            candidate
        } else {
            candidate + zeros((longest_id(self.rooms()) + 1 - candidate.len()) as nat)
        }
    }

    /// In a well-formed registry an id names one room.
    pub proof fn lemma_room(&self, i: int)
        requires
            self.wf(),
            0 <= i < self.rooms().len(),
        ensures
            self.has_room(self.rooms()[i].id()),
            self.room_place(self.rooms()[i].id()) == i,
            self.room(self.rooms()[i].id()) == self.rooms()[i],
    {
        let id = self.rooms()[i].id();
        let k = self.room_place(id);
        assert(0 <= k < self.rooms().len() && self.rooms()[k].id() == id);
        if k < i {
            assert(self.rooms()[k].id() != self.rooms()[i].id());
        } else if i < k {
            assert(self.rooms()[i].id() != self.rooms()[k].id());
        }
    }

    /// Room durability. Whatever has happened since, as long as every step
    /// kept the rooms that were there, a room that existed is still found
    /// under its id.
    pub proof fn law_room_durability(&self, later: Registry, id: Seq<char>)
        requires
            self.wf(),
            later.wf(),
            later.keeps(*self),
            self.has_room(id),
        ensures
            later.has_room(id),
            later.room(id).id() == id,
            later.room_place(id) == self.room_place(id),
    {
        let i = self.room_place(id);
        assert(later.rooms()[i].id() == self.rooms()[i].id());
        later.lemma_room(i);
        self.lemma_room(i);
    }

    /// Creating other rooms changes no room: in a registry that extends this
    /// one, a room that existed is the room it was.
    pub proof fn law_room_untouched(&self, later: Registry, id: Seq<char>)
        requires
            self.wf(),
            later.wf(),
            later.extends(*self),
            self.has_room(id),
        ensures
            later.has_room(id),
            later.room(id) == self.room(id),
    {
        let i = self.room_place(id);
        assert(later.rooms()[i] == self.rooms()[i]);
        later.lemma_room(i);
        self.lemma_room(i);
    }

    /// Every operation of the registry keeps the rooms that were there: the
    /// ones that create a room extend the registry, and the others change one
    /// room at most and leave it its id.
    pub proof fn lemma_step_keeps(&self, before: Registry, changed: Seq<char>)
        requires
            self.extends(before) || self.same_but(before, changed),
        ensures
            self.keeps(before),
    {
    }

    /// Keeping the rooms carries over from step to step.
    pub proof fn lemma_keeps_on(&self, middle: Registry, before: Registry)
        requires
            middle.keeps(before),
            self.keeps(middle),
        ensures
            self.keeps(before),
    {
        assert forall|i: int| 0 <= i < before.rooms().len() implies (#[trigger] self.rooms()[i]).id()
            == before.rooms()[i].id() by {
            assert(middle.rooms()[i].id() == before.rooms()[i].id());
        }
    }

    /// A registry without rooms.
    pub fn new() -> (registry: Registry)
        ensures
            registry.rooms().len() == 0,
    {
        Registry { rooms: Vec::new() }
    }

    /// The number of rooms.
    pub fn room_count(&self) -> (n: usize)
        ensures
            n == self.rooms().len(),
    {
        self.rooms.len()
    }

    fn find(&self, room_id: &String) -> (slot: Option<usize>)
        ensures
            match slot {
                Some(i) => i < self.rooms().len() && self.rooms()[i as int].id() == room_id@
                    && self.has_room(room_id@),
                None => !self.has_room(room_id@),
            },
    {
        let mut i: usize = 0;
        while i < self.rooms.len()
            invariant
                i <= self.rooms@.len(),
                forall|j: int| 0 <= j < i ==> (#[trigger] self.rooms()[j]).id() != room_id@,
            decreases self.rooms@.len() - i,
        {
            if *self.rooms[i].room_id() == *room_id {
                assert(self.rooms()[i as int].id() == room_id@);
                return Some(i);
            }
            i += 1;
        }
        None
    }

    /// Looks up the room `room_id`. The room that is found is the registry's
    /// own, not a copy of it.
    pub fn get_room(&self, room_id: &str) -> (found: Option<&Room>)
        ensures
            found is Some <==> self.has_room(room_id@),
            found matches Some(room) ==> *room == self.room(room_id@) && room.id() == room_id@,
    {
        let wanted = room_id.to_owned();
        match self.find(&wanted) {
            Some(i) => {
                proof {
                    use_type_invariant(self);
                    self.lemma_room(i as int);
                }
                Some(&self.rooms[i])
            },
            None => None,
        }
    }

    /// Whether a room has the id `room_id`.
    pub fn contains_room(&self, room_id: &str) -> (found: bool)
        ensures
            found == self.has_room(room_id@),
    {
        let wanted = room_id.to_owned();
        self.find(&wanted).is_some()
    }

    /// Whether a client with the id `client_id` is registered in some room.
    pub fn contains_client(&self, client_id: &String) -> (found: bool)
        ensures
            found == self.knows_client(client_id@),
    {
        let mut i: usize = 0;
        while i < self.rooms.len()
            invariant
                i <= self.rooms@.len(),
                forall|j: int| 0 <= j < i ==> !(#[trigger] self.rooms()[j]).is_member(client_id@),
            decreases self.rooms@.len() - i,
        {
            if self.rooms[i].has_client(client_id) {
                assert(self.rooms()[i as int].is_member(client_id@));
                return true;
            }
            i += 1;
        }
        false
    }

    fn longest(&self) -> (n: usize)
        ensures
            n == longest_id(self.rooms()),
    {
        let mut n: usize = 0;
        let mut i: usize = 0;
        while i < self.rooms.len()
            invariant
                i <= self.rooms@.len(),
                n == longest_id(self.rooms().take(i as int)),
            decreases self.rooms@.len() - i,
        {
            assert(self.rooms().take(i + 1).drop_last() =~= self.rooms().take(i as int));
            let here = self.rooms[i].room_id().as_str().unicode_len();
            if here > n {
                n = here;
            }
            i += 1;
        }
        assert(self.rooms().take(i as int) =~= self.rooms());
        n
    }

    fn unused_id(&self, candidate: String) -> (id: String)
        ensures
            id@ == self.fresh_id(candidate@),
            !self.has_room(id@),
    {
        match self.find(&candidate) {
            None => candidate,
            Some(taken) => {
                let longest = self.longest();
                let have = candidate.as_str().unicode_len();
                proof {
                    lemma_longest(self.rooms(), taken as int);
                    reveal_strlit("0");
                }
                let ghost start = candidate@;
                let mut id = candidate;
                let mut n: usize = have;
                while n < longest
                    invariant
                        have <= n <= longest,
                        have == start.len(),
                        "0"@ == seq!['0'],
                        id@ == start + zeros((n - have) as nat),
                    decreases longest - n,
                {
                    id.append("0");
                    n += 1;
                    assert(id@ =~= start + zeros((n - have) as nat));
                }
                id.append("0");
                assert(id@ =~= start + zeros((longest + 1 - have) as nat));
                assert(!self.has_room(id@)) by {
                    if self.has_room(id@) {
                        let k = self.room_place(id@);
                        lemma_longest(self.rooms(), k);
                    }
                }
                id
            },
        }
    }

    /// Creates a room under the id that `fresh_id` gives for `candidate`: a
    /// room without clients and without objects. Every other room stays as it
    /// was.
    pub fn create_room_with_id(&mut self, candidate: String, display_name: String) -> (room_id:
        String)
        ensures
            room_id@ == old(self).fresh_id(candidate@),
            final(self).opened(*old(self), room_id@, display_name@),
    {
        proof {
            use_type_invariant(&*self);
        }
        let room_id = self.unused_id(candidate);
        let room = Room::new(room_id.clone(), display_name);
        proof {
            use_type_invariant(&room);
        }
        let ghost before = self.rooms();
        let mut rooms: Vec<Room> = Vec::new();
        std::mem::swap(&mut rooms, &mut self.rooms);
        rooms.push(room);
        let ghost after = Registry { rooms };
        proof {
            assert(after.rooms() =~= before.push(room));
            assert forall|i: int, j: int| 0 <= i < j < after.rooms().len() implies (
            #[trigger] after.rooms()[i]).id() != (#[trigger] after.rooms()[j]).id() by {
                if j < before.len() {
                    assert(before[i].id() != before[j].id());
                } else {
                    assert(before[i].id() != room_id@);
                }
            }
            assert forall|i: int, j: int, id: Seq<char>|
                0 <= i < after.rooms().len() && 0 <= j < after.rooms().len() && i != j
                    && #[trigger] after.rooms()[i].is_member(id) implies !#[trigger] after.rooms()[j].is_member(
                id,
            ) by {
                if i < before.len() && j < before.len() {
                    assert(before[i].is_member(id));
                    assert(!before[j].is_member(id));
                }
            }
            assert(after.wf());
            after.lemma_room(before.len() as int);
        }
        self.rooms = rooms;
        room_id
    }

    /// Creates a room under a generated, human-readable id and returns the id.
    /// This never fails: an id that is already in use is lengthened as
    /// `fresh_id` says.
    pub fn create_room(&mut self, display_name: String) -> (room_id: String)
        ensures
            final(self).opened(*old(self), room_id@, display_name@),
    {
        let candidate = match random_name() {
            Some(name) => name,
            None => "room".to_owned(),
        };
        self.create_room_with_id(candidate, display_name)
    }

    /// Registers `client` in the room `room_id`. A room that does not exist, or
    /// a client id that is registered in any room, is refused, and nothing
    /// changes.
    pub fn join(&mut self, room_id: &str, client: Client) -> (done: Result<(), JoinError>)
        ensures
            final(self).same_but(*old(self), room_id@),
            !old(self).has_room(room_id@) ==> done == Err::<(), JoinError>(JoinError::RoomNotFound)
                && final(self).rooms() == old(self).rooms(),
            old(self).has_room(room_id@) && old(self).knows_client(client@.id) ==> done == Err::<
                (),
                JoinError,
            >(JoinError::ClientIdInUse) && final(self).rooms() == old(self).rooms(),
            old(self).has_room(room_id@) && !old(self).knows_client(client@.id) ==> done is Ok
                && final(self).room(room_id@).admitted(old(self).room(room_id@), client@),
    {
        let wanted = room_id.to_owned();
        match self.find(&wanted) {
            None => Err(JoinError::RoomNotFound),
            Some(i) => {
                if self.contains_client(&client.client_id) {
                    return Err(JoinError::ClientIdInUse);
                }
                proof {
                    use_type_invariant(&*self);
                }
                let ghost before = *self;
                let mut rooms: Vec<Room> = Vec::new();
                std::mem::swap(&mut rooms, &mut self.rooms);
                let done = rooms[i].join(client);
                let changed = &rooms[i];
                proof {
                    use_type_invariant(changed);
                }
                let ghost after = Registry { rooms };
                proof {
                    assert(!before.rooms()[i as int].is_member(client@.id));
                    assert(after.rooms() =~= before.rooms().update(i as int, after.rooms()[i as int]));
                    lemma_push_subset(before.rooms()[i as int].members(), client@);
                    after.lemma_changed(before, i as int, Some(client@.id));
                }
                self.rooms = rooms;
                done
            },
        }
    }

    /// A registry stays well formed when one of its rooms changes, keeps its id
    /// and takes in nobody but, at most, a `newcomer` who was registered nowhere.
    proof fn lemma_changed(&self, before: Registry, i: int, newcomer: Option<Seq<char>>)
        requires
            before.wf(),
            0 <= i < before.rooms().len(),
            self.rooms() == before.rooms().update(i, self.rooms()[i]),
            self.rooms()[i].id() == before.rooms()[i].id(),
            self.rooms()[i].wf(),
            forall|id: Seq<char>|
                self.rooms()[i].is_member(id) ==> before.rooms()[i].is_member(id) || newcomer
                    == Some(id),
            newcomer matches Some(id) ==> !before.knows_client(id),
        ensures
            self.wf(),
            self.same_but(before, before.rooms()[i].id()),
            self.has_room(before.rooms()[i].id()),
            self.room(before.rooms()[i].id()) == self.rooms()[i],
            before.room(before.rooms()[i].id()) == before.rooms()[i],
    {
        assert forall|a: int| 0 <= a < self.rooms().len() implies (#[trigger] self.rooms()[a]).wf() by {
            if a != i {
                assert(before.rooms()[a].wf());
            }
        }
        assert forall|a: int, b: int| 0 <= a < b < self.rooms().len() implies (
        #[trigger] self.rooms()[a]).id() != (#[trigger] self.rooms()[b]).id() by {
            assert(before.rooms()[a].id() != before.rooms()[b].id());
        }
        assert forall|a: int, b: int, id: Seq<char>|
            0 <= a < self.rooms().len() && 0 <= b < self.rooms().len() && a != b
                && #[trigger] self.rooms()[a].is_member(id) implies !#[trigger] self.rooms()[b].is_member(
            id,
        ) by {
            if a == i {
                if newcomer == Some(id) {
                    assert(!before.rooms()[b].is_member(id));
                } else {
                    assert(before.rooms()[a].is_member(id));
                    assert(!before.rooms()[b].is_member(id));
                }
            } else if b == i {
                assert(before.rooms()[a].is_member(id));
                if self.rooms()[b].is_member(id) {
                    assert(before.rooms()[b].is_member(id));
                }
            } else {
                assert(before.rooms()[a].is_member(id));
                assert(!before.rooms()[b].is_member(id));
            }
        }
        assert forall|a: int|
            0 <= a < self.rooms().len() && before.rooms()[a].id() != before.rooms()[i].id()
                implies #[trigger] self.rooms()[a] == before.rooms()[a] by {
        }
        self.lemma_room(i);
        before.lemma_room(i);
    }

    /// Unregisters `client_id` from the room `room_id` and releases every lock
    /// that it holds there. A room or a client that is not known is passed over
    /// in silence.
    pub fn leave(&mut self, room_id: &str, client_id: &str) -> (left: bool)
        ensures
            final(self).same_but(*old(self), room_id@),
            !old(self).has_room(room_id@) ==> !left && final(self).rooms() == old(self).rooms(),
            old(self).has_room(room_id@) ==> left == old(self).room(room_id@).is_member(client_id@)
                && final(self).room(room_id@).without(old(self).room(room_id@), client_id@),
    {
        let wanted = room_id.to_owned();
        let who = client_id.to_owned();
        match self.find(&wanted) {
            None => false,
            Some(i) => {
                proof {
                    use_type_invariant(&*self);
                }
                let ghost before = *self;
                let mut rooms: Vec<Room> = Vec::new();
                std::mem::swap(&mut rooms, &mut self.rooms);
                let left = rooms[i].leave(&who);
                let changed = &rooms[i];
                proof {
                    use_type_invariant(changed);
                }
                let ghost after = Registry { rooms };
                proof {
                    assert(after.rooms() =~= before.rooms().update(i as int, after.rooms()[i as int]));
                    if left {
                        let members = before.rooms()[i as int].members();
                        assert(among(members, who@));
                        lemma_remove_subset(members, place_of(members, who@));
                    }
                    after.lemma_changed(before, i as int, None);
                }
                self.rooms = rooms;
                left
            },
        }
    }

    /// Handles one inbound text frame of `client_id` in the room `room_id`, as
    /// `receive` says. A frame for a room that is not known changes nothing and
    /// is answered with an error.
    pub fn receive(
        &mut self,
        room_id: &str,
        client_id: &str,
        message: Result<MessageJSON, DecodeError>,
    ) -> (done: Result<Vec<ObjectUpdate>, ErrorWS<'static>>)
        ensures
            final(self).same_but(*old(self), room_id@),
            !old(self).has_room(room_id@) ==> {
                &&& done matches Err(error)
                &&& error@ == lost_room_error()
                &&& final(self).rooms() == old(self).rooms()
            },
            old(self).has_room(room_id@) ==> match message {
                Ok(message_json) => handled(
                    old(self).room(room_id@),
                    final(self).room(room_id@),
                    client_id@,
                    message_json.object_update,
                    done,
                ),
                Err(failure) => {
                    &&& done matches Err(error)
                    &&& error@ == decode_error(failure)
                    &&& final(self).rooms() == old(self).rooms()
                },
            },
    {
        let wanted = room_id.to_owned();
        match self.find(&wanted) {
            None => Err(
                ErrorWS {
                    name: "InternalUnhandled",
                    status_code: 500,
                    message: "room is not registered".to_owned(),
                },
            ),
            Some(i) => {
                proof {
                    use_type_invariant(&*self);
                }
                let ghost before = *self;
                let mut rooms: Vec<Room> = Vec::new();
                std::mem::swap(&mut rooms, &mut self.rooms);
                let done = receive(client_id, &mut rooms[i], message);
                let changed = &rooms[i];
                proof {
                    use_type_invariant(changed);
                }
                let ghost after = Registry { rooms };
                proof {
                    assert(after.rooms() =~= before.rooms().update(i as int, after.rooms()[i as int]));
                    if message is Err {
                        assert(after.rooms() =~= before.rooms());
                    }
                    after.lemma_changed(before, i as int, None);
                }
                self.rooms = rooms;
                done
            },
        }
    }

    /// Pushes `message`, tagged with the room's id, onto the queue of every
    /// client of the room `room_id` but `client_id`, and reports each push. In a
    /// room that is not known there is nobody to push to.
    pub fn broadcast(&self, room_id: &str, client_id: &str, message: &str) -> (report: Vec<
        Delivery,
    >)
        ensures
            self.has_room(room_id@) ==> notices(report@) == fan_out(
                self.room(room_id@).members(),
                client_id@,
                tagged(room_id@, message@),
            ),
            !self.has_room(room_id@) ==> report@.len() == 0,
    {
        let wanted = room_id.to_owned();
        match self.find(&wanted) {
            None => Vec::new(),
            Some(i) => {
                proof {
                    use_type_invariant(self);
                    self.lemma_room(i as int);
                }
                self.rooms[i].broadcast(client_id, message)
            },
        }
    }

    /// Pushes `text` onto the queue of the client `client_id` of the room
    /// `room_id`, if there is such a client and it has a queue.
    pub fn notify(&self, room_id: &str, client_id: &str, text: &str) -> (sent: Option<Delivery>)
        ensures
            sent is Some == (self.has_room(room_id@) && reaches(
                self.room(room_id@).members(),
                client_id@,
            )),
            sent matches Some(delivery) ==> delivery.notice() == (Notice {
                recipient: client_id@,
                payload: text@,
            }),
    {
        let wanted = room_id.to_owned();
        let who = client_id.to_owned();
        match self.find(&wanted) {
            None => None,
            Some(i) => {
                proof {
                    use_type_invariant(self);
                    self.lemma_room(i as int);
                }
                self.rooms[i].notify(&who, text)
            },
        }
    }
}

} // verus!
