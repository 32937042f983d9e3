//! The object ledger of a room: which objects exist, what state each holds and
//! who, if anyone, holds its lock.

use vstd::prelude::*;

verus! {

/// Identifies an object inside one room.
pub type ObjectId = u32;

/// What the ledger records about one object.
pub struct ObjectView {
    /// The state that was pushed last.
    pub state: Seq<char>,
    /// The client that holds the lock, if any.
    pub lock_holder: Option<Seq<char>>,
}

/// The ledger as a map from object ids to what is recorded about them.
pub type LedgerView = Map<ObjectId, ObjectView>;

/// Why the ledger refused an operation.
#[derive(Clone, Copy, Debug, PartialEq, Eq, Structural)]
pub enum Failure {
    /// A lock was requested on an object that another client has locked.
    LockConflict,
    /// An unlock was requested by a client that does not hold the lock.
    NotHolder,
    /// A change was requested on an object that another client has locked.
    LockedByOther,
    /// An update names a different number of objects than it carries states.
    LengthMismatch,
}

/// The lock holder of `id`; an object that the ledger does not know has none.
pub open spec fn holder(ledger: LedgerView, id: ObjectId) -> Option<Seq<char>> {
    if ledger.dom().contains(id) {
        ledger[id].lock_holder
    } else {
        None
    }
}

/// The state of `id`; an object that the ledger does not know has the empty state.
pub open spec fn state_of(ledger: LedgerView, id: ObjectId) -> Seq<char> {
    if ledger.dom().contains(id) {
        ledger[id].state
    } else {
        Seq::empty()
    }
}

/// Whether `who` may change `id`: the object is unlocked, or `who` holds its lock.
pub open spec fn free_for(ledger: LedgerView, who: Seq<char>, id: ObjectId) -> bool {
    holder(ledger, id) is None || holder(ledger, id) == Some(who)
}

/// Locking `id` for `who`. An object that is not yet known is created with the
/// empty state. Locking an object that `who` already holds changes nothing.
pub open spec fn lock_one(ledger: LedgerView, who: Seq<char>, id: ObjectId) -> Result<
    LedgerView,
    Failure,
> {
    if free_for(ledger, who, id) {
        Ok(
            ledger.insert(
                id,
                ObjectView { state: state_of(ledger, id), lock_holder: Some(who) },
            ),
        )
    } else {
        Err(Failure::LockConflict)
    }
}

/// Unlocking `id`, which only its holder may do.
pub open spec fn unlock_one(ledger: LedgerView, who: Seq<char>, id: ObjectId) -> Result<
    LedgerView,
    Failure,
> {
    if holder(ledger, id) == Some(who) {
        Ok(ledger.insert(id, ObjectView { state: state_of(ledger, id), lock_holder: None }))
    } else {
        Err(Failure::NotHolder)
    }
}

/// Replacing the state of `id`. An object that is not yet known is created
/// unlocked. The lock, if `who` holds it, stays.
pub open spec fn update_one(
    ledger: LedgerView,
    who: Seq<char>,
    id: ObjectId,
    state: Seq<char>,
) -> Result<LedgerView, Failure> {
    if free_for(ledger, who, id) {
        Ok(ledger.insert(id, ObjectView { state, lock_holder: holder(ledger, id) }))
    } else {
        Err(Failure::LockedByOther)
    }
}

/// Deleting `id`. Deleting an object that is not known changes nothing.
pub open spec fn delete_one(ledger: LedgerView, who: Seq<char>, id: ObjectId) -> Result<
    LedgerView,
    Failure,
> {
    if free_for(ledger, who, id) {
        Ok(ledger.remove(id))
    } else {
        Err(Failure::LockedByOther)
    }
}

/// The ledger after every lock that `who` holds has been released.
pub open spec fn released(ledger: LedgerView, who: Seq<char>) -> LedgerView {
    Map::new(
        |id: ObjectId| ledger.dom().contains(id),
        |id: ObjectId|
            if ledger[id].lock_holder == Some(who) {
                ObjectView { state: ledger[id].state, lock_holder: None }
            } else {
                ledger[id]
            },
    )
}

/// Whether every lock in the ledger is held by one of `members`.
pub open spec fn holders_among(ledger: LedgerView, members: Set<Seq<char>>) -> bool {
    forall|id: ObjectId| #[trigger]
        ledger.dom().contains(id) ==> (ledger[id].lock_holder matches Some(h) ==> members.contains(
            h,
        ))
}

/// A shared object: its id, its state and the client that holds its lock.
#[derive(Debug)]
pub struct Object {
    id: ObjectId,
    lock_holder: Option<String>,
    state: String,
}

impl Object {
    /// The id under which the ledger keeps this object.
    pub closed spec fn key(&self) -> ObjectId {
        self.id
    }

    /// What the ledger records about this object.
    pub closed spec fn view(&self) -> ObjectView {
        ObjectView {
            state: self.state@,
            lock_holder: match self.lock_holder {
                Some(h) => Some(h@),
                None => None,
            },
        }
    }

    /// The id of the object.
    pub fn id(&self) -> (id: ObjectId)
        ensures
            id == self.key(),
    {
        self.id
    }

    /// The state of the object.
    pub fn state(&self) -> (state: &String)
        ensures
            state@ == self@.state,
    {
        &self.state
    }

    /// The client that holds the lock on the object, if any.
    pub fn lock_holder(&self) -> (holder: &Option<String>)
        ensures
            holder is Some <==> self@.lock_holder is Some,
            holder matches Some(h) ==> self@.lock_holder == Some(h@),
    {
        &self.lock_holder
    }

    /// Whether `who` may change the object.
    fn free_for(&self, who: &String) -> (free: bool)
        ensures
            free == (self@.lock_holder is None || self@.lock_holder == Some(who@)),
    {
        match &self.lock_holder {
            None => true,
            Some(h) => *h == *who,
        }
    }

    /// Whether `who` holds the lock on the object.
    fn held_by(&self, who: &String) -> (held: bool)
        ensures
            held == (self@.lock_holder == Some(who@)),
    {
        match &self.lock_holder {
            None => false,
            Some(h) => *h == *who,
        }
    }

    fn duplicate(&self) -> (copy: Object)
        ensures
            copy@ == self@,
            copy.key() == self.key(),
    {
        let lock_holder = match &self.lock_holder {
            Some(h) => Some(h.clone()),
            None => None,
        };
        Object { id: self.id, lock_holder, state: self.state.clone() }
    }
}

/// Whether no two objects of the sequence share an id.
spec fn ids_distinct(objects: Seq<Object>) -> bool {
    forall|i: int, j: int|
        0 <= i < j < objects.len() ==> (#[trigger] objects[i]).key() != (#[trigger] objects[j]).key()
}

/// Whether some object of the sequence has the id `id`.
spec fn has_id(objects: Seq<Object>, id: ObjectId) -> bool {
    exists|i: int| 0 <= i < objects.len() && (#[trigger] objects[i]).key() == id
}

/// The place of an object with the id `id` in the sequence.
spec fn slot_of(objects: Seq<Object>, id: ObjectId) -> int {
    choose|i: int| 0 <= i < objects.len() && (#[trigger] objects[i]).key() == id
}

/// The map that a sequence of objects with distinct ids stands for.
spec fn ledger_of(objects: Seq<Object>) -> LedgerView {
    Map::new(|id: ObjectId| has_id(objects, id), |id: ObjectId| objects[slot_of(objects, id)]@)
}

proof fn lemma_slot(objects: Seq<Object>, i: int)
    requires
        ids_distinct(objects),
        0 <= i < objects.len(),
    ensures
        has_id(objects, objects[i].key()),
        slot_of(objects, objects[i].key()) == i,
        ledger_of(objects).dom().contains(objects[i].key()),
        ledger_of(objects)[objects[i].key()] == objects[i]@,
{
    let id = objects[i].key();
    assert(has_id(objects, id));
    let k = slot_of(objects, id);
    assert(0 <= k < objects.len() && objects[k].key() == id);
    if k < i {
        assert(objects[k].key() != objects[i].key());
    } else if i < k {
        assert(objects[i].key() != objects[k].key());
    }
}

proof fn lemma_push(objects: Seq<Object>, object: Object)
    requires
        ids_distinct(objects),
        !has_id(objects, object.key()),
    ensures
        ids_distinct(objects.push(object)),
        ledger_of(objects.push(object)) == ledger_of(objects).insert(object.key(), object@),
{
    let grown = objects.push(object);
    assert(ids_distinct(grown)) by {
        assert forall|i: int, j: int| 0 <= i < j < grown.len() implies (#[trigger] grown[i]).key()
            != (#[trigger] grown[j]).key() by {
            if j < objects.len() {
                assert(objects[i].key() != objects[j].key());
            } else {
                assert(objects[i].key() != object.key());
            }
        }
    }
    let target = ledger_of(objects).insert(object.key(), object@);
    assert forall|id: ObjectId| ledger_of(grown).dom().contains(id) == target.dom().contains(
        id,
    ) by {
        if has_id(objects, id) {
            let k = slot_of(objects, id);
            assert(grown[k].key() == id);
        }
        if id == object.key() {
            assert(grown[objects.len() as int].key() == id);
        }
        if has_id(grown, id) {
            let k = slot_of(grown, id);
            if k < objects.len() {
                assert(objects[k].key() == id);
            }
        }
    }
    assert forall|id: ObjectId| ledger_of(grown).dom().contains(id) implies ledger_of(grown)[id]
        == target[id] by {
        let k = slot_of(grown, id);
        lemma_slot(grown, k);
        if k < objects.len() {
            assert(objects[k].key() == id);
            lemma_slot(objects, k);
        }
    }
    assert(ledger_of(grown) =~= target);
}

proof fn lemma_replace(objects: Seq<Object>, i: int, object: Object)
    requires
        ids_distinct(objects),
        0 <= i < objects.len(),
        objects[i].key() == object.key(),
    ensures
        ids_distinct(objects.update(i, object)),
        ledger_of(objects.update(i, object)) == ledger_of(objects).insert(object.key(), object@),
{
    let changed = objects.update(i, object);
    assert(ids_distinct(changed)) by {
        assert forall|a: int, b: int| 0 <= a < b < changed.len() implies (#[trigger] changed[a]).key()
            != (#[trigger] changed[b]).key() by {
            assert(objects[a].key() != objects[b].key());
        }
    }
    let target = ledger_of(objects).insert(object.key(), object@);
    assert forall|id: ObjectId| ledger_of(changed).dom().contains(id) == target.dom().contains(
        id,
    ) by {
        if has_id(objects, id) {
            let k = slot_of(objects, id);
            assert(changed[k].key() == id);
        }
        if id == object.key() {
            assert(changed[i].key() == id);
        }
        if has_id(changed, id) {
            let k = slot_of(changed, id);
            assert(objects[k].key() == id);
        }
    }
    assert forall|id: ObjectId| ledger_of(changed).dom().contains(id) implies ledger_of(
        changed,
    )[id] == target[id] by {
        let k = slot_of(changed, id);
        lemma_slot(changed, k);
        assert(objects[k].key() == id);
        lemma_slot(objects, k);
    }
    assert(ledger_of(changed) =~= target);
}

proof fn lemma_remove(objects: Seq<Object>, i: int)
    requires
        ids_distinct(objects),
        0 <= i < objects.len(),
    ensures
        ids_distinct(objects.remove(i)),
        ledger_of(objects.remove(i)) == ledger_of(objects).remove(objects[i].key()),
{
    let rest = objects.remove(i);
    let gone = objects[i].key();
    assert(ids_distinct(rest)) by {
        assert forall|a: int, b: int| 0 <= a < b < rest.len() implies (#[trigger] rest[a]).key() != (
        #[trigger] rest[b]).key() by {
            let a0 = if a < i { a } else { a + 1 };
            let b0 = if b < i { b } else { b + 1 };
            assert(objects[a0].key() != objects[b0].key());
        }
    }
    let target = ledger_of(objects).remove(gone);
    assert forall|id: ObjectId| ledger_of(rest).dom().contains(id) == target.dom().contains(
        id,
    ) by {
        if has_id(objects, id) && id != gone {
            let k = slot_of(objects, id);
            let k1 = if k < i { k } else { k - 1 };
            assert(rest[k1].key() == id);
        }
        if has_id(rest, id) {
            let k = slot_of(rest, id);
            let k0 = if k < i { k } else { k + 1 };
            assert(objects[k0].key() == id);
            if k0 < i {
                assert(objects[k0].key() != objects[i].key());
            } else {
                assert(objects[i].key() != objects[k0].key());
            }
        }
    }
    assert forall|id: ObjectId| ledger_of(rest).dom().contains(id) implies ledger_of(rest)[id]
        == target[id] by {
        let k = slot_of(rest, id);
        lemma_slot(rest, k);
        let k0 = if k < i { k } else { k + 1 };
        assert(objects[k0].key() == id);
        lemma_slot(objects, k0);
    }
    assert(ledger_of(rest) =~= target);
}

proof fn lemma_same(objects: Seq<Object>, copies: Seq<Object>)
    requires
        ids_distinct(objects),
        copies.len() == objects.len(),
        forall|j: int|
            0 <= j < objects.len() ==> (#[trigger] copies[j]).key() == objects[j].key()
                && copies[j]@ == objects[j]@,
    ensures
        ids_distinct(copies),
        ledger_of(copies) == ledger_of(objects),
{
    assert(ids_distinct(copies)) by {
        assert forall|a: int, b: int| 0 <= a < b < copies.len() implies (#[trigger] copies[a]).key()
            != (#[trigger] copies[b]).key() by {
            assert(objects[a].key() != objects[b].key());
        }
    }
    assert forall|id: ObjectId| ledger_of(copies).dom().contains(id) == ledger_of(
        objects,
    ).dom().contains(id) by {
        if has_id(objects, id) {
            let k = slot_of(objects, id);
            assert(copies[k].key() == id);
        }
        if has_id(copies, id) {
            let k = slot_of(copies, id);
            assert(objects[k].key() == id);
        }
    }
    assert forall|id: ObjectId| ledger_of(copies).dom().contains(id) implies ledger_of(copies)[id]
        == ledger_of(objects)[id] by {
        let k = slot_of(copies, id);
        lemma_slot(copies, k);
        assert(objects[k].key() == id);
        lemma_slot(objects, k);
    }
    assert(ledger_of(copies) =~= ledger_of(objects));
}

spec fn released_object(object: ObjectView, who: Seq<char>) -> ObjectView {
    if object.lock_holder == Some(who) {
        ObjectView { state: object.state, lock_holder: None }
    } else {
        object
    }
}

proof fn lemma_released(objects: Seq<Object>, changed: Seq<Object>, who: Seq<char>)
    requires
        ids_distinct(objects),
        changed.len() == objects.len(),
        forall|j: int|
            0 <= j < objects.len() ==> (#[trigger] changed[j]).key() == objects[j].key()
                && changed[j]@ == released_object(objects[j]@, who),
    ensures
        ids_distinct(changed),
        ledger_of(changed) == released(ledger_of(objects), who),
{
    assert(ids_distinct(changed)) by {
        assert forall|a: int, b: int| 0 <= a < b < changed.len() implies (#[trigger] changed[a]).key()
            != (#[trigger] changed[b]).key() by {
            assert(objects[a].key() != objects[b].key());
        }
    }
    let target = released(ledger_of(objects), who);
    assert forall|id: ObjectId| ledger_of(changed).dom().contains(id) == target.dom().contains(
        id,
    ) by {
        if has_id(objects, id) {
            let k = slot_of(objects, id);
            assert(changed[k].key() == id);
        }
        if has_id(changed, id) {
            let k = slot_of(changed, id);
            assert(objects[k].key() == id);
        }
    }
    assert forall|id: ObjectId| ledger_of(changed).dom().contains(id) implies ledger_of(
        changed,
    )[id] == target[id] by {
        let k = slot_of(changed, id);
        lemma_slot(changed, k);
        assert(objects[k].key() == id);
        lemma_slot(objects, k);
    }
    assert(ledger_of(changed) =~= target);
}

proof fn lemma_absent(objects: Seq<Object>, id: ObjectId)
    requires
        forall|j: int| 0 <= j < objects.len() ==> (#[trigger] objects[j]).key() != id,
    ensures
        !has_id(objects, id),
        !ledger_of(objects).dom().contains(id),
{
}

fn find_in(objects: &Vec<Object>, id: ObjectId) -> (slot: Option<usize>)
    requires
        ids_distinct(objects@),
    ensures
        match slot {
            Some(i) => i < objects@.len() && objects@[i as int].key() == id && ledger_of(
                objects@,
            ).dom().contains(id) && ledger_of(objects@)[id] == objects@[i as int]@,
            None => !ledger_of(objects@).dom().contains(id),
        },
{
    let mut i: usize = 0;
    while i < objects.len()
        invariant
            ids_distinct(objects@),
            i <= objects@.len(),
            forall|j: int| 0 <= j < i ==> (#[trigger] objects@[j]).key() != id,
        decreases objects@.len() - i,
    {
        if objects[i].id == id {
            proof {
                lemma_slot(objects@, i as int);
            }
            return Some(i);
        }
        i += 1;
    }
    proof {
        lemma_absent(objects@, id);
    }
    None
}

fn copy_of(objects: &Vec<Object>) -> (copies: Vec<Object>)
    requires
        ids_distinct(objects@),
    ensures
        ids_distinct(copies@),
        ledger_of(copies@) == ledger_of(objects@),
{
    let mut copies: Vec<Object> = Vec::new();
    let mut i: usize = 0;
    while i < objects.len()
        invariant
            i <= objects@.len(),
            copies@.len() == i,
            forall|j: int|
                0 <= j < i ==> (#[trigger] copies@[j]).key() == objects@[j].key() && copies@[j]@
                    == objects@[j]@,
        decreases objects@.len() - i,
    {
        copies.push(objects[i].duplicate());
        i += 1;
    }
    proof {
        lemma_same(objects@, copies@);
    }
    copies
}

fn release_in(objects: &mut Vec<Object>, who: &String)
    requires
        ids_distinct(old(objects)@),
    ensures
        ids_distinct(final(objects)@),
        ledger_of(final(objects)@) == released(ledger_of(old(objects)@), who@),
{
    let ghost start = objects@;
    let mut i: usize = 0;
    while i < objects.len()
        invariant
            i <= objects@.len(),
            objects@.len() == start.len(),
            forall|j: int|
                0 <= j < i ==> (#[trigger] objects@[j]).key() == start[j].key() && objects@[j]@
                    == released_object(start[j]@, who@),
            forall|j: int| i <= j < start.len() ==> #[trigger] objects@[j] == start[j],
        decreases objects@.len() - i,
    {
        if objects[i].held_by(who) {
            let object = Object {
                id: objects[i].id,
                lock_holder: None,
                state: objects[i].state.clone(),
            };
            objects.set(i, object);
        }
        i += 1;
    }
    proof {
        lemma_released(start, objects@, who@);
    }
}

fn lock_in(objects: &mut Vec<Object>, who: &String, id: ObjectId) -> (done: Result<(), Failure>)
    requires
        ids_distinct(old(objects)@),
    ensures
        ids_distinct(final(objects)@),
        match lock_one(ledger_of(old(objects)@), who@, id) {
            Ok(ledger) => done is Ok && ledger_of(final(objects)@) == ledger,
            Err(failure) => done == Err::<(), Failure>(failure) && final(objects)@ == old(
                objects,
            )@,
        },
{
    match find_in(objects, id) {
        None => {
            let object = Object { id, lock_holder: Some(who.clone()), state: String::new() };
            proof {
                lemma_push(objects@, object);
            }
            objects.push(object);
            Ok(())
        },
        Some(i) => {
            if objects[i].free_for(who) {
                let object = Object {
                    id,
                    lock_holder: Some(who.clone()),
                    state: objects[i].state.clone(),
                };
                proof {
                    lemma_replace(objects@, i as int, object);
                }
                objects.set(i, object);
                Ok(())
            } else {
                Err(Failure::LockConflict)
            }
        },
    }
}

fn unlock_in(objects: &mut Vec<Object>, who: &String, id: ObjectId) -> (done: Result<(), Failure>)
    requires
        ids_distinct(old(objects)@),
    ensures
        ids_distinct(final(objects)@),
        match unlock_one(ledger_of(old(objects)@), who@, id) {
            Ok(ledger) => done is Ok && ledger_of(final(objects)@) == ledger,
            Err(failure) => done == Err::<(), Failure>(failure) && final(objects)@ == old(
                objects,
            )@,
        },
{
    match find_in(objects, id) {
        None => Err(Failure::NotHolder),
        Some(i) => {
            if objects[i].held_by(who) {
                let object = Object { id, lock_holder: None, state: objects[i].state.clone() };
                proof {
                    lemma_replace(objects@, i as int, object);
                }
                objects.set(i, object);
                Ok(())
            } else {
                Err(Failure::NotHolder)
            }
        },
    }
}

fn update_in(objects: &mut Vec<Object>, who: &String, id: ObjectId, state: String) -> (done: Result<
    (),
    Failure,
>)
    requires
        ids_distinct(old(objects)@),
    ensures
        ids_distinct(final(objects)@),
        match update_one(ledger_of(old(objects)@), who@, id, state@) {
            Ok(ledger) => done is Ok && ledger_of(final(objects)@) == ledger,
            Err(failure) => done == Err::<(), Failure>(failure) && final(objects)@ == old(
                objects,
            )@,
        },
{
    match find_in(objects, id) {
        None => {
            let object = Object { id, lock_holder: None, state };
            proof {
                lemma_push(objects@, object);
            }
            objects.push(object);
            Ok(())
        },
        Some(i) => {
            if objects[i].free_for(who) {
                let lock_holder = if objects[i].held_by(who) {
                    Some(who.clone())
                } else {
                    None
                };
                let object = Object { id, lock_holder, state };
                proof {
                    lemma_replace(objects@, i as int, object);
                }
                objects.set(i, object);
                Ok(())
            } else {
                Err(Failure::LockedByOther)
            }
        },
    }
}

fn delete_in(objects: &mut Vec<Object>, who: &String, id: ObjectId) -> (done: Result<(), Failure>)
    requires
        ids_distinct(old(objects)@),
    ensures
        ids_distinct(final(objects)@),
        match delete_one(ledger_of(old(objects)@), who@, id) {
            Ok(ledger) => done is Ok && ledger_of(final(objects)@) == ledger,
            Err(failure) => done == Err::<(), Failure>(failure) && final(objects)@ == old(
                objects,
            )@,
        },
{
    match find_in(objects, id) {
        None => {
            assert(ledger_of(objects@).remove(id) =~= ledger_of(objects@));
            Ok(())
        },
        Some(i) => {
            if objects[i].free_for(who) {
                proof {
                    lemma_remove(objects@, i as int);
                }
                objects.remove(i);
                Ok(())
            } else {
                Err(Failure::LockedByOther)
            }
        },
    }
}

/// The object ledger of one room. No two of its objects share an id.
#[derive(Debug)]
pub struct Ledger {
    objects: Vec<Object>,
}

impl Ledger {
    #[verifier::type_invariant]
    spec fn distinct(&self) -> bool {
        ids_distinct(self.objects@)
    }

    /// The ledger as a map from object ids to what is recorded about them.
    pub closed spec fn view(&self) -> LedgerView {
        ledger_of(self.objects@)
    }

    /// A ledger without objects.
    pub fn new() -> (ledger: Ledger)
        ensures
            ledger@ == Map::<ObjectId, ObjectView>::empty(),
    {
        let ledger = Ledger { objects: Vec::new() };
        assert(ledger@ =~= Map::<ObjectId, ObjectView>::empty());
        ledger
    }

    /// A copy of the ledger.
    pub fn duplicate(&self) -> (copy: Ledger)
        ensures
            copy@ == self@,
    {
        proof {
            use_type_invariant(self);
        }
        Ledger { objects: copy_of(&self.objects) }
    }

    /// Looks up the object `id`.
    pub fn get(&self, id: ObjectId) -> (found: Option<&Object>)
        ensures
            found is Some <==> self@.dom().contains(id),
            found matches Some(object) ==> object.key() == id && object@ == self@[id],
    {
        proof {
            use_type_invariant(self);
        }
        match find_in(&self.objects, id) {
            Some(i) => Some(&self.objects[i]),
            None => None,
        }
    }

    /// Releases every lock that `who` holds.
    pub fn release(&mut self, who: &String)
        ensures
            final(self)@ == released(old(self)@, who@),
    {
        proof {
            use_type_invariant(&*self);
        }
        let mut objects: Vec<Object> = Vec::new();
        std::mem::swap(&mut objects, &mut self.objects);
        release_in(&mut objects, who);
        self.objects = objects;
    }

    /// Locks `id` for `who`, as `lock_one` describes. A refused request changes nothing.
    pub fn lock(&mut self, who: &String, id: ObjectId) -> (done: Result<(), Failure>)
        ensures
            match lock_one(old(self)@, who@, id) {
                Ok(ledger) => done is Ok && final(self)@ == ledger,
                Err(failure) => done == Err::<(), Failure>(failure) && final(self)@ == old(self)@,
            },
    {
        proof {
            use_type_invariant(&*self);
        }
        let mut objects: Vec<Object> = Vec::new();
        std::mem::swap(&mut objects, &mut self.objects);
        let done = lock_in(&mut objects, who, id);
        self.objects = objects;
        done
    }

    /// Unlocks `id` for `who`, as `unlock_one` describes. A refused request changes nothing.
    pub fn unlock(&mut self, who: &String, id: ObjectId) -> (done: Result<(), Failure>)
        ensures
            match unlock_one(old(self)@, who@, id) {
                Ok(ledger) => done is Ok && final(self)@ == ledger,
                Err(failure) => done == Err::<(), Failure>(failure) && final(self)@ == old(self)@,
            },
    {
        proof {
            use_type_invariant(&*self);
        }
        let mut objects: Vec<Object> = Vec::new();
        std::mem::swap(&mut objects, &mut self.objects);
        let done = unlock_in(&mut objects, who, id);
        self.objects = objects;
        done
    }

    /// Replaces the state of `id`, as `update_one` describes. A refused request changes nothing.
    pub fn update(&mut self, who: &String, id: ObjectId, state: String) -> (done: Result<
        (),
        Failure,
    >)
        ensures
            match update_one(old(self)@, who@, id, state@) {
                Ok(ledger) => done is Ok && final(self)@ == ledger,
                Err(failure) => done == Err::<(), Failure>(failure) && final(self)@ == old(self)@,
            },
    {
        proof {
            use_type_invariant(&*self);
        }
        let mut objects: Vec<Object> = Vec::new();
        std::mem::swap(&mut objects, &mut self.objects);
        let done = update_in(&mut objects, who, id, state);
        self.objects = objects;
        done
    }

    /// Deletes `id`, as `delete_one` describes. A refused request changes nothing.
    pub fn delete(&mut self, who: &String, id: ObjectId) -> (done: Result<(), Failure>)
        ensures
            match delete_one(old(self)@, who@, id) {
                Ok(ledger) => done is Ok && final(self)@ == ledger,
                Err(failure) => done == Err::<(), Failure>(failure) && final(self)@ == old(self)@,
            },
    {
        proof {
            use_type_invariant(&*self);
        }
        let mut objects: Vec<Object> = Vec::new();
        std::mem::swap(&mut objects, &mut self.objects);
        let done = delete_in(&mut objects, who, id);
        self.objects = objects;
        done
    }
}

} // verus!
