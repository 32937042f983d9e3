//! The rules of the object update protocol: what an action does to a ledger,
//! what a batch of actions does, and what follows from that.

use vstd::prelude::*;
use crate::ledger::{
    delete_one, free_for, holder, holders_among, lock_one, unlock_one, update_one, Failure,
    LedgerView, ObjectId,
};
use crate::protocol::ActionType;

verus! {

/// One action as the rules see it.
pub struct ActionView {
    /// What the action asks for.
    pub kind: ActionType,
    /// The objects that it refers to, in order.
    pub reference: Seq<ObjectId>,
    /// The states that it carries, if any.
    pub states: Option<Seq<Seq<char>>>,
}

/// The number of states that an action carries.
pub open spec fn states_len(action: ActionView) -> nat {
    match action.states {
        Some(states) => states.len(),
        None => 0,
    }
}

/// The state that an action carries for its `k`-th object.
pub open spec fn state_at(action: ActionView, k: int) -> Seq<char> {
    match action.states {
        Some(states) => states[k],
        None => Seq::empty(),
    }
}

/// What an action does for its `k`-th object.
pub open spec fn step_one(ledger: LedgerView, who: Seq<char>, action: ActionView, k: int) -> Result<
    LedgerView,
    Failure,
> {
    match action.kind {
        ActionType::Lock => lock_one(ledger, who, action.reference[k]),
        ActionType::Unlock => unlock_one(ledger, who, action.reference[k]),
        ActionType::Update => update_one(ledger, who, action.reference[k], state_at(action, k)),
        ActionType::Delete => delete_one(ledger, who, action.reference[k]),
        ActionType::Broadcast => Ok(ledger),
    }
}

/// What an action does for its first `n` objects, taken in order: each one sees
/// the ledger as the ones before it left it, and the first refusal ends the action.
pub open spec fn apply_refs(ledger: LedgerView, who: Seq<char>, action: ActionView, n: nat) -> Result<
    LedgerView,
    Failure,
>
    decreases n,
{
    if n == 0 {
        Ok(ledger)
    } else {
        match apply_refs(ledger, who, action, (n - 1) as nat) {
            Ok(so_far) => step_one(so_far, who, action, n - 1),
            Err(failure) => Err(failure),
        }
    }
}

/// What one action does to a ledger. An update that does not carry exactly one
/// state for each object it names is refused before anything else is looked at.
pub open spec fn apply_action(ledger: LedgerView, who: Seq<char>, action: ActionView) -> Result<
    LedgerView,
    Failure,
> {
    if action.kind == ActionType::Update && action.reference.len() != states_len(action) {
        Err(Failure::LengthMismatch)
    } else {
        apply_refs(ledger, who, action, action.reference.len())
    }
}

/// The refusal of a batch: which action failed, what it asked for and why.
pub struct Refusal {
    /// The place of the failing action in the batch, counted from zero.
    pub index: nat,
    /// What the failing action asked for.
    pub kind: ActionType,
    /// Why it was refused.
    pub failure: Failure,
}

/// What the first `n` actions of a batch do to a ledger, taken in order: each
/// one sees the ledger as the ones before it left it, and the first refusal
/// ends the batch.
pub open spec fn apply_batch(
    ledger: LedgerView,
    who: Seq<char>,
    actions: Seq<ActionView>,
    n: nat,
) -> Result<LedgerView, Refusal>
    decreases n,
{
    if n == 0 {
        Ok(ledger)
    } else {
        match apply_batch(ledger, who, actions, (n - 1) as nat) {
            Ok(so_far) => match apply_action(so_far, who, actions[n - 1]) {
                Ok(next) => Ok(next),
                Err(failure) => Err(
                    Refusal { index: (n - 1) as nat, kind: actions[n - 1].kind, failure },
                ),
            },
            Err(refusal) => Err(refusal),
        }
    }
}

/// An action of the kind `kind` on the one object `id`, carrying no state.
pub open spec fn single(kind: ActionType, id: ObjectId) -> ActionView {
    ActionView { kind, reference: seq![id], states: None }
}

/// Lock exclusivity. Once `a` has locked an unlocked object, `b` can neither
/// lock nor unlock it; `a` can unlock it, and after that `b` can lock it.
pub proof fn law_lock_exclusivity(ledger: LedgerView, a: Seq<char>, b: Seq<char>, id: ObjectId)
    requires
        a != b,
        holder(ledger, id) is None,
    ensures
        apply_action(ledger, a, single(ActionType::Lock, id)) matches Ok(locked) && {
            &&& holder(locked, id) == Some(a)
            &&& apply_action(locked, b, single(ActionType::Lock, id)) == Err::<
                LedgerView,
                Failure,
            >(Failure::LockConflict)
            &&& apply_action(locked, b, single(ActionType::Unlock, id)) == Err::<
                LedgerView,
                Failure,
            >(Failure::NotHolder)
            &&& apply_action(locked, a, single(ActionType::Unlock, id)) matches Ok(unlocked) && {
                &&& holder(unlocked, id) is None
                &&& apply_action(unlocked, b, single(ActionType::Lock, id)) matches Ok(relocked)
                    && holder(relocked, id) == Some(b)
            }
        },
{
    reveal_with_fuel(apply_refs, 2);
}

/// Atomic batch. A batch of a lock that is granted and an update that does not
/// carry one state for each object it names is refused as a whole, for the
/// update's wrong length.
pub proof fn law_atomic_batch(
    ledger: LedgerView,
    who: Seq<char>,
    locked: ObjectId,
    update: ActionView,
)
    requires
        free_for(ledger, who, locked),
        update.kind == ActionType::Update,
        update.reference.len() != states_len(update),
    ensures
        apply_batch(ledger, who, seq![single(ActionType::Lock, locked), update], 2) == Err::<
            LedgerView,
            Refusal,
        >(Refusal { index: 1, kind: ActionType::Update, failure: Failure::LengthMismatch }),
{
    reveal_with_fuel(apply_refs, 2);
    reveal_with_fuel(apply_batch, 3);
}

/// A refusal stays: once a prefix of an action's objects is refused, so is the action.
pub proof fn lemma_refs_refused(
    ledger: LedgerView,
    who: Seq<char>,
    action: ActionView,
    k: nat,
    n: nat,
)
    requires
        k <= n,
        apply_refs(ledger, who, action, k) is Err,
    ensures
        apply_refs(ledger, who, action, n) == apply_refs(ledger, who, action, k),
    decreases n,
{
    if k < n {
        lemma_refs_refused(ledger, who, action, k, (n - 1) as nat);
    }
}

/// A refusal stays: once a prefix of a batch is refused, so is the batch.
pub proof fn lemma_batch_refused(
    ledger: LedgerView,
    who: Seq<char>,
    actions: Seq<ActionView>,
    k: nat,
    n: nat,
)
    requires
        k <= n,
        apply_batch(ledger, who, actions, k) is Err,
    ensures
        apply_batch(ledger, who, actions, n) == apply_batch(ledger, who, actions, k),
    decreases n,
{
    if k < n {
        lemma_batch_refused(ledger, who, actions, k, (n - 1) as nat);
    }
}

/// One step of an action gives a lock to nobody but the requester.
pub proof fn lemma_step_holders(
    ledger: LedgerView,
    who: Seq<char>,
    action: ActionView,
    k: int,
    members: Set<Seq<char>>,
)
    requires
        holders_among(ledger, members),
        members.contains(who),
    ensures
        step_one(ledger, who, action, k) matches Ok(next) ==> holders_among(next, members),
{
    if let Ok(next) = step_one(ledger, who, action, k) {
        assert forall|id: ObjectId| #[trigger] next.dom().contains(id) implies (
        next[id].lock_holder matches Some(h) ==> members.contains(h)) by {
            if id != action.reference[k] {
                assert(ledger.dom().contains(id));
            } else if ledger.dom().contains(id) {
            }
        }
    }
}

/// The objects of an action give a lock to nobody but the requester.
pub proof fn lemma_refs_holders(
    ledger: LedgerView,
    who: Seq<char>,
    action: ActionView,
    n: nat,
    members: Set<Seq<char>>,
)
    requires
        holders_among(ledger, members),
        members.contains(who),
    ensures
        apply_refs(ledger, who, action, n) matches Ok(next) ==> holders_among(next, members),
    decreases n,
{
    if n > 0 {
        lemma_refs_holders(ledger, who, action, (n - 1) as nat, members);
        if let Ok(so_far) = apply_refs(ledger, who, action, (n - 1) as nat) {
            lemma_step_holders(so_far, who, action, n - 1, members);
        }
    }
}

/// A batch gives a lock to nobody but the requester: if every lock was held by
/// a member before and the requester is a member, every lock is held by a
/// member afterwards.
pub proof fn lemma_batch_holders(
    ledger: LedgerView,
    who: Seq<char>,
    actions: Seq<ActionView>,
    n: nat,
    members: Set<Seq<char>>,
)
    requires
        holders_among(ledger, members),
        members.contains(who),
    ensures
        apply_batch(ledger, who, actions, n) matches Ok(next) ==> holders_among(next, members),
    decreases n,
{
    if n > 0 {
        lemma_batch_holders(ledger, who, actions, (n - 1) as nat, members);
        if let Ok(so_far) = apply_batch(ledger, who, actions, (n - 1) as nat) {
            lemma_refs_holders(
                so_far,
                who,
                actions[n - 1],
                actions[n - 1].reference.len(),
                members,
            );
        }
    }
}

} // verus!
