//! Ownership of one descriptor lock, and of an ordered set of them.

use vstd::prelude::*;
use vstd::string::*;

use crate::error::{IoFailure, IoStep, LockError};
use crate::event::{LockEvent, LockEventKind};
#[allow(unused_imports)]
use crate::event::{optional_event, EventView};
use crate::manager::ManagerState;
use crate::order::{HeldOrder, HeldOrderRegistration};
#[allow(unused_imports)]
use crate::order::{law_unregister_forgets_the_latest, without_last};
use crate::owner::OwnerInfo;
#[allow(unused_imports)]
use crate::owner::OwnerView;
use crate::path::LockPath;
use crate::request::LockClass;

verus! {

/// Mathematical form of a guard.
pub struct GuardView {
    /// Whether the descriptor lock is still owned.
    pub holds: bool,
    pub path: Seq<u8>,
    pub operation: Seq<char>,
    pub class: LockClass,
    pub owner: OwnerView,
    pub reservation: Option<Seq<u8>>,
    pub registration: Option<(u16, Seq<u8>)>,
}

/// Ownership of one exclusive descriptor lock: what has to be undone when the
/// descriptor is unlocked.
#[derive(Debug)]
pub struct LockGuard {
    holds: bool,
    path: LockPath,
    operation: String,
    class: LockClass,
    owner: OwnerInfo,
    reservation: Option<LockPath>,
    order_registration: Option<HeldOrderRegistration>,
}

pub open spec fn optional_path(path: Option<LockPath>) -> Option<Seq<u8>> {
    match path {
        Some(value) => Some(value@),
        None => None,
    }
}

pub open spec fn optional_registration(registration: Option<HeldOrderRegistration>) -> Option<
    (u16, Seq<u8>),
> {
    match registration {
        Some(value) => Some(value@),
        None => None,
    }
}

impl View for LockGuard {
    type V = GuardView;

    closed spec fn view(&self) -> GuardView {
        GuardView {
            holds: self.holds,
            path: self.path@,
            operation: self.operation@,
            class: self.class,
            owner: self.owner@,
            reservation: optional_path(self.reservation),
            registration: optional_registration(self.order_registration),
        }
    }
}

/// The guard after its lock has been given up.
pub open spec fn released_guard(guard: GuardView) -> GuardView {
    GuardView { holds: false, reservation: None, registration: None, ..guard }
}

/// The event that tells of the release.
pub open spec fn released_event(guard: GuardView) -> EventView {
    EventView {
        kind: LockEventKind::Released,
        path: guard.path,
        operation: guard.operation,
        class: guard.class,
        elapsed: None,
        owner: Some(guard.owner),
        detail: None,
    }
}

/// The reservations without that of the guard.
pub open spec fn reserved_without(
    reserved: Set<Seq<u8>>,
    reservation: Option<Seq<u8>>,
) -> Set<Seq<u8>> {
    match reservation {
        Some(identity) => reserved.remove(identity),
        None => reserved,
    }
}

/// The held locks without that of the guard.
pub open spec fn held_without(
    held: Seq<(u16, Seq<u8>)>,
    registration: Option<(u16, Seq<u8>)>,
) -> Seq<(u16, Seq<u8>)> {
    match registration {
        Some(lock) => without_last(held, lock),
        None => held,
    }
}

/// What a release leads to: an event to emit and the result for the caller.
#[derive(Debug)]
pub struct ReleaseOutcome {
    pub event: Option<LockEvent>,
    pub result: Result<(), LockError>,
}

impl LockGuard {
    /// A guard for a lock that has just been granted.
    pub(crate) fn granted(
        path: LockPath,
        operation: &str,
        class: LockClass,
        owner: OwnerInfo,
        reservation: Option<LockPath>,
        order_registration: HeldOrderRegistration,
    ) -> (guard: LockGuard)
        ensures
            guard@ == (GuardView {
                holds: true,
                path: path@,
                operation: operation@,
                class,
                owner: owner@,
                reservation: optional_path(reservation),
                registration: Some(order_registration@),
            }),
    {
        LockGuard {
            holds: true,
            path,
            operation: operation.to_owned(),
            class,
            owner,
            reservation,
            order_registration: Some(order_registration),
        }
    }

    pub fn path(&self) -> (path: &LockPath)
        ensures
            path@ == self@.path,
    {
        &self.path
    }

    pub fn operation_name(&self) -> (operation: &str)
        ensures
            operation@ == self@.operation,
    {
        self.operation.as_str()
    }

    pub fn lock_class(&self) -> (class: LockClass)
        ensures
            class == self@.class,
    {
        self.class
    }

    pub fn owner_info(&self) -> (owner: &OwnerInfo)
        ensures
            owner@ == self@.owner,
    {
        &self.owner
    }

    /// Whether the descriptor lock is still owned.
    pub fn is_held(&self) -> (held: bool)
        ensures
            held == self@.holds,
    {
        self.holds
    }

    /// Settle the release of the lock after the descriptor was unlocked.
    ///
    /// The order registration and the reservation go, and one event is due,
    /// whether or not unlocking succeeded. A guard that was released before
    /// changes nothing and reports nothing.
    pub fn release(
        &mut self,
        state: &mut ManagerState,
        held: &mut HeldOrder,
        unlocked: Result<(), IoFailure>,
    ) -> (outcome: ReleaseOutcome)
        ensures
            final(state).active_waiters() == old(state).active_waiters(),
            final(state).waiter_limit() == old(state).waiter_limit(),
            old(self)@.holds ==> {
                &&& final(self)@ == released_guard(old(self)@)
                &&& final(state).reserved_set() == reserved_without(
                    old(state).reserved_set(),
                    old(self)@.reservation,
                )
                &&& final(held)@ == held_without(old(held)@, old(self)@.registration)
                &&& optional_event(outcome.event) == Some(released_event(old(self)@))
                &&& match (unlocked, outcome.result) {
                    (Ok(()), Ok(())) => true,
                    (Err(failure), Err(LockError::Io { step, path, failure: cause })) => {
                        &&& step == IoStep::Unlock
                        &&& path@ == old(self)@.path
                        &&& cause == failure
                    },
                    _ => false,
                }
            },
            !old(self)@.holds ==> {
                &&& final(self)@ == old(self)@
                &&& final(state).reserved_set() == old(state).reserved_set()
                &&& final(held)@ == old(held)@
                &&& outcome.event is None
                &&& outcome.result is Ok
            },
    {
        if !self.holds {
            return ReleaseOutcome { event: None, result: Ok(()) };
        }
        self.holds = false;
        let event = self.finish_release(state, held);
        let result = match unlocked {
            Ok(()) => Ok(()),
            Err(failure) => Err(
                LockError::Io { step: IoStep::Unlock, path: self.path.clone(), failure },
            ),
        };
        ReleaseOutcome { event: Some(event), result }
    }

    fn finish_release(&mut self, state: &mut ManagerState, held: &mut HeldOrder) -> (event:
        LockEvent)
        requires
            !old(self)@.holds,
        ensures
            final(self)@ == released_guard(old(self)@),
            final(state).active_waiters() == old(state).active_waiters(),
            final(state).waiter_limit() == old(state).waiter_limit(),
            final(state).reserved_set() == reserved_without(
                old(state).reserved_set(),
                old(self)@.reservation,
            ),
            final(held)@ == held_without(old(held)@, old(self)@.registration),
            event@ == released_event(old(self)@),
    {
        if let Some(registration) = self.order_registration.take() {
            held.unregister(&registration);
        }
        let reservation = self.reservation.take();
        state.remove_reservation(&reservation);
        LockEvent {
            kind: LockEventKind::Released,
            path: self.path.clone(),
            operation: self.operation.as_str().to_owned(),
            class: self.class,
            elapsed: None,
            owner: Some(self.owner.clone()),
            detail: None,
        }
    }
}

/// A deterministically ordered set of guards. Release unwinds from the lock
/// that was acquired last to the one acquired first.
#[derive(Debug)]
pub struct LockSetGuard<G> {
    guards: Vec<G>,
}

impl<G> View for LockSetGuard<G> {
    type V = Seq<G>;

    closed spec fn view(&self) -> Seq<G> {
        self.guards@
    }
}

impl<G> LockSetGuard<G> {
    /// Guards in the order in which they were acquired.
    pub fn new(guards: Vec<G>) -> (set: LockSetGuard<G>)
        ensures
            set@ == guards@,
    {
        LockSetGuard { guards }
    }

    pub fn len(&self) -> (len: usize)
        ensures
            len == self@.len(),
    {
        self.guards.len()
    }

    pub fn is_empty(&self) -> (empty: bool)
        ensures
            empty == (self@.len() == 0),
    {
        self.guards.len() == 0
    }

    /// Take out the guard that has to be released next: the latest one.
    pub fn next_release(&mut self) -> (guard: Option<G>)
        ensures
            match guard {
                Some(latest) => old(self)@.len() > 0 && latest == old(self)@.last() && final(self)@
                    == old(self)@.drop_last(),
                None => old(self)@.len() == 0 && final(self)@ == old(self)@,
            },
    {
        self.guards.pop()
    }
}

/// The order in which taking out the latest guard, again and again, empties a
/// set.
pub open spec fn release_order<G>(guards: Seq<G>) -> Seq<G>
    decreases guards.len(),
{
    if guards.len() == 0 {
        guards
    } else {
        seq![guards.last()] + release_order(guards.drop_last())
    }
}

/// A set of guards is released in the reverse of the order of acquisition.
pub proof fn law_release_reverses_acquisition<G>(guards: Seq<G>)
    ensures
        release_order(guards) == guards.reverse(),
    decreases guards.len(),
{
    if guards.len() > 0 {
        law_release_reverses_acquisition(guards.drop_last());
        assert(guards.reverse() =~= seq![guards.last()] + guards.drop_last().reverse());
    } else {
        assert(guards.reverse() =~= guards);
    }
}

/// The first error among several results.
#[derive(Debug)]
pub struct FirstError<E> {
    first: Option<E>,
}

/// The first error once one more result is known.
pub open spec fn noted<E>(first: Option<E>, result: Result<(), E>) -> Option<E> {
    match (first, result) {
        (Some(error), _) => Some(error),
        (None, Err(error)) => Some(error),
        (None, Ok(())) => None,
    }
}

/// What is left after noting all the results in turn.
pub open spec fn first_error<E>(results: Seq<Result<(), E>>) -> Option<E>
    decreases results.len(),
{
    if results.len() == 0 {
        None
    } else {
        noted(first_error(results.drop_last()), results.last())
    }
}

impl<E> View for FirstError<E> {
    type V = Option<E>;

    closed spec fn view(&self) -> Option<E> {
        self.first
    }
}

impl<E> FirstError<E> {
    /// No result so far.
    pub fn new() -> (errors: FirstError<E>)
        ensures
            errors@ is None,
    {
        FirstError { first: None }
    }

    /// Note one more result.
    pub fn record(&mut self, result: Result<(), E>)
        ensures
            final(self)@ == noted(old(self)@, result),
    {
        if let Err(error) = result {
            if self.first.is_none() {
                self.first = Some(error);
            }
        }
    }

    /// The outcome of the whole.
    pub fn into_result(self) -> (result: Result<(), E>)
        ensures
            match result {
                Ok(()) => self@ is None,
                Err(error) => self@ == Some(error),
            },
    {
        match self.first {
            Some(error) => Err(error),
            None => Ok(()),
        }
    }
}

/// Noting the results of several releases in turn keeps the error before which
/// no release failed.
pub proof fn law_first_error_is_earliest<E>(results: Seq<Result<(), E>>, i: int)
    requires
        0 <= i < results.len(),
        results[i] is Err,
        forall|k: int| 0 <= k < i ==> results[k] is Ok,
    ensures
        first_error(results) == Some(results[i]->Err_0),
    decreases results.len(),
{
    if i < results.len() - 1 {
        law_first_error_is_earliest(results.drop_last(), i);
    } else {
        lemma_no_error(results.drop_last());
    }
}

proof fn lemma_no_error<E>(results: Seq<Result<(), E>>)
    requires
        forall|k: int| 0 <= k < results.len() ==> results[k] is Ok,
    ensures
        first_error(results) is None,
    decreases results.len(),
{
    if results.len() > 0 {
        lemma_no_error(results.drop_last());
    }
}

/// Where no release failed there is no error to report.
pub proof fn law_no_failure_is_no_error<E>(results: Seq<Result<(), E>>)
    requires
        forall|k: int| 0 <= k < results.len() ==> results[k] is Ok,
    ensures
        first_error(results) is None,
{
    lemma_no_error(results);
}

/// A release changes what a guard holds and nothing that it says about its lock.
pub proof fn law_release_keeps_what_a_guard_says(guard: GuardView)
    ensures
        ({
            let released = released_guard(guard);
            &&& !released.holds
            &&& released.reservation is None
            &&& released.registration is None
            &&& released.path == guard.path
            &&& released.operation == guard.operation
            &&& released.class == guard.class
            &&& released.owner == guard.owner
        }),
        ({
            let event = released_event(guard);
            &&& event.kind == LockEventKind::Released
            &&& event.path == guard.path
            &&& event.operation == guard.operation
            &&& event.class == guard.class
            &&& event.owner == Some(guard.owner)
            &&& event.elapsed is None
            &&& event.detail is None
        }),
{
}

/// A release frees the identity that the guard reserved and no other, and takes
/// its registration, where the thread has it, off the thread's locks.
pub proof fn law_release_frees_only_its_own(
    reserved: Set<Seq<u8>>,
    identity: Seq<u8>,
    other: Seq<u8>,
    before: Seq<(u16, Seq<u8>)>,
    lock: (u16, Seq<u8>),
    after: Seq<(u16, Seq<u8>)>,
)
    requires
        !after.contains(lock),
    ensures
        !reserved_without(reserved, Some(identity)).contains(identity),
        other != identity ==> (reserved_without(reserved, Some(identity)).contains(other)
            <==> reserved.contains(other)),
        reserved_without(reserved, None) == reserved,
        held_without(before.push(lock) + after, Some(lock)) == before + after,
        held_without(after, Some(lock)) == after,
        held_without(after, None) == after,
{
    law_unregister_forgets_the_latest(before, lock, after);
}

} // verus!
