//! The decisions of a lock manager.
//!
//! Opening, locking and unlocking files is done outside: each function here
//! takes what the operating system answered and says what follows from it.

use vstd::prelude::*;
use vstd::string::*;

use crate::error::{IoErrorKind, IoFailure, IoStep, LockError};
use crate::event::{LockEvent, LockEventKind};
#[allow(unused_imports)]
use crate::event::{optional_event, request_event, EventView};
use crate::guard::LockGuard;
#[allow(unused_imports)]
use crate::guard::{
    held_without, optional_path, released_event, released_guard, reserved_without, GuardView,
};
use crate::limiter::WaiterLimiter;
use crate::order::HeldOrder;
#[allow(unused_imports)]
use crate::order::{last_greatest, law_unregister_undoes_register, order_allows, order_keys};
use crate::owner::OwnerInfo;
#[allow(unused_imports)]
use crate::owner::OwnerView;
use crate::path::{LockPath, Platform};
use crate::rendezvous::OpenedRendezvous;
#[allow(unused_imports)]
use crate::rendezvous::{opened_for, plan_of, vetted};
#[allow(unused_imports)]
use crate::request::LockClass;
use crate::request::{LockRequest, SameProcessPolicy};
#[allow(unused_imports)]
use crate::request::RequestView;
use crate::reserved::ReservedIdentities;
use crate::span::Span;
use crate::waiter::LockWaiter;
#[allow(unused_imports)]
use crate::waiter::{disarmed, WaiterView};

verus! {

/// How many background waiters a manager allows unless told otherwise.
pub const DEFAULT_MAX_WAITERS: usize = 128;

/// The error number of an ordinary contended `LockFileEx` call.
pub const ERROR_LOCK_VIOLATION: i32 = 33;

/// The part of a manager that its users share and change.
#[derive(Debug)]
pub struct ManagerState {
    limiter: WaiterLimiter,
    reserved: ReservedIdentities,
}

impl ManagerState {
    /// Background waiters in use.
    pub closed spec fn active_waiters(self) -> usize {
        self.limiter.spec_active()
    }

    /// Background waiters allowed.
    pub closed spec fn waiter_limit(self) -> usize {
        self.limiter.spec_limit()
    }

    /// Identities that the process owns or waits for.
    pub closed spec fn reserved_set(self) -> Set<Seq<u8>> {
        self.reserved@
    }

    /// Free a reservation, where there is one.
    pub fn remove_reservation(&mut self, reservation: &Option<LockPath>)
        ensures
            final(self).active_waiters() == old(self).active_waiters(),
            final(self).waiter_limit() == old(self).waiter_limit(),
            final(self).reserved_set() == reserved_without(
                old(self).reserved_set(),
                optional_path(*reservation),
            ),
    {
        if let Some(identity) = reservation {
            self.reserved.remove(identity);
        }
    }

    /// Give back the permit of a background waiter.
    pub fn release_waiter(&mut self)
        requires
            old(self).active_waiters() > 0,
        ensures
            final(self).active_waiters() == old(self).active_waiters() - 1,
            final(self).waiter_limit() == old(self).waiter_limit(),
            final(self).reserved_set() == old(self).reserved_set(),
    {
        self.limiter.release();
    }
}

/// Collects the settings of a manager.
pub struct LockManagerBuilder<S> {
    max_waiters: usize,
    platform: Platform,
    event_sink: Option<S>,
}

/// The settings of a manager, which do not change.
pub struct LockManager<S> {
    max_waiters: usize,
    platform: Platform,
    event_sink: Option<S>,
}

impl<S> LockManagerBuilder<S> {
    #[verifier::type_invariant]
    spec fn allows_a_waiter(&self) -> bool {
        self.max_waiters > 0
    }
}

impl<S> LockManager<S> {
    #[verifier::type_invariant]
    spec fn allows_a_waiter(&self) -> bool {
        self.max_waiters > 0
    }
}

/// Settings as plain values.
pub struct SettingsView<S> {
    pub max_waiters: usize,
    pub platform: Platform,
    pub event_sink: Option<S>,
}

impl<S> View for LockManagerBuilder<S> {
    type V = SettingsView<S>;

    closed spec fn view(&self) -> SettingsView<S> {
        SettingsView {
            max_waiters: self.max_waiters,
            platform: self.platform,
            event_sink: self.event_sink,
        }
    }
}

impl<S> View for LockManager<S> {
    type V = SettingsView<S>;

    closed spec fn view(&self) -> SettingsView<S> {
        SettingsView {
            max_waiters: self.max_waiters,
            platform: self.platform,
            event_sink: self.event_sink,
        }
    }
}

/// Settings on a host before anything else is said: the default cap, and no
/// sink.
pub open spec fn default_settings<S>(platform: Platform) -> SettingsView<S> {
    SettingsView { max_waiters: DEFAULT_MAX_WAITERS, platform, event_sink: None }
}

impl<S> LockManagerBuilder<S> {
    /// The cap on background waiters; zero counts as one.
    pub fn max_waiters(self, max_waiters: usize) -> (builder: Self)
        ensures
            builder@ == (SettingsView {
                max_waiters: if max_waiters == 0 {
                    1
                } else {
                    max_waiters
                },
                ..self@
            }),
    {
        let mut builder = self;
        builder.max_waiters = if max_waiters == 0 {
            1
        } else {
            max_waiters
        };
        builder
    }

    /// Where lifecycle events go.
    pub fn event_sink(self, sink: S) -> (builder: Self)
        ensures
            builder@ == (SettingsView { event_sink: Some(sink), ..self@ }),
    {
        proof {
            use_type_invariant(&self);
        }
        let mut builder = self;
        builder.event_sink = Some(sink);
        builder
    }

    pub fn build(self) -> (manager: LockManager<S>)
        ensures
            manager@ == self@,
    {
        proof {
            use_type_invariant(&self);
        }
        LockManager {
            max_waiters: self.max_waiters,
            platform: self.platform,
            event_sink: self.event_sink,
        }
    }
}

/// The failure means that somebody else owns the lock.
pub open spec fn contended(failure: IoFailure, platform: Platform) -> bool {
    failure.kind == IoErrorKind::WouldBlock || (platform is Windows && failure.raw_os_error == Some(
        ERROR_LOCK_VIOLATION,
    ))
}

/// Whether a failed non-blocking lock request met an owner. Windows reports
/// that as `ERROR_LOCK_VIOLATION` rather than as a call that would block.
pub fn is_lock_contention(failure: &IoFailure, platform: Platform) -> (contention: bool)
    ensures
        contention == contended(*failure, platform),
        failure.kind == IoErrorKind::WouldBlock ==> contention,
        failure.kind != IoErrorKind::WouldBlock && platform !is Windows ==> !contention,
        failure.kind != IoErrorKind::WouldBlock && platform is Windows ==> (contention
            <==> failure.raw_os_error == Some(33i32)),
{
    if failure.kind == IoErrorKind::WouldBlock {
        return true;
    }
    if platform == Platform::Windows {
        match failure.raw_os_error {
            Some(code) => code == ERROR_LOCK_VIOLATION,
            None => false,
        }
    } else {
        false
    }
}

/// Whether an acquisition waits in the kernel or gives up under contention.
#[derive(Debug, Clone, Copy, PartialEq, Eq, Structural)]
pub enum AcquireMode {
    Blocking,
    Try,
}

/// An acquisition whose lock file has to be opened next.
#[derive(Debug)]
pub struct PendingOpen {
    request: LockRequest,
    mode: AcquireMode,
}

impl PendingOpen {
    pub closed spec fn spec_request(self) -> RequestView {
        self.request@
    }

    pub closed spec fn spec_mode(self) -> AcquireMode {
        self.mode
    }

    pub fn request(&self) -> (request: &LockRequest)
        ensures
            request@ == self.spec_request(),
    {
        &self.request
    }
}

/// An acquisition whose descriptor has to be locked next.
#[derive(Debug)]
pub struct PendingLock {
    request: LockRequest,
    mode: AcquireMode,
    identity: LockPath,
    reservation: Option<LockPath>,
}

impl PendingLock {
    pub closed spec fn spec_request(self) -> RequestView {
        self.request@
    }

    pub closed spec fn spec_mode(self) -> AcquireMode {
        self.mode
    }

    pub closed spec fn spec_identity(self) -> Seq<u8> {
        self.identity@
    }

    pub closed spec fn spec_reservation(self) -> Option<Seq<u8>> {
        optional_path(self.reservation)
    }

    pub fn request(&self) -> (request: &LockRequest)
        ensures
            request@ == self.spec_request(),
    {
        &self.request
    }

    /// Whether the kernel call may wait.
    pub fn mode(&self) -> (mode: AcquireMode)
        ensures
            mode == self.spec_mode(),
    {
        self.mode
    }

    pub fn identity(&self) -> (identity: &LockPath)
        ensures
            identity@ == self.spec_identity(),
    {
        &self.identity
    }
}

/// A refused acquisition: the error, and the event that is due before it.
#[derive(Debug)]
pub struct Refusal {
    pub error: LockError,
    pub event: Option<LockEvent>,
}

/// What became of a kernel lock request.
#[derive(Debug)]
pub enum SettledLock {
    Held(LockGuard),
    /// Another owner is currently authoritative.
    Contended,
    Failed(LockError),
}

/// What became of a kernel lock request, and the event that tells of it.
#[derive(Debug)]
pub struct Settlement {
    pub event: LockEvent,
    pub lock: SettledLock,
}

/// A failure before the kernel request is told only by a blocking acquisition.
pub open spec fn refused_event(
    mode: AcquireMode,
    request: RequestView,
    elapsed: Span,
    detail: Seq<char>,
) -> Option<EventView> {
    match mode {
        AcquireMode::Blocking => Some(
            request_event(request, LockEventKind::Failed, Some(elapsed), None, Some(detail)),
        ),
        AcquireMode::Try => None,
    }
}

/// What a request reserves: its identity, unless it may queue.
pub open spec fn reservation_of(request: RequestView, identity: Seq<u8>) -> Option<Seq<u8>> {
    match request.same_process_policy {
        SameProcessPolicy::Reject => Some(identity),
        SameProcessPolicy::Queue => None,
    }
}

/// The process may not start a second acquisition of this identity.
pub open spec fn reentry_rejected(
    reserved: Set<Seq<u8>>,
    request: RequestView,
    identity: Seq<u8>,
) -> bool {
    request.same_process_policy is Reject && reserved.contains(identity)
}

/// The reservations once the request has made its own.
pub open spec fn reserved_with(
    reserved: Set<Seq<u8>>,
    reservation: Option<Seq<u8>>,
) -> Set<Seq<u8>> {
    match reservation {
        Some(identity) => reserved.insert(identity),
        None => reserved,
    }
}

/// The guard that a granted request gives.
pub open spec fn granted_guard(
    request: RequestView,
    identity: Seq<u8>,
    reservation: Option<Seq<u8>>,
    owner: OwnerView,
) -> GuardView {
    GuardView {
        holds: true,
        path: identity,
        operation: request.operation,
        class: request.class,
        owner,
        reservation,
        registration: Some((request.class.spec_rank(), identity)),
    }
}

impl<S> LockManager<S> {
    /// The settings of a manager on a host with these conventions.
    pub fn builder(platform: Platform) -> (builder: LockManagerBuilder<S>)
        ensures
            builder@ == default_settings::<S>(platform),
    {
        LockManagerBuilder { max_waiters: DEFAULT_MAX_WAITERS, platform, event_sink: None }
    }

    /// The shared state of a manager that has not been used yet.
    pub fn initial_state(&self) -> (state: ManagerState)
        ensures
            state.active_waiters() == 0,
            state.waiter_limit() == self@.max_waiters,
            state.reserved_set() == Set::<Seq<u8>>::empty(),
    {
        ManagerState {
            limiter: WaiterLimiter::new(self.max_waiters),
            reserved: ReservedIdentities::new(),
        }
    }

    /// The cap on background waiters, which is never zero.
    pub fn max_waiters(&self) -> (max_waiters: usize)
        ensures
            max_waiters == self@.max_waiters,
            max_waiters > 0,
    {
        proof {
            use_type_invariant(self);
        }
        self.max_waiters
    }

    pub fn platform(&self) -> (platform: Platform)
        ensures
            platform == self@.platform,
    {
        self.platform
    }

    /// Background waiters in use, never more than the limit.
    pub fn active_waiters(&self, state: &ManagerState) -> (active: usize)
        ensures
            active == state.active_waiters(),
            active <= state.waiter_limit(),
    {
        state.limiter.active()
    }

    /// Hand an event to the sink, where there is one.
    pub fn emit(&self, event: &LockEvent) where S: Fn(&LockEvent)
        requires
            self@.event_sink is Some ==> call_requires(self@.event_sink->0, (event,)),
        ensures
            self@.event_sink is Some ==> call_ensures(self@.event_sink->0, (event,), ()),
    {
        if let Some(sink) = &self.event_sink {
            sink(event);
        }
    }

    /// Begin an acquisition that may wait in the kernel; the event is due now.
    pub fn acquire_blocking(&self, request: LockRequest) -> (begun: (PendingOpen, LockEvent))
        ensures
            begun.0.spec_request() == request@,
            begun.0.spec_mode() == AcquireMode::Blocking,
            begun.1@ == request_event(
                request@,
                LockEventKind::Waiting,
                Some(Span::spec_zero()),
                None,
                None,
            ),
    {
        let event = LockEvent::for_request(
            &request,
            LockEventKind::Waiting,
            Some(Span::zero()),
            None,
            None,
        );
        (PendingOpen { request, mode: AcquireMode::Blocking }, event)
    }

    /// Begin an acquisition that never waits; nothing is told yet.
    pub fn try_acquire(&self, request: LockRequest) -> (begun: PendingOpen)
        ensures
            begun.spec_request() == request@,
            begun.spec_mode() == AcquireMode::Try,
    {
        PendingOpen { request, mode: AcquireMode::Try }
    }

    /// Reserve the identity for this process, unless the request may queue.
    pub fn reserve_if_required(
        &self,
        state: &mut ManagerState,
        request: &LockRequest,
        identity: &LockPath,
    ) -> (reserved: Result<Option<LockPath>, LockError>)
        ensures
            final(state).active_waiters() == old(state).active_waiters(),
            final(state).waiter_limit() == old(state).waiter_limit(),
            match reserved {
                Ok(reservation) => {
                    &&& !reentry_rejected(old(state).reserved_set(), request@, identity@)
                    &&& optional_path(reservation) == reservation_of(request@, identity@)
                    &&& final(state).reserved_set() == reserved_with(
                        old(state).reserved_set(),
                        reservation_of(request@, identity@),
                    )
                },
                Err(LockError::SameProcess { path, operation }) => {
                    &&& reentry_rejected(old(state).reserved_set(), request@, identity@)
                    &&& path@ == identity@
                    &&& operation@ == request@.operation
                    &&& final(state).reserved_set() == old(state).reserved_set()
                },
                Err(_) => false,
            },
    {
        if request.reentry_policy() == SameProcessPolicy::Queue {
            return Ok(None);
        }
        if !state.reserved.insert(identity.clone()) {
            assert(state.reserved@ =~= old(state).reserved@);
            return Err(
                LockError::SameProcess {
                    path: identity.clone(),
                    operation: request.operation_name().to_owned(),
                },
            );
        }
        Ok(Some(identity.clone()))
    }

    /// Decide, once the lock file is open, whether the kernel may be asked.
    ///
    /// The file has to be the one that was opened for this request, and has
    /// then passed every check that the request's policy asks for: no other file
    /// reaches the kernel. The order of the thread's locks comes next, then the
    /// reservation against reentry. A refused acquisition leaves no reservation
    /// behind.
    pub fn clear_to_lock(
        &self,
        state: &mut ManagerState,
        held: &HeldOrder,
        pending: PendingOpen,
        opened: Result<OpenedRendezvous, LockError>,
        elapsed: Span,
    ) -> (cleared: Result<PendingLock, Refusal>)
        ensures
            final(state).active_waiters() == old(state).active_waiters(),
            final(state).waiter_limit() == old(state).waiter_limit(),
            match cleared {
                Ok(lock) => {
                    &&& opened is Ok
                    &&& opened_for(opened->Ok_0@, pending.spec_request(), self@.platform)
                    &&& vetted(opened->Ok_0@)
                    &&& order_allows(
                        self@.platform,
                        held@,
                        (pending.spec_request().class.spec_rank(), opened->Ok_0@->Opened_identity),
                    )
                    &&& !reentry_rejected(
                        old(state).reserved_set(),
                        pending.spec_request(),
                        opened->Ok_0@->Opened_identity,
                    )
                    &&& lock.spec_request() == pending.spec_request()
                    &&& lock.spec_mode() == pending.spec_mode()
                    &&& lock.spec_identity() == opened->Ok_0@->Opened_identity
                    &&& lock.spec_reservation() == reservation_of(
                        pending.spec_request(),
                        opened->Ok_0@->Opened_identity,
                    )
                    &&& final(state).reserved_set() == reserved_with(
                        old(state).reserved_set(),
                        lock.spec_reservation(),
                    )
                },
                Err(refusal) => {
                    &&& final(state).reserved_set() == old(state).reserved_set()
                    &&& optional_event(refusal.event) == refused_event(
                        pending.spec_mode(),
                        pending.spec_request(),
                        elapsed,
                        refusal.error.message_text(self@.platform),
                    )
                    &&& match opened {
                        Err(error) => refusal.error == error,
                        Ok(file) => {
                            let identity = file@->Opened_identity;
                            if !opened_for(file@, pending.spec_request(), self@.platform) {
                                &&& refusal.error matches LockError::ForeignRendezvous {
                                    opened: other,
                                    requested,
                                }
                                &&& other@ == plan_of(file@).path
                                &&& requested@ == pending.spec_request().path
                            } else if order_allows(
                                self@.platform,
                                held@,
                                (pending.spec_request().class.spec_rank(), identity),
                            ) {
                                &&& reentry_rejected(
                                    old(state).reserved_set(),
                                    pending.spec_request(),
                                    identity,
                                )
                                &&& refusal.error matches LockError::SameProcess { path, operation }
                                &&& path@ == identity
                                &&& operation@ == pending.spec_request().operation
                            } else {
                                &&& refusal.error matches LockError::OrderInversion {
                                    operation,
                                    rank,
                                    path,
                                    held_rank,
                                    held_path,
                                }
                                &&& operation@ == pending.spec_request().operation
                                &&& rank == pending.spec_request().class.spec_rank()
                                &&& path@ == identity
                                &&& exists|m: int|
                                    #[trigger] last_greatest(
                                        order_keys(self@.platform, held@),
                                        m,
                                    ) && held@[m] == (held_rank, held_path@)
                            }
                        },
                    }
                },
            },
    {
        let file = match opened {
            Ok(file) => file,
            Err(error) => {
                return Err(self.refuse(&pending, error, elapsed));
            },
        };
        if !file.is_for(&pending.request, self.platform) {
            let error = LockError::ForeignRendezvous {
                opened: file.path().clone(),
                requested: pending.request.path().clone(),
            };
            return Err(self.refuse(&pending, error, elapsed));
        }
        let identity = file.canonical_lock_path();
        if let Err(error) = held.check_lock_order(
            self.platform,
            pending.request.lock_class(),
            &identity,
            pending.request.operation_name(),
        ) {
            return Err(self.refuse(&pending, error, elapsed));
        }
        match self.reserve_if_required(state, &pending.request, &identity) {
            Ok(reservation) => Ok(
                PendingLock { request: pending.request, mode: pending.mode, identity, reservation },
            ),
            Err(error) => Err(self.refuse(&pending, error, elapsed)),
        }
    }

    fn refuse(&self, pending: &PendingOpen, error: LockError, elapsed: Span) -> (refusal: Refusal)
        ensures
            refusal.error == error,
            optional_event(refusal.event) == refused_event(
                pending.spec_mode(),
                pending.spec_request(),
                elapsed,
                error.message_text(self@.platform),
            ),
    {
        let event = match pending.mode {
            AcquireMode::Blocking => Some(
                LockEvent::for_request(
                    &pending.request,
                    LockEventKind::Failed,
                    Some(elapsed),
                    None,
                    Some(error.message(self.platform)),
                ),
            ),
            AcquireMode::Try => None,
        };
        Refusal { error, event }
    }

    /// Settle an acquisition once the kernel has answered.
    ///
    /// A granted lock is registered with the thread and gives a guard; a failed
    /// request gives its reservation back. Contention is an outcome of its own
    /// only where the request does not wait.
    pub fn settle(
        &self,
        state: &mut ManagerState,
        held: &mut HeldOrder,
        pending: PendingLock,
        answer: Result<OwnerInfo, IoFailure>,
        elapsed: Span,
    ) -> (settled: Settlement)
        ensures
            final(state).active_waiters() == old(state).active_waiters(),
            final(state).waiter_limit() == old(state).waiter_limit(),
            match answer {
                Ok(owner) => {
                    &&& final(state).reserved_set() == old(state).reserved_set()
                    &&& final(held)@ == old(held)@.push(
                        (pending.spec_request().class.spec_rank(), pending.spec_identity()),
                    )
                    &&& settled.event@ == request_event(
                        pending.spec_request(),
                        LockEventKind::Acquired,
                        Some(elapsed),
                        Some(owner@),
                        None,
                    )
                    &&& settled.lock matches SettledLock::Held(guard)
                    &&& guard@ == granted_guard(
                        pending.spec_request(),
                        pending.spec_identity(),
                        pending.spec_reservation(),
                        owner@,
                    )
                },
                Err(failure) => {
                    &&& final(state).reserved_set() == reserved_without(
                        old(state).reserved_set(),
                        pending.spec_reservation(),
                    )
                    &&& final(held)@ == old(held)@
                    &&& pending.spec_mode() == AcquireMode::Try && failure.kind
                        == IoErrorKind::WouldBlock ==> settled.lock is Contended
                        && settled.event.kind == LockEventKind::Contended
                    &&& pending.spec_mode() == AcquireMode::Blocking ==> settled.lock is Failed
                        && settled.event.kind == LockEventKind::Failed
                    &&& if pending.spec_mode() == AcquireMode::Try && contended(
                        failure,
                        self@.platform,
                    ) {
                        &&& settled.lock is Contended
                        &&& settled.event@ == request_event(
                            pending.spec_request(),
                            LockEventKind::Contended,
                            Some(elapsed),
                            None,
                            None,
                        )
                    } else {
                        &&& settled.event@ == request_event(
                            pending.spec_request(),
                            LockEventKind::Failed,
                            Some(elapsed),
                            None,
                            Some(failure.message@),
                        )
                        &&& settled.lock matches SettledLock::Failed(error)
                        &&& match (pending.spec_mode(), error) {
                            (
                                AcquireMode::Blocking,
                                LockError::Wait { operation, path, failure: cause },
                            ) => {
                                &&& operation@ == pending.spec_request().operation
                                &&& path@ == pending.spec_identity()
                                &&& cause == failure
                            },
                            (AcquireMode::Try, LockError::Io { step, path, failure: cause }) => {
                                &&& step == IoStep::TryLock
                                &&& path@ == pending.spec_identity()
                                &&& cause == failure
                            },
                            _ => false,
                        }
                    }
                },
            },
    {
        match answer {
            Ok(owner) => {
                let registration = held.register(pending.request.lock_class(), &pending.identity);
                let event = LockEvent::for_request(
                    &pending.request,
                    LockEventKind::Acquired,
                    Some(elapsed),
                    Some(owner.clone()),
                    None,
                );
                let guard = LockGuard::granted(
                    pending.identity,
                    pending.request.operation_name(),
                    pending.request.lock_class(),
                    owner,
                    pending.reservation,
                    registration,
                );
                Settlement { event, lock: SettledLock::Held(guard) }
            },
            Err(failure) => {
                state.remove_reservation(&pending.reservation);
                if pending.mode == AcquireMode::Try && is_lock_contention(&failure, self.platform) {
                    let event = LockEvent::for_request(
                        &pending.request,
                        LockEventKind::Contended,
                        Some(elapsed),
                        None,
                        None,
                    );
                    return Settlement { event, lock: SettledLock::Contended };
                }
                let event = LockEvent::for_request(
                    &pending.request,
                    LockEventKind::Failed,
                    Some(elapsed),
                    None,
                    Some(failure.message.as_str().to_owned()),
                );
                let error = match pending.mode {
                    AcquireMode::Blocking => LockError::Wait {
                        operation: pending.request.operation_name().to_owned(),
                        path: pending.identity,
                        failure,
                    },
                    AcquireMode::Try => LockError::Io {
                        step: IoStep::TryLock,
                        path: pending.identity,
                        failure,
                    },
                };
                Settlement { event, lock: SettledLock::Failed(error) }
            },
        }
    }
}

/// The event of a waiter that was dropped while it was pending.
pub open spec fn cancelled_event(request: RequestView) -> EventView {
    request_event(
        request,
        LockEventKind::Cancelled,
        None,
        None,
        Some("caller dropped the pending waiter"@),
    )
}

/// The event of a deadline that passed.
pub open spec fn timed_out_event(request: RequestView, timeout: Span, elapsed: Span) -> EventView {
    request_event(
        request,
        LockEventKind::TimedOut,
        Some(elapsed),
        None,
        Some("deadline of "@ + timeout.text() + " elapsed"@),
    )
}

impl<S> LockManager<S> {
    /// Take a permit for a background waiter, which tells of its cancellation
    /// when it is dropped while pending.
    pub fn acquire(&self, state: &mut ManagerState, request: &LockRequest) -> (started: Result<
        LockWaiter,
        LockError,
    >)
        ensures
            final(state).waiter_limit() == old(state).waiter_limit(),
            final(state).reserved_set() == old(state).reserved_set(),
            match started {
                Ok(waiter) => {
                    &&& old(state).active_waiters() < old(state).waiter_limit()
                    &&& final(state).active_waiters() == old(state).active_waiters() + 1
                    &&& waiter@ == (WaiterView {
                        label: request@.operation,
                        completed: false,
                        on_cancel: Some(cancelled_event(request@)),
                    })
                },
                Err(LockError::StartingWaiter { operation, active, limit }) => {
                    &&& old(state).active_waiters() == old(state).waiter_limit()
                    &&& final(state).active_waiters() == old(state).active_waiters()
                    &&& operation@ == request@.operation
                    &&& active == old(state).active_waiters()
                    &&& limit == old(state).waiter_limit()
                },
                Err(_) => false,
            },
    {
        match state.limiter.reserve() {
            Ok(()) => {
                let event = LockEvent::for_request(
                    request,
                    LockEventKind::Cancelled,
                    None,
                    None,
                    Some("caller dropped the pending waiter".to_owned()),
                );
                Ok(LockWaiter::new(request.operation_name(), Some(event)))
            },
            Err(_) => Err(
                LockError::StartingWaiter {
                    operation: request.operation_name().to_owned(),
                    active: state.limiter.active(),
                    limit: state.limiter.limit(),
                },
            ),
        }
    }

    /// Decide an acquisition with a deadline: `waited` is what the waiter had
    /// when the deadline passed.
    ///
    /// A deadline that passed is told and returned; the waiter's cancellation
    /// is then not told as well.
    pub fn acquire_timeout<R>(
        &self,
        waiter: &mut LockWaiter,
        request: &LockRequest,
        timeout: Span,
        elapsed: Span,
        waited: Option<R>,
    ) -> (outcome: Result<R, Refusal>)
        ensures
            match (waited, outcome) {
                (Some(guard), Ok(granted)) => granted == guard && final(waiter)@ == old(waiter)@,
                (None, Err(refusal)) => {
                    &&& final(waiter)@ == disarmed(old(waiter)@)
                    &&& optional_event(refusal.event) == Some(
                        timed_out_event(request@, timeout, elapsed),
                    )
                    &&& refusal.error matches LockError::TimedOut {
                        timeout: deadline,
                        operation,
                        path,
                    }
                    &&& deadline == timeout
                    &&& operation@ == request@.operation
                    &&& path@ == request@.path
                },
                _ => false,
            },
    {
        if let Some(guard) = waited {
            return Ok(guard);
        }
        waiter.disarm_cancellation();
        let mut detail = "deadline of ".to_owned();
        detail.append(timeout.render().as_str());
        detail.append(" elapsed");
        let event = LockEvent::for_request(
            request,
            LockEventKind::TimedOut,
            Some(elapsed),
            None,
            Some(detail),
        );
        let error = LockError::TimedOut {
            timeout,
            operation: request.operation_name().to_owned(),
            path: request.path().clone(),
        };
        Err(Refusal { error, event: Some(event) })
    }
}

/// Releasing a granted lock leaves the reservations and the thread's locks as
/// they were before the acquisition.
pub proof fn law_release_undoes_acquisition(
    reserved: Set<Seq<u8>>,
    held: Seq<(u16, Seq<u8>)>,
    request: RequestView,
    identity: Seq<u8>,
    owner: OwnerView,
)
    requires
        !reentry_rejected(reserved, request, identity),
    ensures
        ({
            let reservation = reservation_of(request, identity);
            let guard = granted_guard(request, identity, reservation, owner);
            let lock = (request.class.spec_rank(), identity);
            &&& reserved_without(reserved_with(reserved, reservation), guard.reservation)
                == reserved
            &&& held_without(held.push(lock), guard.registration) == held
        }),
{
    law_failed_request_leaves_no_reservation(reserved, request, identity);
    law_unregister_undoes_register(held, (request.class.spec_rank(), identity));
}

/// A request that the kernel does not grant leaves the reservations as they
/// were before it.
pub proof fn law_failed_request_leaves_no_reservation(
    reserved: Set<Seq<u8>>,
    request: RequestView,
    identity: Seq<u8>,
)
    requires
        !reentry_rejected(reserved, request, identity),
    ensures
        reserved_without(
            reserved_with(reserved, reservation_of(request, identity)),
            reservation_of(request, identity),
        ) == reserved,
{
    assert(reserved_without(
        reserved_with(reserved, reservation_of(request, identity)),
        reservation_of(request, identity),
    ) =~= reserved);
}

/// While an acquisition that rejects reentry is under way or held, a second one
/// of the same identity is rejected if and only if it rejects reentry too.
pub proof fn law_reentry_is_rejected(
    reserved: Set<Seq<u8>>,
    first: RequestView,
    second: RequestView,
    identity: Seq<u8>,
)
    requires
        first.same_process_policy is Reject,
    ensures
        reentry_rejected(
            reserved_with(reserved, reservation_of(first, identity)),
            second,
            identity,
        ) <==> second.same_process_policy is Reject,
{
}

/// An acquisition of one identity does not affect the reentry of another.
pub proof fn law_identities_are_independent(
    reserved: Set<Seq<u8>>,
    first: RequestView,
    identity: Seq<u8>,
    second: RequestView,
    other: Seq<u8>,
)
    requires
        identity != other,
    ensures
        reentry_rejected(
            reserved_with(reserved, reservation_of(first, identity)),
            second,
            other,
        ) == reentry_rejected(reserved, second, other),
{
}

/// The event of a release names the owner, operation and class that the event
/// of the acquisition named, and the identity of the lock.
pub proof fn law_release_keeps_the_owner(
    request: RequestView,
    identity: Seq<u8>,
    owner: OwnerView,
    elapsed: Span,
)
    ensures
        ({
            let acquired = request_event(
                request,
                LockEventKind::Acquired,
                Some(elapsed),
                Some(owner),
                None,
            );
            let guard = granted_guard(
                request,
                identity,
                reservation_of(request, identity),
                owner,
            );
            let released = released_event(guard);
            &&& released.kind == LockEventKind::Released
            &&& released.owner == acquired.owner
            &&& released.operation == acquired.operation
            &&& released.class == acquired.class
            &&& released.path == identity
        }),
{
}

/// A guard that has been released holds nothing, so it is released only once.
pub proof fn law_release_happens_once(guard: GuardView)
    ensures
        !released_guard(guard).holds,
        released_guard(released_guard(guard)) == released_guard(guard),
{
}

/// Whatever its error number is and whatever the platform, a call that would
/// block has met another owner.
pub proof fn law_a_call_that_would_block_is_contended(
    failure: IoFailure,
    other: IoFailure,
    platform: Platform,
    other_platform: Platform,
)
    requires
        failure.kind == IoErrorKind::WouldBlock,
        other.kind == IoErrorKind::WouldBlock,
    ensures
        contended(failure, platform),
        contended(failure, platform) == contended(other, other_platform),
{
}

/// Any other failure is contention only on Windows, and there exactly with the
/// error number 33.
pub proof fn law_other_contention_is_a_windows_lock_violation(
    failure: IoFailure,
    platform: Platform,
)
    requires
        failure.kind != IoErrorKind::WouldBlock,
    ensures
        platform !is Windows ==> !contended(failure, platform),
        platform is Windows ==> (contended(failure, platform) <==> failure.raw_os_error == Some(
            33i32,
        )),
{
}

/// A request that queues is never rejected, and reserves nothing; one that
/// rejects reentry reserves exactly its identity.
pub proof fn law_only_rejecting_requests_reserve(
    reserved: Set<Seq<u8>>,
    request: RequestView,
    identity: Seq<u8>,
    other: Seq<u8>,
)
    ensures
        request.same_process_policy is Queue ==> !reentry_rejected(reserved, request, identity)
            && reserved_with(reserved, reservation_of(request, identity)) == reserved,
        request.same_process_policy is Reject ==> (reentry_rejected(reserved, request, identity)
            <==> reserved.contains(identity)) && reserved_with(
            reserved,
            reservation_of(request, identity),
        ).contains(identity) && (other != identity ==> (reserved_with(
            reserved,
            reservation_of(request, identity),
        ).contains(other) <==> reserved.contains(other))),
{
}

/// A refusal before the kernel request is told by a blocking acquisition, as a
/// failure with the error's own words; a try tells nothing.
pub proof fn law_refusals_are_told_by_blocking_requests(
    request: RequestView,
    elapsed: Span,
    detail: Seq<char>,
)
    ensures
        refused_event(AcquireMode::Try, request, elapsed, detail) is None,
        refused_event(AcquireMode::Blocking, request, elapsed, detail) matches Some(event)
            && event.kind == LockEventKind::Failed && event.path == request.path && event.operation
            == request.operation && event.class == request.class && event.elapsed == Some(elapsed)
            && event.owner is None && event.detail == Some(detail),
{
}

/// A dropped waiter and a deadline that passed are told apart, each for the
/// request that it was about.
pub proof fn law_terminal_events_name_their_request(
    request: RequestView,
    timeout: Span,
    elapsed: Span,
)
    ensures
        ({
            let cancelled = cancelled_event(request);
            let timed_out = timed_out_event(request, timeout, elapsed);
            &&& cancelled.kind == LockEventKind::Cancelled
            &&& timed_out.kind == LockEventKind::TimedOut
            &&& cancelled.path == request.path && timed_out.path == request.path
            &&& cancelled.operation == request.operation && timed_out.operation
                == request.operation
            &&& cancelled.class == request.class && timed_out.class == request.class
            &&& cancelled.owner is None && timed_out.owner is None
            &&& cancelled.elapsed is None && timed_out.elapsed == Some(elapsed)
            &&& cancelled.detail == Some("caller dropped the pending waiter"@)
            &&& timed_out.detail matches Some(detail) && detail == "deadline of "@ + timeout.text()
                + " elapsed"@
        }),
{
}

/// A guard is about the request that was granted and the identity that was
/// locked, and registers that identity under the class of the request.
pub proof fn law_guards_are_about_their_request(
    request: RequestView,
    identity: Seq<u8>,
    owner: OwnerView,
    number: u16,
)
    ensures
        ({
            let guard = granted_guard(request, identity, reservation_of(request, identity), owner);
            &&& guard.holds
            &&& guard.path == identity
            &&& guard.operation == request.operation
            &&& guard.class == request.class
            &&& guard.owner == owner
            &&& guard.registration matches Some(lock) && lock.1 == identity && (request.class
                == LockClass::Custom(number) ==> lock.0 == number)
            &&& request.same_process_policy is Reject ==> guard.reservation == Some(identity)
            &&& request.same_process_policy is Queue ==> guard.reservation is None
        }),
{
}

/// Without further settings there is room for 128 background waiters, on the
/// platform that was named, and events go nowhere.
pub proof fn law_managers_start_with_room_for_128_waiters<S>(platform: Platform)
    ensures
        default_settings::<S>(platform).max_waiters == 128,
        default_settings::<S>(platform).platform == platform,
        default_settings::<S>(platform).event_sink is None,
{
}

} // verus!
