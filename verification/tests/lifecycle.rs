use std::cell::RefCell;
use std::rc::Rc;

use zed_lock::error::{IoErrorKind, IoFailure, LockError};
use zed_lock::event::{LockEvent, LockEventKind};
use zed_lock::guard::{FirstError, LockGuard, LockSetGuard};
use zed_lock::lockset::{sort_requests, LockSetAcquisition, SetStep};
use zed_lock::manager::{
    is_lock_contention, AcquireMode, LockManager, LockManagerBuilder, ManagerState, PendingOpen,
    SettledLock,
};
use zed_lock::order::HeldOrder;
use zed_lock::owner::OwnerInfo;
use zed_lock::path::{LockPath, Platform};
use zed_lock::rendezvous::{open_request, OpenStep, OpenedRendezvous};
use zed_lock::request::{LockClass, LockRequest, SameProcessPolicy};
use zed_lock::reserved::ReservedIdentities;
use zed_lock::span::{Span, WallTime};
use zed_lock::vetting::{EntryFacts, HostFacts};
use zed_lock::waiter::{Completion, LockWaiter, Observation, WaitState};

type Sink = Box<dyn Fn(&LockEvent)>;

fn failure(kind: IoErrorKind, raw_os_error: Option<i32>) -> IoFailure {
    IoFailure {
        kind,
        raw_os_error,
        message: "simulated failure".to_owned(),
    }
}

fn at(name: &str) -> LockPath {
    LockPath::from_text(&format!("/locks/{name}"))
}

fn request(name: &str, operation: &str) -> LockRequest {
    LockRequest::exclusive(at(name)).operation(operation)
}

fn owner(operation: &str) -> OwnerInfo {
    OwnerInfo {
        pid: 4711,
        hostname: Some("host".to_owned()),
        executable: None,
        thread: Some("main".to_owned()),
        operation: operation.to_owned(),
        acquired_at: WallTime::SinceEpoch(Span::new(1, 500_000_000)),
    }
}

fn entry(is_dir: bool, mode: u32) -> EntryFacts {
    EntryFacts {
        is_symlink: false,
        is_dir,
        is_file: !is_dir,
        owner: 1000,
        mode,
        attributes: 0,
    }
}

/// The lock file of a request, on a disk where everything is as it should be.
fn opened(request: &LockRequest) -> OpenedRendezvous {
    let host = HostFacts {
        platform: Platform::Unix,
        user: 1000,
        symlink_error: None,
    };
    let mut step = open_request(request, host).unwrap();
    loop {
        step = match step {
            OpenStep::InspectAncestor(walk) => walk.resume(Ok(entry(true, 0o700))).unwrap(),
            OpenStep::CheckParent(check) => check.resume(Ok(entry(true, 0o700))).unwrap(),
            OpenStep::OpenFinal(open) => open.resume(Ok(())).unwrap(),
            OpenStep::CheckFile(check) => check.resume(Ok(entry(false, 0o600))).unwrap(),
            OpenStep::Canonicalize(resolve) => {
                let identity = resolve.path().clone();
                resolve.resume(Ok(identity)).unwrap()
            }
            OpenStep::Opened(opened) => return opened,
            _ => panic!("nothing is missing"),
        };
    }
}

/// One process with an operating system that grants each lock to one owner.
struct Host {
    manager: LockManager<Sink>,
    state: ManagerState,
    kernel: Vec<Vec<u8>>,
    events: Rc<RefCell<Vec<LockEvent>>>,
}

impl Host {
    fn new(builder: LockManagerBuilder<Sink>) -> Host {
        let events = Rc::new(RefCell::new(Vec::new()));
        let log = Rc::clone(&events);
        let sink: Sink = Box::new(move |event: &LockEvent| log.borrow_mut().push(event.clone()));
        let manager = builder.event_sink(sink).build();
        let state = manager.initial_state();
        Host {
            manager,
            state,
            kernel: Vec::new(),
            events,
        }
    }

    fn run(
        &mut self,
        held: &mut HeldOrder,
        pending: PendingOpen,
        opened: Result<OpenedRendezvous, LockError>,
    ) -> Result<Option<LockGuard>, LockError> {
        let elapsed = Span::new(0, 5);
        let lock = match self
            .manager
            .clear_to_lock(&mut self.state, held, pending, opened, elapsed)
        {
            Ok(lock) => lock,
            Err(refusal) => {
                if let Some(event) = &refusal.event {
                    self.manager.emit(event);
                }
                return Err(refusal.error);
            }
        };
        let identity = lock.identity().as_bytes().to_vec();
        let answer = if self.kernel.contains(&identity) {
            assert_eq!(lock.mode(), AcquireMode::Try, "the test would deadlock");
            Err(failure(IoErrorKind::WouldBlock, Some(11)))
        } else {
            self.kernel.push(identity);
            Ok(owner(lock.request().operation_name()))
        };
        let settled = self
            .manager
            .settle(&mut self.state, held, lock, answer, elapsed);
        self.manager.emit(&settled.event);
        match settled.lock {
            SettledLock::Held(guard) => Ok(Some(guard)),
            SettledLock::Contended => Ok(None),
            SettledLock::Failed(error) => Err(error),
        }
    }

    fn acquire_blocking(
        &mut self,
        held: &mut HeldOrder,
        request: LockRequest,
    ) -> Result<LockGuard, LockError> {
        let file = opened(&request);
        let (pending, event) = self.manager.acquire_blocking(request);
        self.manager.emit(&event);
        self.run(held, pending, Ok(file))
            .map(|guard| guard.expect("a blocking acquisition is never contended"))
    }

    fn try_acquire(
        &mut self,
        held: &mut HeldOrder,
        request: LockRequest,
    ) -> Result<Option<LockGuard>, LockError> {
        let file = opened(&request);
        let pending = self.manager.try_acquire(request);
        self.run(held, pending, Ok(file))
    }

    fn release(&mut self, held: &mut HeldOrder, mut guard: LockGuard) -> Result<(), LockError> {
        let identity = guard.path().as_bytes().to_vec();
        self.kernel.retain(|locked| locked != &identity);
        let outcome = guard.release(&mut self.state, held, Ok(()));
        if let Some(event) = &outcome.event {
            self.manager.emit(event);
        }
        assert!(!guard.is_held());
        let again = guard.release(&mut self.state, held, Ok(()));
        assert!(again.event.is_none());
        assert!(again.result.is_ok());
        outcome.result
    }

    fn acquire_many(
        &mut self,
        held: &mut HeldOrder,
        requests: Vec<LockRequest>,
    ) -> Result<LockSetGuard<LockGuard>, LockError> {
        let planned: LockSetAcquisition<LockGuard> =
            self.manager.acquire_many_blocking(requests)?;
        let mut step = planned.begin();
        loop {
            step = match step {
                SetStep::Acquire { request, set } => {
                    let outcome = self.acquire_blocking(held, request);
                    set.resume(outcome)
                }
                SetStep::Complete(guards) => return Ok(guards),
                SetStep::Unwind { obtained, error } => {
                    self.release_many(held, obtained).unwrap();
                    return Err(error);
                }
            };
        }
    }

    fn release_many(
        &mut self,
        held: &mut HeldOrder,
        mut set: LockSetGuard<LockGuard>,
    ) -> Result<(), LockError> {
        let mut errors = FirstError::new();
        while let Some(guard) = set.next_release() {
            errors.record(self.release(held, guard));
        }
        errors.into_result()
    }

    fn told(&self, operation: &str) -> Vec<LockEvent> {
        self.events
            .borrow()
            .iter()
            .filter(|event| event.operation == operation)
            .cloned()
            .collect()
    }

    fn kinds(&self, operation: &str) -> Vec<LockEventKind> {
        self.told(operation).iter().map(|event| event.kind).collect()
    }

    fn paths(&self, kind: LockEventKind) -> Vec<LockPath> {
        self.events
            .borrow()
            .iter()
            .filter(|event| event.kind == kind)
            .map(|event| event.path.clone())
            .collect()
    }

    fn active_waiters(&self) -> usize {
        self.manager.active_waiters(&self.state)
    }
}

#[test]
fn would_block_is_classified_as_lock_contention() {
    let error = failure(IoErrorKind::WouldBlock, None);
    assert!(is_lock_contention(&error, Platform::Unix));
    assert!(is_lock_contention(&error, Platform::Windows));
}

#[test]
fn unrelated_io_errors_are_not_lock_contention() {
    let error = failure(IoErrorKind::PermissionDenied, None);
    assert!(!is_lock_contention(&error, Platform::Unix));
    assert!(!is_lock_contention(&error, Platform::Windows));
}

#[test]
fn windows_lock_violation_is_classified_as_contention() {
    let error = failure(IoErrorKind::Other, Some(33));
    assert!(is_lock_contention(&error, Platform::Windows));
    assert!(!is_lock_contention(&error, Platform::Unix));
    let other = failure(IoErrorKind::Other, Some(32));
    assert!(!is_lock_contention(&other, Platform::Windows));
}

#[test]
fn default_policy_rejects_same_process_reentry() {
    let mut host = Host::new(LockManager::builder(Platform::Unix));
    let mut held = HeldOrder::new();
    let asked = request("same.lock", "same-process reentry");
    let _guard = host.acquire_blocking(&mut held, asked.clone()).unwrap();
    let error = match host.try_acquire(&mut held, asked) {
        Ok(_) => panic!("default same-process policy should reject reentry"),
        Err(error) => error,
    };
    assert!(error.message(Platform::Unix).contains("same process already owns"));
    assert_eq!(
        error.message(Platform::Unix),
        "same process already owns or is waiting for canonical lock /locks/same.lock while starting `same-process reentry`; use SameProcessPolicy::Queue only for intentional independent contention"
    );
}

#[test]
fn waiter_cap_applies_backpressure_without_polling() {
    let mut host = Host::new(LockManager::builder(Platform::Unix).max_waiters(1));
    let mut held = HeldOrder::new();
    let guard = host
        .acquire_blocking(&mut held, request("hot.lock", "owner").queue_same_process())
        .unwrap();
    let first = request("hot.lock", "first waiter").queue_same_process();
    let mut waiter = host.manager.acquire(&mut host.state, &first).unwrap();
    assert_eq!(host.active_waiters(), 1);
    let error = match host.manager.acquire(
        &mut host.state,
        &request("unrelated.lock", "over-cap waiter"),
    ) {
        Ok(_) => panic!("second waiter should be rejected at the configured cap"),
        Err(error) => error,
    };
    assert!(error.report(Platform::Unix).contains("waiter limit reached"));
    assert_eq!(
        error.report(Platform::Unix),
        "starting waiter for `over-cap waiter`: background lock waiter limit reached (1/1)"
    );
    assert!(waiter.abandon().is_some());
    host.release(&mut held, guard).unwrap();
    host.state.release_waiter();
    assert_eq!(host.active_waiters(), 0);
}

#[test]
fn lock_sets_follow_class_then_path_order() {
    let mut host = Host::new(LockManager::builder(Platform::Unix));
    let mut held = HeldOrder::new();
    let build_b = request("b.lock", "build b").class(LockClass::Build);
    let project = request("project.lock", "project").class(LockClass::ProjectMutation);
    let build_a = request("a.lock", "build a").class(LockClass::Build);
    let guards = host
        .acquire_many(&mut held, vec![build_b, project, build_a])
        .unwrap();
    assert_eq!(guards.len(), 3);
    let acquired: Vec<(LockClass, String)> = host
        .events
        .borrow()
        .iter()
        .filter(|event| event.kind == LockEventKind::Acquired)
        .map(|event| (event.class, event.path.display(Platform::Unix)))
        .collect();
    assert_eq!(acquired[0].0, LockClass::ProjectMutation);
    assert_eq!(acquired[1].0, LockClass::Build);
    assert_eq!(acquired[2].0, LockClass::Build);
    assert!(acquired[1].1 < acquired[2].1);
    host.release_many(&mut held, guards).unwrap();
}

#[test]
fn nested_lock_order_rejects_descending_classes() {
    let mut host = Host::new(LockManager::builder(Platform::Unix));
    let mut held = HeldOrder::new();
    let _build = host
        .acquire_blocking(
            &mut held,
            request("build.lock", "outer build").class(LockClass::Build),
        )
        .unwrap();
    let error = match host.try_acquire(
        &mut held,
        request("artifact.lock", "inner artifact").class(LockClass::Artifact),
    ) {
        Ok(_) => panic!("descending lock classes must fail before a kernel wait"),
        Err(error) => error,
    };
    assert!(error.report(Platform::Unix).contains("lock-order inversion"));
    assert_eq!(
        error.message(Platform::Unix),
        "lock-order inversion while starting `inner artifact`: requested class rank 30 at /locks/artifact.lock while this thread already holds class rank 40 at /locks/build.lock; acquire locks in ascending class/path order or use acquire_many_blocking"
    );
}

#[test]
fn nested_lock_order_rejects_descending_paths_within_a_class() {
    let mut host = Host::new(LockManager::builder(Platform::Unix));
    let mut held = HeldOrder::new();
    let _z = host
        .acquire_blocking(&mut held, request("z.lock", "outer z").class(LockClass::Build))
        .unwrap();
    let error = match host.try_acquire(
        &mut held,
        request("a.lock", "inner a").class(LockClass::Build),
    ) {
        Ok(_) => panic!("descending paths within one class must fail"),
        Err(error) => error,
    };
    assert!(error.report(Platform::Unix).contains("lock-order inversion"));
}

#[test]
fn nested_lock_order_allows_ascending_acquisition() {
    let mut host = Host::new(LockManager::builder(Platform::Unix));
    let mut held = HeldOrder::new();
    let _project = host
        .acquire_blocking(
            &mut held,
            request("project.lock", "outer project").class(LockClass::ProjectMutation),
        )
        .unwrap();
    let _artifact = host
        .acquire_blocking(
            &mut held,
            request("artifact.lock", "inner artifact").class(LockClass::Artifact),
        )
        .unwrap();
}

#[test]
fn task01_successful_try_acquire_emits_acquired_without_waiting() {
    let mut host = Host::new(LockManager::builder(Platform::Unix));
    let mut held = HeldOrder::new();
    let guard = host
        .try_acquire(&mut held, request("one.lock", "task01"))
        .unwrap()
        .expect("uncontended try_acquire must win");
    let observed = host.told("task01");
    assert_eq!(observed.len(), 1);
    assert_eq!(observed[0].kind, LockEventKind::Acquired);
    host.release(&mut held, guard).unwrap();
}

#[test]
fn task02_contended_try_acquire_emits_only_contended_for_loser() {
    let mut host = Host::new(LockManager::builder(Platform::Unix));
    let mut held = HeldOrder::new();
    let guard = host
        .acquire_blocking(
            &mut held,
            request("two.lock", "task02-owner").queue_same_process(),
        )
        .unwrap();
    let loser = host
        .try_acquire(
            &mut held,
            request("two.lock", "task02-loser").queue_same_process(),
        )
        .unwrap();
    assert!(loser.is_none());
    assert_eq!(host.kinds("task02-loser"), vec![LockEventKind::Contended]);
    host.release(&mut held, guard).unwrap();
}

#[test]
fn task03_try_acquire_never_consumes_waiter_budget() {
    let mut host = Host::new(LockManager::builder(Platform::Unix).max_waiters(1));
    let mut held = HeldOrder::new();
    let guard = host
        .try_acquire(&mut held, request("three.lock", "task03-owner"))
        .unwrap()
        .expect("initial try_acquire wins");
    assert_eq!(host.active_waiters(), 0);
    let contender = host
        .try_acquire(
            &mut held,
            request("three.lock", "task03-contender").queue_same_process(),
        )
        .unwrap();
    assert!(contender.is_none());
    assert_eq!(host.active_waiters(), 0);
    host.release(&mut held, guard).unwrap();
}

#[test]
fn task04_zero_waiter_capacity_clamps_to_one() {
    let mut host = Host::new(LockManager::builder(Platform::Unix).max_waiters(0));
    assert_eq!(host.manager.max_waiters(), 1);
    let mut held = HeldOrder::new();
    let guard = host
        .acquire_blocking(
            &mut held,
            request("four.lock", "task04-owner").queue_same_process(),
        )
        .unwrap();
    let first = request("four.lock", "task04-first").queue_same_process();
    let mut waiter = host.manager.acquire(&mut host.state, &first).unwrap();
    assert_eq!(host.active_waiters(), 1);
    let error = match host.manager.acquire(
        &mut host.state,
        &request("four-other.lock", "task04-over-cap"),
    ) {
        Ok(_) => panic!("second background waiter must be rejected"),
        Err(error) => error,
    };
    assert!(error.report(Platform::Unix).contains("waiter limit reached"));
    assert_eq!(
        waiter.abandon().map(|event| event.kind),
        Some(LockEventKind::Cancelled)
    );
    host.release(&mut held, guard).unwrap();
    host.state.release_waiter();
    assert_eq!(host.active_waiters(), 0, "waiter permit leaked");
}

#[test]
fn task08_zero_acquire_timeout_has_one_terminal_reason_and_no_leak() {
    let mut host = Host::new(LockManager::builder(Platform::Unix));
    let mut held = HeldOrder::new();
    let guard = host
        .acquire_blocking(
            &mut held,
            request("eight.lock", "task08-owner").queue_same_process(),
        )
        .unwrap();

    let asked = request("eight.lock", "task08-timeout").queue_same_process();
    let mut waiter: LockWaiter = host.manager.acquire(&mut host.state, &asked).unwrap();
    let mut shared: WaitState<Result<LockGuard, LockError>, ()> = WaitState::new();
    let waited = match shared.observe(Span::zero(), Span::zero(), false) {
        Observation::Ready(result) => Some(result),
        Observation::Expired => None,
        Observation::Sleep(_) => panic!("a zero deadline never sleeps"),
    };
    let refusal = host
        .manager
        .acquire_timeout(&mut waiter, &asked, Span::zero(), Span::new(0, 7), waited)
        .expect_err("zero deadline must time out while contended");
    host.manager.emit(refusal.event.as_ref().unwrap());
    assert!(refusal.error.report(Platform::Unix).contains("timed out"));
    assert_eq!(
        refusal.error.message(Platform::Unix),
        "timed out after 0ns waiting for `task08-timeout` at /locks/eight.lock"
    );
    if let Some(event) = waiter.abandon() {
        host.manager.emit(&event);
    }
    assert!(shared.abandon().is_none());

    let observed = host.told("task08-timeout");
    assert_eq!(
        observed
            .iter()
            .filter(|event| event.kind == LockEventKind::TimedOut)
            .count(),
        1
    );
    assert!(!observed
        .iter()
        .any(|event| event.kind == LockEventKind::Cancelled));
    assert_eq!(observed[0].detail.as_deref(), Some("deadline of 0ns elapsed"));

    host.release(&mut held, guard).unwrap();
    let mut worker_held = HeldOrder::new();
    let late = host.acquire_blocking(&mut worker_held, asked);
    match shared.settle_waiter_completion(late) {
        Completion::Released(Ok(late)) => host.release(&mut worker_held, late).unwrap(),
        _ => panic!("a detached grant has to be released"),
    }
    host.state.release_waiter();
    assert_eq!(host.active_waiters(), 0);

    let reuse = host
        .try_acquire(&mut held, request("eight.lock", "task08-reuse"))
        .unwrap()
        .expect("timed-out request must not leak ownership");
    host.release(&mut held, reuse).unwrap();
}

#[test]
fn task09_explicit_release_emits_exactly_one_release() {
    let mut host = Host::new(LockManager::builder(Platform::Unix));
    let mut held = HeldOrder::new();
    let guard = host
        .acquire_blocking(&mut held, request("nine.lock", "task09"))
        .unwrap();
    host.release(&mut held, guard).unwrap();
    let observed = host.told("task09");
    assert_eq!(
        observed
            .iter()
            .filter(|event| event.kind == LockEventKind::Released)
            .count(),
        1
    );
}

#[test]
fn task10_drop_release_preserves_owner_identity() {
    let mut host = Host::new(LockManager::builder(Platform::Unix));
    let mut held = HeldOrder::new();
    let guard = host
        .acquire_blocking(&mut held, request("ten.lock", "task10"))
        .unwrap();
    host.release(&mut held, guard).unwrap();
    let observed = host.told("task10");
    let acquired = observed
        .iter()
        .find(|event| event.kind == LockEventKind::Acquired)
        .and_then(|event| event.owner.as_ref())
        .expect("acquired owner");
    let released = observed
        .iter()
        .find(|event| event.kind == LockEventKind::Released)
        .and_then(|event| event.owner.as_ref())
        .expect("released owner");
    assert_eq!(acquired.pid, released.pid);
    assert_eq!(acquired.operation, released.operation);
    assert_eq!(released.operation, "task10");
    assert_eq!(
        observed
            .iter()
            .filter(|event| event.kind == LockEventKind::Released)
            .count(),
        1
    );
}

#[test]
fn task11_same_process_rejection_does_not_poison_reservation() {
    let mut host = Host::new(LockManager::builder(Platform::Unix));
    let mut held = HeldOrder::new();
    let guard = host
        .acquire_blocking(&mut held, request("eleven.lock", "task11-owner"))
        .unwrap();
    let error = match host.try_acquire(&mut held, request("eleven.lock", "task11-rejected")) {
        Ok(_) => panic!("same-process reentry must reject"),
        Err(error) => error,
    };
    assert!(error.report(Platform::Unix).contains("same process already owns"));
    host.release(&mut held, guard).unwrap();
    let guard = host
        .try_acquire(&mut held, request("eleven.lock", "task11-reuse"))
        .unwrap()
        .expect("reservation must clear after owner drop");
    host.release(&mut held, guard).unwrap();
}

#[test]
fn task12_queued_try_contention_then_reuse_succeeds() {
    let mut host = Host::new(LockManager::builder(Platform::Unix));
    let mut held = HeldOrder::new();
    let guard = host
        .acquire_blocking(
            &mut held,
            request("twelve.lock", "task12-owner").queue_same_process(),
        )
        .unwrap();
    assert!(host
        .try_acquire(
            &mut held,
            request("twelve.lock", "task12-contender").queue_same_process(),
        )
        .unwrap()
        .is_none());
    host.release(&mut held, guard).unwrap();
    let guard = host
        .try_acquire(
            &mut held,
            request("twelve.lock", "task12-reuse").queue_same_process(),
        )
        .unwrap()
        .expect("same rendezvous must become reusable after release");
    host.release(&mut held, guard).unwrap();
}

#[test]
fn task13_duplicate_lockset_fails_before_ownership_and_leaves_reusable() {
    let mut host = Host::new(LockManager::builder(Platform::Unix));
    let mut held = HeldOrder::new();
    let error = match host.acquire_many(
        &mut held,
        vec![
            request("thirteen.lock", "task13-a"),
            request("thirteen.lock", "task13-b"),
        ],
    ) {
        Ok(_) => panic!("duplicate canonical identity must fail"),
        Err(error) => error,
    };
    assert!(error.report(Platform::Unix).contains("duplicate canonical lock identity"));
    assert!(
        host.events
            .borrow()
            .iter()
            .all(|event| event.kind != LockEventKind::Acquired),
        "duplicate preflight unexpectedly acquired a lock"
    );
    let guard = host
        .try_acquire(&mut held, request("thirteen.lock", "task13-reuse"))
        .unwrap()
        .expect("duplicate preflight must not retain ownership");
    host.release(&mut held, guard).unwrap();
}

#[test]
fn task14_partial_lockset_failure_unwinds_prior_guard() {
    let mut host = Host::new(LockManager::builder(Platform::Unix));
    let mut owner_held = HeldOrder::new();
    let blocked = host
        .acquire_blocking(
            &mut owner_held,
            request("z-blocked.lock", "task14-owner").class(LockClass::Build),
        )
        .unwrap();
    let mut held = HeldOrder::new();
    let error = match host.acquire_many(
        &mut held,
        vec![
            request("a-first.lock", "task14-first").class(LockClass::ProjectMutation),
            request("z-blocked.lock", "task14-blocked").class(LockClass::Build),
        ],
    ) {
        Ok(_) => panic!("second reservation must fail while held by this manager"),
        Err(error) => error,
    };
    assert!(error.report(Platform::Unix).contains("same process already owns"));
    let first_guard = host
        .try_acquire(
            &mut held,
            request("a-first.lock", "task14-reuse-first").class(LockClass::ProjectMutation),
        )
        .unwrap()
        .expect("first guard must have been unwound after later failure");
    host.release(&mut held, first_guard).unwrap();
    host.release(&mut owner_held, blocked).unwrap();
}

#[test]
fn task15_lockset_explicit_release_is_reverse_acquisition_order() {
    let mut host = Host::new(LockManager::builder(Platform::Unix));
    let mut held = HeldOrder::new();
    let set = host
        .acquire_many(
            &mut held,
            vec![
                request("c.lock", "task15-c").class(LockClass::Build),
                request("a.lock", "task15-a").class(LockClass::ProjectMutation),
                request("b.lock", "task15-b").class(LockClass::Artifact),
            ],
        )
        .unwrap();
    let acquired = host.paths(LockEventKind::Acquired);
    assert_eq!(acquired.len(), 3);
    host.release_many(&mut held, set).unwrap();
    let released = host.paths(LockEventKind::Released);
    let expected = acquired.into_iter().rev().collect::<Vec<_>>();
    assert_eq!(released, expected);
}

#[test]
fn a_blocking_acquisition_tells_waiting_then_acquired() {
    let mut host = Host::new(LockManager::builder(Platform::Unix));
    let mut held = HeldOrder::new();
    let guard = host
        .acquire_blocking(&mut held, request("w.lock", "w").class(LockClass::Refs))
        .unwrap();
    assert_eq!(
        host.kinds("w"),
        vec![LockEventKind::Waiting, LockEventKind::Acquired]
    );
    let told = host.told("w");
    assert!(told[0].elapsed.unwrap().is_zero());
    assert_eq!(told[1].elapsed.unwrap().subsec_nanos(), 5);
    assert_eq!(told[1].class, LockClass::Refs);
    assert_eq!(guard.path().display(Platform::Unix), "/locks/w.lock");
    assert_eq!(guard.operation_name(), "w");
    assert_eq!(guard.lock_class(), LockClass::Refs);
    assert_eq!(guard.owner_info().pid, 4711);
    assert!(guard.is_held());
    host.release(&mut held, guard).unwrap();
}

#[test]
fn only_a_blocking_acquisition_tells_of_a_refusal() {
    let mut host = Host::new(LockManager::builder(Platform::Unix));
    let mut held = HeldOrder::new();
    let (pending, _) = host.manager.acquire_blocking(request("x.lock", "blocking"));
    let error = host
        .run(&mut held, pending, Err(LockError::DirectoryWritable))
        .unwrap_err();
    assert!(matches!(error, LockError::DirectoryWritable));
    let told = host.told("blocking");
    assert_eq!(told.len(), 1);
    assert_eq!(told[0].kind, LockEventKind::Failed);
    assert_eq!(told[0].detail, Some(error.message(Platform::Unix)));

    let pending = host.manager.try_acquire(request("x.lock", "trying"));
    assert!(host
        .run(&mut held, pending, Err(LockError::DirectoryWritable))
        .is_err());
    assert!(host.told("trying").is_empty());
}

#[test]
fn a_failed_kernel_request_gives_its_reservation_back() {
    let mut host = Host::new(LockManager::builder(Platform::Unix));
    let mut held = HeldOrder::new();
    for (mode, expected) in [
        (
            AcquireMode::Blocking,
            "waiting for `f` through operating-system lock /locks/f.lock: simulated failure",
        ),
        (
            AcquireMode::Try,
            "trying operating-system lock /locks/f.lock: simulated failure",
        ),
    ] {
        let pending = match mode {
            AcquireMode::Blocking => host.manager.acquire_blocking(request("f.lock", "f")).0,
            AcquireMode::Try => host.manager.try_acquire(request("f.lock", "f")),
        };
        let lock = host
            .manager
            .clear_to_lock(
                &mut host.state,
                &held,
                pending,
                Ok(opened(&request("f.lock", "f"))),
                Span::zero(),
            )
            .unwrap();
        let settled = host.manager.settle(
            &mut host.state,
            &mut held,
            lock,
            Err(failure(IoErrorKind::Other, Some(5))),
            Span::zero(),
        );
        assert_eq!(settled.event.kind, LockEventKind::Failed);
        assert_eq!(settled.event.detail.as_deref(), Some("simulated failure"));
        match settled.lock {
            SettledLock::Failed(error) => assert_eq!(error.report(Platform::Unix), expected),
            _ => panic!("the kernel refused"),
        }
    }
    let guard = host
        .try_acquire(&mut held, request("f.lock", "f"))
        .unwrap()
        .expect("free again");
    host.release(&mut held, guard).unwrap();
}

#[test]
fn a_blocking_request_that_would_block_has_failed() {
    let mut host = Host::new(LockManager::builder(Platform::Unix));
    let mut held = HeldOrder::new();
    let (pending, _) = host.manager.acquire_blocking(request("b.lock", "b"));
    let lock = host
        .manager
        .clear_to_lock(&mut host.state, &held, pending, Ok(opened(&request("b.lock", "b"))), Span::zero())
        .unwrap();
    let settled = host.manager.settle(
        &mut host.state,
        &mut held,
        lock,
        Err(failure(IoErrorKind::WouldBlock, None)),
        Span::zero(),
    );
    assert!(matches!(settled.lock, SettledLock::Failed(_)));
}

#[test]
fn a_failed_unlock_still_frees_the_process() {
    let mut host = Host::new(LockManager::builder(Platform::Unix));
    let mut held = HeldOrder::new();
    let mut guard = host
        .acquire_blocking(
            &mut held,
            request("u.lock", "u").class(LockClass::Build),
        )
        .unwrap();
    host.kernel.clear();
    let outcome = guard.release(
        &mut host.state,
        &mut held,
        Err(failure(IoErrorKind::Other, None)),
    );
    assert_eq!(outcome.event.unwrap().kind, LockEventKind::Released);
    assert_eq!(
        outcome.result.unwrap_err().report(Platform::Unix),
        "unlocking descriptor lock /locks/u.lock: simulated failure"
    );
    let lower = host
        .try_acquire(
            &mut held,
            request("u.lock", "again").class(LockClass::ProjectMutation),
        )
        .unwrap();
    assert!(lower.is_some());
}

#[test]
fn a_timed_wait_that_got_its_lock_stays_armed() {
    let manager: LockManager<Sink> = LockManager::builder(Platform::Unix).build();
    let mut state = manager.initial_state();
    let asked = request("t.lock", "t");
    let mut waiter = manager.acquire(&mut state, &asked).unwrap();
    let granted = manager
        .acquire_timeout(&mut waiter, &asked, Span::new(1, 0), Span::zero(), Some(9))
        .unwrap();
    assert_eq!(granted, 9);
    let event = waiter.abandon().expect("nobody told of a terminal reason");
    assert_eq!(event.kind, LockEventKind::Cancelled);
    assert_eq!(
        event.detail.as_deref(),
        Some("caller dropped the pending waiter")
    );
    assert!(event.elapsed.is_none());
}

#[test]
fn requests_start_private_and_rejecting() {
    let fresh = LockRequest::exclusive(at("r.lock"));
    assert_eq!(fresh.path().display(Platform::Unix), "/locks/r.lock");
    assert_eq!(fresh.operation_name(), "exclusive lock");
    assert_eq!(fresh.lock_class(), LockClass::Custom(100));
    assert_eq!(fresh.reentry_policy(), SameProcessPolicy::Reject);
    assert!(fresh.path_security().is_private());
    let changed = fresh
        .operation("op")
        .class(LockClass::Artifact)
        .same_process_policy(SameProcessPolicy::Queue)
        .shared_path();
    assert_eq!(changed.operation_name(), "op");
    assert_eq!(changed.lock_class(), LockClass::Artifact);
    assert_eq!(changed.reentry_policy(), SameProcessPolicy::Queue);
    assert!(!changed.path_security().is_private());
    assert_eq!(
        changed.at_identity(at("other.lock")).path().display(Platform::Unix),
        "/locks/other.lock"
    );
}

#[test]
fn default_cap_is_one_hundred_and_twenty_eight() {
    let manager: LockManager<Sink> = LockManager::builder(Platform::Unix).build();
    assert_eq!(manager.max_waiters(), 128);
    let state = manager.initial_state();
    assert_eq!(manager.active_waiters(&state), 0);
}

#[test]
fn windows_order_ignores_the_case_of_paths() {
    let names = |platform: Platform| -> Vec<String> {
        sort_requests(
            vec![request("B.lock", "B"), request("a.lock", "a")],
            platform,
        )
        .iter()
        .map(|sorted| sorted.operation_name().to_owned())
        .collect()
    };
    assert_eq!(names(Platform::Unix), vec!["B", "a"]);
    assert_eq!(names(Platform::Windows), vec!["a", "B"]);
}

#[test]
fn equal_keys_keep_their_order() {
    let sorted = sort_requests(
        vec![
            request("s.lock", "one"),
            request("s.lock", "two"),
            request("s.lock", "three"),
        ],
        Platform::Unix,
    );
    let names: Vec<&str> = sorted.iter().map(|one| one.operation_name()).collect();
    assert_eq!(names, vec!["one", "two", "three"]);
}

#[test]
fn a_thread_may_take_the_same_key_again() {
    let mut held = HeldOrder::new();
    let first = held.register(LockClass::Build, &at("k.lock"));
    assert!(held
        .check_lock_order(Platform::Unix, LockClass::Build, &at("k.lock"), "again")
        .is_ok());
    assert!(held
        .check_lock_order(Platform::Unix, LockClass::Build, &at("a.lock"), "below")
        .is_err());
    held.unregister(&first);
    assert!(held
        .check_lock_order(Platform::Unix, LockClass::Build, &at("a.lock"), "below")
        .is_ok());
}

#[test]
fn the_greatest_held_lock_is_the_one_reported() {
    let mut held = HeldOrder::new();
    held.register(LockClass::Refs, &at("r.lock"));
    held.register(LockClass::Build, &at("b.lock"));
    held.register(LockClass::Artifact, &at("a.lock"));
    match held.check_lock_order(Platform::Unix, LockClass::Custom(1), &at("x.lock"), "op") {
        Err(LockError::OrderInversion {
            held_rank,
            held_path,
            rank,
            ..
        }) => {
            assert_eq!((rank, held_rank), (1, 40));
            assert_eq!(held_path.display(Platform::Unix), "/locks/b.lock");
        }
        _ => panic!("an inversion"),
    }
}

#[test]
fn reservations_are_per_identity() {
    let mut reserved = ReservedIdentities::new();
    assert!(reserved.insert(at("1.lock")));
    assert!(!reserved.insert(at("1.lock")));
    assert!(reserved.insert(at("2.lock")));
    reserved.remove(&at("1.lock"));
    assert!(!reserved.contains(&at("1.lock")));
    assert!(reserved.contains(&at("2.lock")));
    reserved.remove(&at("absent.lock"));
    assert!(reserved.contains(&at("2.lock")));
}

#[test]
fn the_first_error_of_a_set_is_reported() {
    let mut errors: FirstError<u8> = FirstError::new();
    errors.record(Ok(()));
    errors.record(Err(1));
    errors.record(Ok(()));
    errors.record(Err(2));
    assert_eq!(errors.into_result(), Err(1));
    let quiet: FirstError<u8> = FirstError::new();
    assert_eq!(quiet.into_result(), Ok(()));
}

#[test]
fn an_empty_lock_set_is_granted() {
    let mut host = Host::new(LockManager::builder(Platform::Unix));
    let mut held = HeldOrder::new();
    let set = host.acquire_many(&mut held, Vec::new()).unwrap();
    assert!(set.is_empty());
    assert_eq!(set.len(), 0);
}

#[test]
fn threads_that_keep_to_the_order_do_not_wait_for_each_other() {
    let mut first = HeldOrder::new();
    let mut second = HeldOrder::new();
    first.register(LockClass::Refs, &at("a.lock"));
    second.register(LockClass::Build, &at("b.lock"));
    assert!(first
        .check_lock_order(Platform::Unix, LockClass::Build, &at("b.lock"), "up")
        .is_ok());
    assert!(second
        .check_lock_order(Platform::Unix, LockClass::Refs, &at("a.lock"), "down")
        .is_err());
}

#[test]
fn lock_sets_agree_on_the_order_of_shared_locks() {
    let names = |wanted: &[(&str, LockClass)]| -> Vec<String> {
        let requests = wanted
            .iter()
            .map(|(name, class)| request(name, name).class(*class))
            .collect();
        sort_requests(requests, Platform::Unix)
            .iter()
            .map(|sorted| sorted.operation_name().to_owned())
            .collect()
    };
    let one = names(&[
        ("x", LockClass::Build),
        ("y", LockClass::Refs),
        ("m", LockClass::Artifact),
    ]);
    let other = names(&[
        ("y", LockClass::Refs),
        ("k", LockClass::ProjectMutation),
        ("x", LockClass::Build),
    ]);
    assert_eq!(one, vec!["y", "m", "x"]);
    assert_eq!(other, vec!["k", "y", "x"]);
}

#[test]
fn one_identity_does_not_reserve_another() {
    let mut host = Host::new(LockManager::builder(Platform::Unix));
    let mut held = HeldOrder::new();
    let one = host
        .acquire_blocking(&mut held, request("i1.lock", "one"))
        .unwrap();
    let two = host
        .try_acquire(&mut held, request("i2.lock", "two"))
        .unwrap()
        .expect("another identity is free");
    host.release(&mut held, two).unwrap();
    host.release(&mut held, one).unwrap();
}

#[test]
fn a_whole_set_can_be_acquired_again_after_its_release() {
    let mut host = Host::new(LockManager::builder(Platform::Unix));
    let mut held = HeldOrder::new();
    for _ in 0..2 {
        let set = host
            .acquire_many(
                &mut held,
                vec![
                    request("p.lock", "p").class(LockClass::Build),
                    request("q.lock", "q").class(LockClass::ProjectMutation),
                ],
            )
            .unwrap();
        host.release_many(&mut held, set).unwrap();
        let lowest = held.check_lock_order(Platform::Unix, LockClass::Custom(0), &at(""), "any");
        assert!(lowest.is_ok());
    }
}

#[test]
fn a_refused_lock_ends_its_set_with_that_error() {
    let manager: LockManager<Sink> = LockManager::builder(Platform::Unix).build();
    let planned: LockSetAcquisition<u8> = manager
        .acquire_many_blocking(vec![
            request("3.lock", "third"),
            request("1.lock", "first"),
            request("2.lock", "second"),
        ])
        .unwrap();
    let (first, set) = match planned.begin::<&str>() {
        SetStep::Acquire { request, set } => (request, set),
        _ => panic!("three locks are wanted"),
    };
    assert_eq!(first.operation_name(), "first");
    let (second, set) = match set.resume(Ok::<u8, &str>(10)) {
        SetStep::Acquire { request, set } => (request, set),
        _ => panic!("two locks are left"),
    };
    assert_eq!(second.operation_name(), "second");
    match set.resume(Err("refused")) {
        SetStep::Unwind {
            mut obtained,
            error,
        } => {
            assert_eq!(error, "refused");
            assert_eq!(obtained.next_release(), Some(10));
            assert_eq!(obtained.next_release(), None);
        }
        _ => panic!("a refusal ends the set"),
    }
}

#[test]
fn a_manager_keeps_the_conventions_it_was_told() {
    for platform in [Platform::Unix, Platform::Windows, Platform::Other] {
        let manager: LockManager<Sink> = LockManager::builder(platform).max_waiters(3).build();
        assert_eq!(manager.platform(), platform);
        assert_eq!(manager.max_waiters(), 3);
    }
}

#[test]
fn only_the_file_of_the_request_reaches_the_kernel() {
    let mut host = Host::new(LockManager::builder(Platform::Unix));
    let mut held = HeldOrder::new();
    for foreign in [
        opened(&request("other.lock", "x")),
        opened(&request("mine.lock", "x").shared_path()),
    ] {
        let pending = host.manager.try_acquire(request("mine.lock", "x"));
        let error = host.run(&mut held, pending, Ok(foreign)).unwrap_err();
        assert!(matches!(error, LockError::ForeignRendezvous { .. }));
        assert!(host.kernel.is_empty());
    }
    let guard = host
        .try_acquire(&mut held, request("mine.lock", "x"))
        .unwrap()
        .expect("a refusal leaves no reservation");
    host.release(&mut held, guard).unwrap();
}

#[test]
fn the_order_of_a_set_does_not_depend_on_how_it_was_written() {
    let names = |wanted: [&str; 3]| -> Vec<String> {
        let requests = wanted.iter().map(|name| request(name, name)).collect();
        sort_requests(requests, Platform::Unix)
            .iter()
            .map(|sorted| sorted.operation_name().to_owned())
            .collect()
    };
    for wanted in [["a", "b", "c"], ["c", "a", "b"], ["b", "c", "a"], ["c", "b", "a"]] {
        assert_eq!(names(wanted), vec!["a", "b", "c"]);
    }
}
