use zed_lock::error::{IoErrorKind, IoFailure, LockError};
use zed_lock::event::{LockEvent, LockEventKind};
use zed_lock::limiter::WaiterLimiter;
use zed_lock::path::{LockPath, Platform};
use zed_lock::request::{LockClass, LockRequest};
use zed_lock::span::Span;
use zed_lock::waiter::{
    panic_message, waiter_panicked, waiter_thread_name, Completion, LockWaiter, Observation,
    PanicPayload, WaitState,
};

type Shared<G> = WaitState<Result<G, LockError>, &'static str>;

/// What `wait_timeout` does, with a clock that only the test moves.
fn wait_timeout<G>(
    waiter: &mut LockWaiter,
    shared: &mut Shared<G>,
    timeout: Span,
) -> Result<Option<G>, LockError> {
    waiter.ensure_pending()?;
    let mut timed_out = false;
    loop {
        match shared.observe(timeout, Span::zero(), timed_out) {
            Observation::Ready(result) => return waiter.finish(result, true)?.map(Some),
            Observation::Expired => return Ok(None),
            Observation::Sleep(_) => timed_out = true,
        }
    }
}

fn cancelled(operation: &str) -> LockEvent {
    LockEvent::for_request(
        &LockRequest::exclusive(LockPath::from_text("/locks/x.lock")).operation(operation),
        LockEventKind::Cancelled,
        None,
        None,
        None,
    )
}

#[test]
fn repeated_timeouts_keep_one_acquisition_request() {
    let mut shared: Shared<u8> = WaitState::new();
    let mut waiter = LockWaiter::new("one-native-request", None);
    let mut attempts = 0;
    let mut acquire = || {
        attempts += 1;
        Ok(42_u8)
    };
    assert!(wait_timeout(&mut waiter, &mut shared, Span::new(0, 20_000_000))
        .unwrap()
        .is_none());
    assert!(wait_timeout(&mut waiter, &mut shared, Span::new(0, 20_000_000))
        .unwrap()
        .is_none());
    assert!(matches!(
        shared.settle_waiter_completion(acquire()),
        Completion::Published(None)
    ));
    assert_eq!(
        wait_timeout(&mut waiter, &mut shared, Span::new(1, 0)).unwrap(),
        Some(42)
    );
    assert_eq!(attempts, 1);
}

#[test]
fn dropped_waiter_releases_an_eventual_guard() {
    let mut shared: Shared<&str> = WaitState::new();
    let mut waiter = LockWaiter::new("detached", None);
    assert!(waiter.abandon().is_none());
    assert!(shared.abandon().is_none());
    match shared.settle_waiter_completion(Ok("guard")) {
        Completion::Released(Ok(guard)) => assert_eq!(guard, "guard"),
        _ => panic!("a late grant has to be handed back for release"),
    }
    assert!(shared.take_result().is_none());
}

#[test]
fn task05_waiter_panic_becomes_structured_error() {
    let mut shared: Shared<u8> = WaitState::new();
    let mut waiter = LockWaiter::new("task05-panic", None);
    let failed = waiter_panicked(
        waiter.label(),
        PanicPayload::Text("synthetic acquisition panic".to_owned()),
    );
    shared.settle_waiter_completion(Err(failed));
    let result = shared.take_result().expect("published");
    let error = waiter
        .finish(result, true)
        .unwrap()
        .expect_err("panic must be converted to Err");
    let text = error.report(Platform::Unix);
    assert!(text.contains("background lock waiter"));
    assert!(text.contains("synthetic acquisition panic"));
    assert_eq!(
        text,
        "background lock waiter `task05-panic` panicked: synthetic acquisition panic"
    );
}

#[test]
fn task06_completed_waiter_rejects_second_observation() {
    let mut shared: Shared<u8> = WaitState::new();
    let mut waiter = LockWaiter::new("task06-completed", None);
    shared.settle_waiter_completion(Ok(6_u8));
    assert_eq!(
        wait_timeout(&mut waiter, &mut shared, Span::new(1, 0)).unwrap(),
        Some(6)
    );
    let error = wait_timeout(&mut waiter, &mut shared, Span::zero())
        .expect_err("completed waiter must reject a second observation");
    assert!(error.report(Platform::Unix).contains("already completed"));
    assert_eq!(
        error.message(Platform::Unix),
        "background lock waiter `task06-completed` already completed"
    );
}

#[test]
fn task07_zero_duration_retries_keep_one_worker() {
    let mut shared: Shared<u8> = WaitState::new();
    let mut waiter = LockWaiter::new("task07-zero", None);
    let mut attempts = 0;
    let mut acquire = || {
        attempts += 1;
        Ok(7_u8)
    };
    for _ in 0..8 {
        assert_eq!(
            wait_timeout(&mut waiter, &mut shared, Span::zero()).unwrap(),
            None
        );
    }
    shared.settle_waiter_completion(acquire());
    assert_eq!(
        wait_timeout(&mut waiter, &mut shared, Span::new(1, 0)).unwrap(),
        Some(7)
    );
    assert_eq!(attempts, 1);
}

#[test]
fn a_result_wins_over_a_deadline_that_has_passed() {
    let mut shared: Shared<u8> = WaitState::new();
    shared.settle_waiter_completion(Ok(3));
    match shared.observe(Span::zero(), Span::new(9, 0), true) {
        Observation::Ready(Ok(value)) => assert_eq!(value, 3),
        _ => panic!("the result was there"),
    }
}

#[test]
fn sleeping_takes_exactly_what_is_left() {
    let mut shared: Shared<u8> = WaitState::new();
    match shared.observe(Span::new(2, 0), Span::new(0, 1), false) {
        Observation::Sleep(left) => {
            assert_eq!(left.secs(), 1);
            assert_eq!(left.subsec_nanos(), 999_999_999);
        }
        _ => panic!("time is left"),
    }
    assert!(matches!(
        shared.observe(Span::new(2, 0), Span::new(2, 0), false),
        Observation::Expired
    ));
    assert!(matches!(
        shared.observe(Span::new(2, 0), Span::zero(), true),
        Observation::Expired
    ));
}

#[test]
fn a_kept_waker_is_replaced_only_for_another_task() {
    let mut shared: Shared<u8> = WaitState::new();
    assert!(shared.waker().is_none());
    assert!(shared.poll_result("first", false).is_none());
    assert_eq!(shared.waker(), Some(&"first"));
    assert!(shared.poll_result("second", true).is_none());
    assert_eq!(shared.waker(), Some(&"first"));
    assert!(shared.poll_result("third", false).is_none());
    assert_eq!(shared.waker(), Some(&"third"));
    match shared.settle_waiter_completion(Ok(1)) {
        Completion::Published(waker) => assert_eq!(waker, Some("third")),
        _ => panic!("the receiver is there"),
    }
    assert!(shared.waker().is_none());
    assert!(matches!(shared.poll_result("fourth", false), Some(Ok(1))));
    assert!(shared.waker().is_none());
}

#[test]
fn a_result_is_taken_once() {
    let mut shared: Shared<u8> = WaitState::new();
    shared.settle_waiter_completion(Ok(5));
    assert!(matches!(shared.take_result(), Some(Ok(5))));
    assert!(shared.take_result().is_none());
}

#[test]
fn an_unclaimed_result_is_handed_out_when_the_receiver_goes() {
    let mut shared: Shared<u8> = WaitState::new();
    shared.settle_waiter_completion(Ok(8));
    assert!(matches!(shared.abandon(), Some(Ok(8))));
    assert!(shared.take_result().is_none());
}

#[test]
fn a_pending_waiter_tells_of_its_cancellation_once() {
    let mut waiter = LockWaiter::new("w", Some(cancelled("w")));
    assert_eq!(
        waiter.abandon().map(|event| event.kind),
        Some(LockEventKind::Cancelled)
    );
    assert!(waiter.abandon().is_none());
}

#[test]
fn a_waiter_has_one_terminal_reason() {
    let mut finished = LockWaiter::new("w", Some(cancelled("w")));
    assert_eq!(finished.finish(1, true).unwrap(), 1);
    assert!(finished.is_completed());
    assert!(finished.abandon().is_none());

    let mut timed_out = LockWaiter::new("w", Some(cancelled("w")));
    timed_out.disarm_cancellation();
    assert!(!timed_out.is_completed());
    assert!(timed_out.abandon().is_none());
}

#[test]
fn a_panicked_worker_thread_is_the_answer() {
    let mut waiter = LockWaiter::new("w", None);
    let error = waiter.finish(1, false).unwrap_err();
    assert_eq!(error.message(Platform::Unix), "background lock waiter `w` panicked");
    assert!(waiter.is_completed());
}

#[test]
fn panic_payloads_become_text() {
    assert_eq!(panic_message(PanicPayload::Text("boom".to_owned())), "boom");
    assert_eq!(
        panic_message(PanicPayload::Other),
        "non-string panic payload"
    );
}

#[test]
fn thread_names_are_plain_and_short() {
    assert_eq!(waiter_thread_name(""), "zed-lock-waiter");
    assert_eq!(
        waiter_thread_name("recursive install"),
        "zed-lock-recursive_install"
    );
    assert_eq!(waiter_thread_name("a-b_C9\u{0}\u{e9}"), "zed-lock-a-b_C9__");
    let long = waiter_thread_name(&"x".repeat(100));
    assert_eq!(long, format!("zed-lock-{}", "x".repeat(32)));
}

#[test]
fn permits_come_back() {
    let mut limiter = WaiterLimiter::new(2);
    assert!(limiter.reserve().is_ok());
    assert!(limiter.reserve().is_ok());
    let error = limiter.reserve().unwrap_err();
    assert_eq!(
        error.message(Platform::Unix),
        "background lock waiter limit reached (2/2)"
    );
    assert_eq!(limiter.active(), 2);
    limiter.release();
    assert_eq!(limiter.active(), 1);
    assert!(limiter.reserve().is_ok());
    assert_eq!(limiter.limit(), 2);
    assert!(WaiterLimiter::new(0).reserve().is_err());
}

#[test]
fn a_waiter_that_cannot_be_spawned_says_why() {
    let error = LockError::SpawnFailed {
        label: "w".to_owned(),
        failure: IoFailure {
            kind: IoErrorKind::Other,
            raw_os_error: Some(11),
            message: "no threads left".to_owned(),
        },
    };
    assert_eq!(
        error.report(Platform::Unix),
        "spawning background lock waiter for `w`: no threads left"
    );
}

#[test]
fn class_ranks_are_fixed() {
    assert_eq!(LockClass::ProjectMutation.rank(), 10);
    assert_eq!(LockClass::Refs.rank(), 20);
    assert_eq!(LockClass::Artifact.rank(), 30);
    assert_eq!(LockClass::Build.rank(), 40);
    assert_eq!(LockClass::Custom(7).rank(), 7);
}
