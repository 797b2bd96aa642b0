//! The hand-over of a background acquisition to whoever waits for it.
//!
//! A worker thread asks the kernel and publishes the answer; the receiver may
//! take it, time out, or go away. Threads, condition variables and wakers are
//! used outside: here is what each of the two sides may do next.

use vstd::prelude::*;
use vstd::string::*;

use crate::error::LockError;
use crate::event::LockEvent;
#[allow(unused_imports)]
use crate::event::{optional_event, EventView};
use crate::span::Span;
use crate::text::{chars_of, string_of};

verus! {

/// What a worker and its receiver share.
#[derive(Debug)]
pub struct WaitState<R, W> {
    result: Option<R>,
    receiver_alive: bool,
    waker: Option<W>,
}

/// Mathematical form of the shared state.
pub struct WaitView<R, W> {
    pub result: Option<R>,
    pub receiver_alive: bool,
    pub waker: Option<W>,
}

impl<R, W> View for WaitState<R, W> {
    type V = WaitView<R, W>;

    closed spec fn view(&self) -> WaitView<R, W> {
        WaitView {
            result: self.result,
            receiver_alive: self.receiver_alive,
            waker: self.waker,
        }
    }
}

/// What the worker has to do with its result.
#[derive(Debug)]
pub enum Completion<R, W> {
    /// The result is published; notify the receiver, and wake its task.
    Published(Option<W>),
    /// Nobody will take the result: drop it, which releases what it holds.
    Released(R),
}

/// What a receiver with a deadline sees.
#[derive(Debug)]
pub enum Observation<R> {
    Ready(R),
    Expired,
    /// Not ready; wait at most this long.
    Sleep(Span),
}

/// Nothing published, somebody listening, no task to wake.
pub open spec fn fresh_wait<R, W>() -> WaitView<R, W> {
    WaitView { result: None, receiver_alive: true, waker: None }
}

/// The state after the worker is done.
pub open spec fn after_settle<R, W>(state: WaitView<R, W>, result: R) -> WaitView<R, W> {
    if state.receiver_alive {
        WaitView { result: Some(result), waker: None, ..state }
    } else {
        state
    }
}

/// The state after the receiver has gone.
pub open spec fn after_abandon<R, W>(state: WaitView<R, W>) -> WaitView<R, W> {
    WaitView { result: None, receiver_alive: false, waker: None }
}

/// The state after the receiver has looked for a result.
pub open spec fn after_take<R, W>(state: WaitView<R, W>) -> WaitView<R, W> {
    WaitView { result: None, ..state }
}

impl<R, W> WaitState<R, W> {
    pub fn new() -> (state: WaitState<R, W>)
        ensures
            state@ == fresh_wait::<R, W>(),
    {
        WaitState { result: None, receiver_alive: true, waker: None }
    }

    /// The worker is done: publish the result, or release it where the receiver
    /// has gone.
    pub fn settle_waiter_completion(&mut self, result: R) -> (completion: Completion<R, W>)
        ensures
            final(self)@ == after_settle(old(self)@, result),
            completion == if old(self)@.receiver_alive {
                Completion::Published(old(self)@.waker)
            } else {
                Completion::<R, W>::Released(result)
            },
    {
        if !self.receiver_alive {
            return Completion::Released(result);
        }
        self.result = Some(result);
        Completion::Published(self.waker.take())
    }

    /// Take the result, where it is there.
    pub fn take_result(&mut self) -> (result: Option<R>)
        ensures
            result == old(self)@.result,
            final(self)@ == after_take(old(self)@),
    {
        self.result.take()
    }

    /// The task that is to be woken.
    pub fn waker(&self) -> (waker: Option<&W>)
        ensures
            match waker {
                Some(kept) => self@.waker == Some(*kept),
                None => self@.waker is None,
            },
    {
        self.waker.as_ref()
    }

    /// Take the result, or leave a waker behind. A waker that is there already
    /// is kept where it wakes the same task.
    pub fn poll_result(&mut self, waker: W, kept_wakes_same_task: bool) -> (result: Option<R>)
        ensures
            result == old(self)@.result,
            final(self)@ == (WaitView::<R, W> {
                result: None,
                receiver_alive: old(self)@.receiver_alive,
                waker: if old(self)@.result is Some || (old(self)@.waker is Some
                    && kept_wakes_same_task) {
                    old(self)@.waker
                } else {
                    Some(waker)
                },
            }),
    {
        match self.result.take() {
            Some(result) => Some(result),
            None => {
                if self.waker.is_none() || !kept_wakes_same_task {
                    self.waker = Some(waker);
                }
                None
            },
        }
    }

    /// Look for the result against a deadline. A result that is there wins over
    /// a deadline that has passed.
    pub fn observe(&mut self, timeout: Span, elapsed: Span, timed_out: bool) -> (seen: Observation<
        R,
    >)
        ensures
            final(self)@ == after_take(old(self)@),
            match seen {
                Observation::Ready(result) => old(self)@.result == Some(result),
                Observation::Expired => old(self)@.result is None && (timed_out
                    || timeout.total_nanos() <= elapsed.total_nanos()),
                Observation::Sleep(left) => {
                    &&& old(self)@.result is None
                    &&& !timed_out
                    &&& left.total_nanos() > 0
                    &&& left.total_nanos() == timeout.total_nanos() - elapsed.total_nanos()
                },
            },
    {
        if let Some(result) = self.result.take() {
            return Observation::Ready(result);
        }
        if timed_out {
            return Observation::Expired;
        }
        let left = timeout.saturating_sub(elapsed);
        if left.is_zero() {
            Observation::Expired
        } else {
            Observation::Sleep(left)
        }
    }

    /// The receiver goes away; a result that nobody took is handed out so that
    /// it can be dropped.
    pub fn abandon(&mut self) -> (unclaimed: Option<R>)
        ensures
            unclaimed == old(self)@.result,
            final(self)@ == after_abandon(old(self)@),
    {
        self.receiver_alive = false;
        self.waker = None;
        self.result.take()
    }
}

/// The receiving side of a background acquisition.
#[derive(Debug)]
pub struct LockWaiter {
    label: String,
    completed: bool,
    on_cancel: Option<LockEvent>,
}

/// Mathematical form of the receiving side.
pub struct WaiterView {
    pub label: Seq<char>,
    pub completed: bool,
    pub on_cancel: Option<EventView>,
}

impl View for LockWaiter {
    type V = WaiterView;

    closed spec fn view(&self) -> WaiterView {
        WaiterView {
            label: self.label@,
            completed: self.completed,
            on_cancel: optional_event(self.on_cancel),
        }
    }
}

/// The waiter once its result has been handed out.
pub open spec fn finished(waiter: WaiterView) -> WaiterView {
    WaiterView { completed: true, on_cancel: None, ..waiter }
}

/// The waiter once another terminal reason has been told.
pub open spec fn disarmed(waiter: WaiterView) -> WaiterView {
    WaiterView { on_cancel: None, ..waiter }
}

/// What going away tells: the cancellation, unless the waiter has completed.
pub open spec fn cancellation(waiter: WaiterView) -> Option<EventView> {
    if waiter.completed {
        None
    } else {
        waiter.on_cancel
    }
}

impl LockWaiter {
    /// A waiter that tells `on_cancel` when it is dropped while pending.
    pub fn new(label: &str, on_cancel: Option<LockEvent>) -> (waiter: LockWaiter)
        ensures
            waiter@ == (WaiterView {
                label: label@,
                completed: false,
                on_cancel: optional_event(on_cancel),
            }),
    {
        LockWaiter { label: label.to_owned(), completed: false, on_cancel }
    }

    pub fn label(&self) -> (label: &str)
        ensures
            label@ == self@.label,
    {
        self.label.as_str()
    }

    pub fn is_completed(&self) -> (completed: bool)
        ensures
            completed == self@.completed,
    {
        self.completed
    }

    /// Refuse a second observation of a waiter that has completed.
    pub fn ensure_pending(&self) -> (pending: Result<(), LockError>)
        ensures
            match pending {
                Ok(()) => !self@.completed,
                Err(LockError::AlreadyCompleted { label }) => self@.completed && label@
                    == self@.label,
                Err(_) => false,
            },
    {
        if self.completed {
            return Err(LockError::AlreadyCompleted { label: self.label.as_str().to_owned() });
        }
        Ok(())
    }

    /// Hand out the result. Where the worker thread itself panicked, that is
    /// the answer instead.
    pub fn finish<R>(&mut self, result: R, worker_joined: bool) -> (answer: Result<R, LockError>)
        ensures
            final(self)@ == finished(old(self)@),
            match answer {
                Ok(value) => worker_joined && value == result,
                Err(LockError::WorkerPanicked { label }) => !worker_joined && label@
                    == old(self)@.label,
                Err(_) => false,
            },
    {
        self.completed = true;
        self.on_cancel = None;
        if worker_joined {
            Ok(result)
        } else {
            Err(LockError::WorkerPanicked { label: self.label.as_str().to_owned() })
        }
    }

    /// Another terminal reason has been told: dropping the waiter tells no
    /// cancellation any more.
    pub fn disarm_cancellation(&mut self)
        ensures
            final(self)@ == disarmed(old(self)@),
    {
        self.on_cancel = None;
    }

    /// The waiter is dropped: what has to be told.
    pub fn abandon(&mut self) -> (event: Option<LockEvent>)
        ensures
            optional_event(event) == cancellation(old(self)@),
            final(self)@ == (if old(self)@.completed {
                old(self)@
            } else {
                disarmed(old(self)@)
            }),
    {
        if self.completed {
            None
        } else {
            self.on_cancel.take()
        }
    }
}

/// A character that may stand in the name of a thread.
pub open spec fn thread_name_char(c: char) -> bool {
    ||| '0' <= c <= '9'
    ||| 'A' <= c <= 'Z'
    ||| 'a' <= c <= 'z'
    ||| c == '-'
    ||| c == '_'
}

/// At most the first 32 characters of a label, others than letters, digits,
/// hyphens and underscores replaced.
pub open spec fn thread_name_suffix(label: Seq<char>) -> Seq<char> {
    Seq::new(
        if label.len() < 32 {
            label.len()
        } else {
            32
        },
        |i: int|
            if thread_name_char(label[i]) {
                label[i]
            } else {
                '_'
            },
    )
}

/// The name of the thread that waits under a label.
pub open spec fn thread_name(label: Seq<char>) -> Seq<char> {
    if label.len() == 0 {
        "zed-lock-waiter"@
    } else {
        "zed-lock-"@ + thread_name_suffix(label)
    }
}

/// The name of the thread that waits under a label.
pub fn waiter_thread_name(label: &str) -> (name: String)
    ensures
        name@ == thread_name(label@),
{
    let chars = chars_of(label);
    if chars.len() == 0 {
        return "zed-lock-waiter".to_owned();
    }
    let limit: usize = if chars.len() < 32 {
        chars.len()
    } else {
        32
    };
    let mut suffix: Vec<char> = Vec::new();
    let mut i: usize = 0;
    while i < limit
        invariant
            chars@ == label@,
            limit <= chars.len(),
            limit == thread_name_suffix(label@).len(),
            i <= limit,
            suffix@ == thread_name_suffix(label@).take(i as int),
        decreases limit - i,
    {
        let c: char = chars[i];
        let plain = ('0' <= c && c <= '9') || ('A' <= c && c <= 'Z') || ('a' <= c && c <= 'z') || c
            == '-' || c == '_';
        suffix.push(
            if plain {
                c
            } else {
                '_'
            },
        );
        i += 1;
        assert(suffix@ =~= thread_name_suffix(label@).take(i as int));
    }
    assert(suffix@ =~= thread_name_suffix(label@));
    let mut name = "zed-lock-".to_owned();
    name.append(string_of(suffix.as_slice()).as_str());
    name
}

/// What a panic carried.
#[derive(Debug)]
pub enum PanicPayload {
    Text(String),
    Other,
}

/// The text of a panic.
pub open spec fn panic_text(payload: PanicPayload) -> Seq<char> {
    match payload {
        PanicPayload::Text(message) => message@,
        PanicPayload::Other => "non-string panic payload"@,
    }
}

pub fn panic_message(payload: PanicPayload) -> (text: String)
    ensures
        text@ == panic_text(payload),
{
    match payload {
        PanicPayload::Text(message) => message,
        PanicPayload::Other => "non-string panic payload".to_owned(),
    }
}

/// The error that a panicking acquisition becomes.
pub fn waiter_panicked(label: &str, payload: PanicPayload) -> (error: LockError)
    ensures
        error matches LockError::WaiterPanicked { label: name, payload: text } && name@ == label@
            && text@ == panic_text(payload),
{
    LockError::WaiterPanicked { label: label.to_owned(), payload: panic_message(payload) }
}

/// A receiver that went away never gets a result: whatever the worker brings
/// later is not published, and the state stays as the receiver left it.
pub proof fn law_abandoned_receiver_gets_nothing<R, W>(state: WaitView<R, W>, result: R)
    ensures
        !after_abandon(state).receiver_alive,
        after_settle(after_abandon(state), result) == after_abandon(state),
        after_settle(after_abandon(state), result).result is None,
{
}

/// A result that was published is taken exactly once.
pub proof fn law_published_result_is_taken_once<R, W>(state: WaitView<R, W>, result: R)
    requires
        state.receiver_alive,
    ensures
        after_settle(state, result).result == Some(result),
        after_take(after_settle(state, result)).result is None,
{
}

/// Looking for a result before the worker is done changes nothing about the
/// request: the worker still publishes to the same receiver.
pub proof fn law_timeouts_keep_the_request<R, W>(state: WaitView<R, W>, result: R)
    requires
        state.receiver_alive,
        state.result is None,
    ensures
        after_take(state) == state,
        after_settle(after_take(state), result).result == Some(result),
{
}

/// A waiter has one terminal reason: once it has completed, or once a timeout
/// has been told, dropping it tells no cancellation.
pub proof fn law_single_terminal_reason(waiter: WaiterView)
    ensures
        cancellation(finished(waiter)) is None,
        cancellation(disarmed(waiter)) is None,
{
}

/// The name of a waiter thread is not empty, short, and has no NUL.
pub proof fn law_thread_name_is_plain(label: Seq<char>)
    ensures
        0 < thread_name(label).len() <= 41,
        forall|i: int| 0 <= i < thread_name(label).len() ==> thread_name_char(
            #[trigger] thread_name(label)[i],
        ),
{
    reveal_strlit("zed-lock-waiter");
    reveal_strlit("zed-lock-");
    assert forall|i: int| 0 <= i < thread_name(label).len() implies thread_name_char(
        #[trigger] thread_name(label)[i],
    ) by {
        if label.len() > 0 && i >= 9 {
            assert(thread_name(label)[i] == thread_name_suffix(label)[i - 9]);
        }
    }
}

/// A worker that is done leaves its result, and no waker, for a receiver that is
/// there, and nothing at all for one that has gone.
pub proof fn law_workers_publish_to_listening_receivers<R, W>(state: WaitView<R, W>, result: R)
    ensures
        ({
            let settled = after_settle(state, result);
            &&& settled.receiver_alive == state.receiver_alive
            &&& state.receiver_alive ==> settled.result == Some(result) && settled.waker is None
            &&& !state.receiver_alive ==> settled.result == state.result && settled.waker
                == state.waker
        }),
{
}

/// Looking takes the result and touches nothing else; going away leaves nothing
/// behind; a new state holds nothing and has a listening receiver.
pub proof fn law_receivers_take_or_leave<R, W>(state: WaitView<R, W>)
    ensures
        after_take(state).result is None,
        after_take(state).receiver_alive == state.receiver_alive,
        after_take(state).waker == state.waker,
        after_abandon(state).result is None,
        !after_abandon(state).receiver_alive,
        after_abandon(state).waker is None,
        fresh_wait::<R, W>().result is None,
        fresh_wait::<R, W>().receiver_alive,
        fresh_wait::<R, W>().waker is None,
{
}

/// A waiter that is dropped tells its cancellation exactly where it is pending
/// and nothing else has been told, and then tells that very event.
pub proof fn law_pending_waiters_tell_their_cancellation(waiter: WaiterView)
    ensures
        !waiter.completed ==> cancellation(waiter) == waiter.on_cancel,
        waiter.completed ==> cancellation(waiter) is None,
        finished(waiter).completed && finished(waiter).on_cancel is None,
        finished(waiter).label == waiter.label,
        disarmed(waiter).on_cancel is None,
        disarmed(waiter).completed == waiter.completed,
        disarmed(waiter).label == waiter.label,
{
}

/// A thread is named after the first 32 characters of its label, of which
/// letters, digits, hyphens and underscores of ASCII stay as they are and all
/// others become underscores.
pub proof fn law_threads_are_named_after_their_label(label: Seq<char>, i: int)
    requires
        label.len() > 0,
        0 <= i < label.len(),
        i < 32,
    ensures
        thread_name(label).len() == 9 + if label.len() < 32 {
            label.len()
        } else {
            32
        },
        thread_name(label).take(9) == "zed-lock-"@,
        ({
            let code = label[i] as int;
            let plain = 48 <= code <= 57 || 65 <= code <= 90 || 97 <= code <= 122 || code == 45
                || code == 95;
            thread_name(label)[9 + i] == if plain {
                label[i]
            } else {
                '_'
            }
        }),
{
    reveal_strlit("zed-lock-");
    assert(thread_name(label).take(9) =~= "zed-lock-"@);
    assert(thread_name(label)[9 + i] == thread_name_suffix(label)[i]);
}

/// A panic that carried text is told in full, and every other one in the same
/// words.
pub proof fn law_panic_texts_are_kept(message: String)
    ensures
        panic_text(PanicPayload::Text(message)) == message@,
        panic_text(PanicPayload::Other) == "non-string panic payload"@,
{
}

} // verus!
