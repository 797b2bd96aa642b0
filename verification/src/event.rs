//! Structured lifecycle events.

use vstd::prelude::*;
use vstd::string::*;

use crate::owner::{copy_text, OwnerInfo};
#[allow(unused_imports)]
use crate::owner::{optional_text, OwnerView};
use crate::path::LockPath;
use crate::request::{LockClass, LockRequest};
#[allow(unused_imports)]
use crate::request::RequestView;
use crate::span::Span;

verus! {

#[derive(Debug, Clone, Copy, PartialEq, Eq, Structural)]
pub enum LockEventKind {
    Waiting,
    Acquired,
    Contended,
    Released,
    TimedOut,
    Cancelled,
    Failed,
}

/// Mathematical form of an event.
pub struct EventView {
    pub kind: LockEventKind,
    pub path: Seq<u8>,
    pub operation: Seq<char>,
    pub class: LockClass,
    pub elapsed: Option<Span>,
    pub owner: Option<OwnerView>,
    pub detail: Option<Seq<char>>,
}

/// Structured lifecycle event. Callbacks must be fast and must not attempt to
/// acquire the same lock synchronously.
#[derive(Debug)]
pub struct LockEvent {
    pub kind: LockEventKind,
    pub path: LockPath,
    pub operation: String,
    pub class: LockClass,
    pub elapsed: Option<Span>,
    pub owner: Option<OwnerInfo>,
    pub detail: Option<String>,
}

pub open spec fn optional_owner(owner: Option<OwnerInfo>) -> Option<OwnerView> {
    match owner {
        Some(value) => Some(value@),
        None => None,
    }
}

impl View for LockEvent {
    type V = EventView;

    open spec fn view(&self) -> EventView {
        EventView {
            kind: self.kind,
            path: self.path@,
            operation: self.operation@,
            class: self.class,
            elapsed: self.elapsed,
            owner: optional_owner(self.owner),
            detail: optional_text(self.detail),
        }
    }
}

impl Clone for LockEvent {
    fn clone(&self) -> (copy: Self)
        ensures
            copy@ == self@,
    {
        LockEvent {
            kind: self.kind,
            path: self.path.clone(),
            operation: self.operation.as_str().to_owned(),
            class: self.class,
            elapsed: self.elapsed,
            owner: match &self.owner {
                Some(owner) => Some(owner.clone()),
                None => None,
            },
            detail: copy_text(&self.detail),
        }
    }
}

/// The event of a request.
pub open spec fn request_event(
    request: RequestView,
    kind: LockEventKind,
    elapsed: Option<Span>,
    owner: Option<OwnerView>,
    detail: Option<Seq<char>>,
) -> EventView {
    EventView {
        kind,
        path: request.path,
        operation: request.operation,
        class: request.class,
        elapsed,
        owner,
        detail,
    }
}

/// The view of an event, where there is one.
pub open spec fn optional_event(event: Option<LockEvent>) -> Option<EventView> {
    match event {
        Some(value) => Some(value@),
        None => None,
    }
}

impl LockEvent {
    /// The event of a request: it carries the request's path, operation and class.
    pub fn for_request(
        request: &LockRequest,
        kind: LockEventKind,
        elapsed: Option<Span>,
        owner: Option<OwnerInfo>,
        detail: Option<String>,
    ) -> (event: LockEvent)
        ensures
            event@ == request_event(
                request@,
                kind,
                elapsed,
                optional_owner(owner),
                optional_text(detail),
            ),
    {
        LockEvent {
            kind,
            path: request.path().clone(),
            operation: request.operation_name().to_owned(),
            class: request.lock_class(),
            elapsed,
            owner,
            detail,
        }
    }
}

/// An event of a request carries the request's path, operation and class, and
/// says what it was given to say, unchanged.
pub proof fn law_events_carry_their_request(
    request: RequestView,
    kind: LockEventKind,
    elapsed: Option<Span>,
    owner: Option<OwnerView>,
    detail: Option<Seq<char>>,
)
    ensures
        ({
            let event = request_event(request, kind, elapsed, owner, detail);
            &&& event.kind == kind
            &&& event.path == request.path
            &&& event.operation == request.operation
            &&& event.class == request.class
            &&& event.elapsed == elapsed
            &&& event.owner == owner
            &&& event.detail == detail
        }),
{
}

} // verus!
