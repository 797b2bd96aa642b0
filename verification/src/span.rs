//! Lengths of time and wall-clock instants as plain numbers.

use vstd::prelude::*;

verus! {

pub const NANOS_PER_SEC: u32 = 1_000_000_000;

/// What the debug format of `std::time::Duration` shows for a duration of
/// whole seconds and remaining nanoseconds.
pub uninterp spec fn duration_text(secs: u64, nanos: u32) -> Seq<char>;

/// Formats `std::time::Duration::new(secs, nanos)` with its `Debug` impl.
#[verifier::external_body]
fn debug_duration(secs: u64, nanos: u32) -> (text: String)
    requires
        nanos < NANOS_PER_SEC,
    ensures
        text@ == duration_text(secs, nanos),
{
    format!("{:?}", std::time::Duration::new(secs, nanos))
}

/// A length of time: whole seconds and less than a second of nanoseconds.
#[derive(Debug, Clone, Copy, PartialEq, Eq)]
pub struct Span {
    secs: u64,
    nanos: u32,
}

impl Span {
    #[verifier::type_invariant]
    spec fn fits(self) -> bool {
        self.nanos < NANOS_PER_SEC
    }

    pub closed spec fn spec_secs(self) -> u64 {
        self.secs
    }

    pub closed spec fn spec_nanos(self) -> u32 {
        self.nanos
    }

    /// The whole length in nanoseconds.
    pub open spec fn total_nanos(self) -> int {
        self.spec_secs() * NANOS_PER_SEC + self.spec_nanos()
    }

    /// How the length is written in messages.
    pub open spec fn text(self) -> Seq<char> {
        duration_text(self.spec_secs(), self.spec_nanos())
    }

    /// A span of whole seconds and `nanos` nanoseconds beyond them.
    pub fn new(secs: u64, nanos: u32) -> (span: Span)
        requires
            nanos < NANOS_PER_SEC,
        ensures
            span.spec_secs() == secs,
            span.spec_nanos() == nanos,
    {
        Span { secs, nanos }
    }

    /// The empty span.
    pub closed spec fn spec_zero() -> Span {
        Span { secs: 0, nanos: 0 }
    }

    /// The empty span.
    pub fn zero() -> (span: Span)
        ensures
            span == Span::spec_zero(),
            span.total_nanos() == 0,
    {
        Span { secs: 0, nanos: 0 }
    }

    pub fn secs(&self) -> (secs: u64)
        ensures
            secs == self.spec_secs(),
    {
        self.secs
    }

    pub fn subsec_nanos(&self) -> (nanos: u32)
        ensures
            nanos == self.spec_nanos(),
            nanos < NANOS_PER_SEC,
    {
        proof {
            use_type_invariant(self);
        }
        self.nanos
    }

    pub fn is_zero(&self) -> (zero: bool)
        ensures
            zero == (self.total_nanos() == 0),
    {
        self.secs == 0 && self.nanos == 0
    }

    /// What is left of the span after `elapsed`, or nothing.
    pub fn saturating_sub(&self, elapsed: Span) -> (left: Span)
        ensures
            left.total_nanos() == if self.total_nanos() >= elapsed.total_nanos() {
                self.total_nanos() - elapsed.total_nanos()
            } else {
                0
            },
    {
        proof {
            use_type_invariant(self);
            use_type_invariant(&elapsed);
        }
        if self.secs < elapsed.secs || (self.secs == elapsed.secs && self.nanos < elapsed.nanos) {
            return Span { secs: 0, nanos: 0 };
        }
        if self.nanos >= elapsed.nanos {
            Span { secs: self.secs - elapsed.secs, nanos: self.nanos - elapsed.nanos }
        } else {
            Span {
                secs: self.secs - elapsed.secs - 1,
                nanos: NANOS_PER_SEC - (elapsed.nanos - self.nanos),
            }
        }
    }

    /// Whole milliseconds in the span.
    pub fn millis(&self) -> (millis: u128)
        ensures
            millis == self.total_nanos() / 1_000_000,
    {
        proof {
            use_type_invariant(self);
        }
        self.secs as u128 * 1000 + (self.nanos / 1_000_000) as u128
    }

    /// The span as it is written in messages.
    pub fn render(&self) -> (text: String)
        ensures
            text@ == self.text(),
    {
        proof {
            use_type_invariant(self);
        }
        debug_duration(self.secs, self.nanos)
    }
}

/// A reading of the wall clock relative to the Unix epoch.
#[derive(Debug, Clone, Copy, PartialEq, Eq)]
pub enum WallTime {
    /// At the epoch or this long after it.
    SinceEpoch(Span),
    /// This long before the epoch.
    BeforeEpoch(Span),
}

impl WallTime {
    /// Milliseconds since the epoch; a clock set before it counts as the epoch.
    pub open spec fn spec_unix_millis(self) -> int {
        match self {
            WallTime::SinceEpoch(span) => span.total_nanos() / 1_000_000,
            WallTime::BeforeEpoch(_) => 0,
        }
    }

    pub fn unix_millis(&self) -> (millis: u128)
        ensures
            millis == self.spec_unix_millis(),
    {
        match self {
            WallTime::SinceEpoch(span) => span.millis(),
            WallTime::BeforeEpoch(_) => 0,
        }
    }
}

/// A span is as long as its seconds, of 1000000000 nanoseconds each, and its
/// remaining nanoseconds together.
pub proof fn law_spans_count_nanoseconds(span: Span)
    ensures
        span.total_nanos() == span.spec_secs() * 1_000_000_000 + span.spec_nanos(),
        NANOS_PER_SEC == 1_000_000_000,
{
}

/// A time after the epoch counts its whole milliseconds, rounded down, and a
/// time before the epoch counts none.
pub proof fn law_wall_times_count_whole_milliseconds(span: Span)
    requires
        span.total_nanos() >= 0,
    ensures
        ({
            let millis = WallTime::SinceEpoch(span).spec_unix_millis();
            millis * 1_000_000 <= span.total_nanos() < (millis + 1) * 1_000_000
        }),
        WallTime::BeforeEpoch(span).spec_unix_millis() == 0,
{
}

} // verus!
