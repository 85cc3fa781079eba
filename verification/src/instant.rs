//! Points in time and the spans between them.

use vstd::prelude::*;

verus! {

/// A point in time: whole seconds since 1970-01-01T00:00:00Z and the
/// nanoseconds past that second.
///
/// Instants are ordered by seconds first and nanoseconds second. For
/// instants whose nanoseconds are less than a second (`valid`) that is the
/// order of their nanoseconds since the epoch; `Instant::new` makes such
/// instants.
#[derive(Clone, Copy, Debug, PartialEq, Eq, Structural)]
pub struct Instant {
    pub secs: i64,
    pub nanos: u32,
}

/// The most nanoseconds that lie within one second.
pub const MAX_NANOS: u32 = 999_999_999;

impl Instant {
    /// The nanoseconds are less than a second.
    pub open spec fn valid(self) -> bool {
        self.nanos <= MAX_NANOS
    }

    /// The instant `nanos` nanoseconds into second `secs`, where `nanos` is
    /// less than a second; the last nanosecond of the second where it is
    /// more.
    pub open spec fn folded(secs: i64, nanos: u32) -> Instant {
        Instant {
            secs,
            nanos: if nanos > MAX_NANOS {
                MAX_NANOS
            } else {
                nanos
            },
        }
    }

    /// The instant `nanos` nanoseconds into second `secs`. Nanoseconds of a
    /// second or more, as a leap second is written, give the last
    /// nanosecond of the second.
    pub fn new(secs: i64, nanos: u32) -> (r: Instant)
        ensures
            r == Instant::folded(secs, nanos),
            r.valid(),
    {
        Instant {
            secs,
            nanos: if nanos > MAX_NANOS {
                MAX_NANOS
            } else {
                nanos
            },
        }
    }

    /// Nanoseconds since the epoch.
    pub open spec fn total_nanos(self) -> int {
        self.secs * 1_000_000_000 + self.nanos
    }

    /// `self` is not later than `other`.
    pub open spec fn at_or_before(self, other: Instant) -> bool {
        self.secs < other.secs || (self.secs == other.secs && self.nanos <= other.nanos)
    }

    /// `self` is earlier than `other`.
    pub open spec fn before(self, other: Instant) -> bool {
        self.secs < other.secs || (self.secs == other.secs && self.nanos < other.nanos)
    }

    /// The start of second `secs`.
    pub fn from_secs(secs: i64) -> (r: Instant)
        ensures
            r == (Instant { secs, nanos: 0 }),
    {
        Instant { secs, nanos: 0 }
    }

    /// Whether `self` is not later than `other`.
    pub fn is_at_or_before(&self, other: &Instant) -> (r: bool)
        ensures
            r == self.at_or_before(*other),
    {
        self.secs < other.secs || (self.secs == other.secs && self.nanos <= other.nanos)
    }

    /// Whether `self` is earlier than `other`.
    pub fn is_before(&self, other: &Instant) -> (r: bool)
        ensures
            r == self.before(*other),
    {
        self.secs < other.secs || (self.secs == other.secs && self.nanos < other.nanos)
    }
}

/// Valid instants are ordered as their nanoseconds since the epoch are.
pub proof fn lemma_order_is_that_of_nanos(a: Instant, b: Instant)
    requires
        a.valid(),
        b.valid(),
    ensures
        a.at_or_before(b) <==> a.total_nanos() <= b.total_nanos(),
        a.before(b) <==> a.total_nanos() < b.total_nanos(),
        a == b <==> a.total_nanos() == b.total_nanos(),
{
}

/// A span of time from `start` to `end`.
#[derive(Clone, Copy, Debug, PartialEq, Eq, Structural)]
pub struct Interval {
    pub start: Instant,
    pub end: Instant,
}

impl Interval {
    /// Length of the span in nanoseconds.
    pub open spec fn duration_nanos(self) -> int {
        self.end.total_nanos() - self.start.total_nanos()
    }
}

} // verus!
