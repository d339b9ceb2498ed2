//! Times on a monotonic clock, in nanoseconds since its origin.
use vstd::prelude::*;

verus! {

/// A point in time.
#[derive(Clone, Copy, Debug, PartialEq, Eq, Structural)]
pub struct TimePoint {
    pub nanoseconds: u64,
}

/// A length of time.
#[derive(Clone, Copy, Debug, PartialEq, Eq, Structural)]
pub struct TimeSpan {
    pub nanoseconds: u64,
}

impl TimePoint {
    /// The time that has passed since `earlier`; none where that lies ahead.
    pub open spec fn since(self, earlier: TimePoint) -> TimeSpan {
        TimeSpan {
            nanoseconds: if self.nanoseconds >= earlier.nanoseconds {
                (self.nanoseconds - earlier.nanoseconds) as u64
            } else {
                0
            },
        }
    }

    /// The time that has passed since `earlier`; none where that lies ahead.
    pub fn saturating_duration_since(self, earlier: TimePoint) -> (span: TimeSpan)
        ensures
            span == self.since(earlier),
    {
        TimeSpan { nanoseconds: self.nanoseconds.saturating_sub(earlier.nanoseconds) }
    }
}

} // verus!
