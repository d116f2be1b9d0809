//! Absolute timestamps and durations, both counted in whole nanoseconds.
//!
//! The store itself never reads a clock: the caller captures the current
//! moment and passes it in. Arithmetic saturates at the ends of the range, so
//! no operation on time can panic.

use vstd::prelude::*;

verus! {

/// Number of nanoseconds in one second.
pub const NANOS_PER_SECOND: u64 = 1_000_000_000;

/// Number of nanoseconds in one millisecond.
pub const NANOS_PER_MILLISECOND: u64 = 1_000_000;

/// An absolute point in time: nanoseconds since an arbitrary fixed epoch.
#[derive(Clone, Copy, Debug, PartialEq, Eq, Structural)]
pub struct Timestamp {
    pub nanos: u64,
}

/// A span of time in nanoseconds.
#[derive(Clone, Copy, Debug, PartialEq, Eq, Structural)]
pub struct Duration {
    pub nanos: u64,
}

/// `a * b`, clamped to the top of the `u64` range.
fn saturating_mul_u64(a: u64, b: u64) -> (r: u64)
    ensures
        r == if a * b <= u64::MAX {
            a * b
        } else {
            u64::MAX as int
        },
{
    if b == 0 {
        0
    } else {
        let limit: u64 = u64::MAX / b;
        if a <= limit {
            proof {
                assert(a * b <= limit * b <= u64::MAX) by (nonlinear_arith)
                    requires
                        a <= limit,
                        b > 0,
                        limit == u64::MAX as int / b as int,
                ;
            }
            a * b
        } else {
            proof {
                assert(a * b > u64::MAX) by (nonlinear_arith)
                    requires
                        a > limit,
                        b > 0,
                        limit == u64::MAX as int / b as int,
                ;
            }
            u64::MAX
        }
    }
}

impl Timestamp {
    /// The earliest representable instant.
    pub fn min_value() -> (r: Timestamp)
        ensures
            r.nanos == 0,
    {
        Timestamp { nanos: 0 }
    }

    /// True when `self` is at or before `other`.
    #[verifier::when_used_as_spec(spec_le)]
    pub fn le(self, other: Timestamp) -> (r: bool)
        ensures
            r == self.spec_le(other),
    {
        self.nanos <= other.nanos
    }

    pub open spec fn spec_le(self, other: Timestamp) -> bool {
        self.nanos <= other.nanos
    }

    /// True when `self` is strictly before `other`.
    #[verifier::when_used_as_spec(spec_lt)]
    pub fn lt(self, other: Timestamp) -> (r: bool)
        ensures
            r == self.spec_lt(other),
    {
        self.nanos < other.nanos
    }

    pub open spec fn spec_lt(self, other: Timestamp) -> bool {
        self.nanos < other.nanos
    }

    /// The earlier of two instants.
    pub fn earliest(self, other: Timestamp) -> (r: Timestamp)
        ensures
            r == (if self.nanos <= other.nanos {
                self
            } else {
                other
            }),
    {
        if self.nanos <= other.nanos {
            self
        } else {
            other
        }
    }

    /// This instant moved forward by `d`, saturating at the end of the range.
    pub open spec fn spec_saturating_add(self, d: Duration) -> Timestamp {
        Timestamp {
            nanos: if self.nanos + d.nanos <= u64::MAX {
                (self.nanos + d.nanos) as u64
            } else {
                u64::MAX
            },
        }
    }

    /// Computes [`Timestamp::spec_saturating_add`].
    pub fn saturating_add(self, d: Duration) -> (r: Timestamp)
        ensures
            r == self.spec_saturating_add(d),
    {
        Timestamp { nanos: self.nanos.saturating_add(d.nanos) }
    }

    /// The span from `earlier` up to `self`, or `None` when `earlier` is
    /// later than `self`.
    pub fn since(self, earlier: Timestamp) -> (r: Option<Duration>)
        ensures
            earlier.nanos <= self.nanos ==> r == Some(
                Duration { nanos: (self.nanos - earlier.nanos) as u64 },
            ),
            earlier.nanos > self.nanos ==> r is None,
    {
        if earlier.nanos <= self.nanos {
            Some(Duration { nanos: self.nanos - earlier.nanos })
        } else {
            None
        }
    }

    /// The span from `earlier` up to `self`, zero when `earlier` is later.
    pub open spec fn spec_since_or_zero(self, earlier: Timestamp) -> Duration {
        Duration {
            nanos: if earlier.nanos <= self.nanos {
                (self.nanos - earlier.nanos) as u64
            } else {
                0
            },
        }
    }

    /// Computes [`Timestamp::spec_since_or_zero`].
    pub fn since_or_zero(self, earlier: Timestamp) -> (r: Duration)
        ensures
            r == self.spec_since_or_zero(earlier),
    {
        if earlier.nanos <= self.nanos {
            Duration { nanos: self.nanos - earlier.nanos }
        } else {
            Duration { nanos: 0 }
        }
    }
}

impl Duration {
    /// The empty span.
    pub fn zero() -> (r: Duration)
        ensures
            r.nanos == 0,
    {
        Duration { nanos: 0 }
    }

    /// A span of whole seconds, saturating at the end of the range.
    pub fn from_secs(secs: u64) -> (r: Duration)
        ensures
            r.nanos == if secs * NANOS_PER_SECOND <= u64::MAX {
                secs * NANOS_PER_SECOND
            } else {
                u64::MAX as int
            },
    {
        Duration { nanos: saturating_mul_u64(secs, NANOS_PER_SECOND) }
    }

    /// A span of whole milliseconds, saturating at the end of the range.
    pub fn from_millis(millis: u64) -> (r: Duration)
        ensures
            r.nanos == if millis * NANOS_PER_MILLISECOND <= u64::MAX {
                millis * NANOS_PER_MILLISECOND
            } else {
                u64::MAX as int
            },
    {
        Duration { nanos: saturating_mul_u64(millis, NANOS_PER_MILLISECOND) }
    }

    /// The smaller of two spans.
    pub fn min_of(self, other: Duration) -> (r: Duration)
        ensures
            r == (if self.nanos <= other.nanos {
                self
            } else {
                other
            }),
    {
        if self.nanos <= other.nanos {
            self
        } else {
            other
        }
    }

    /// `self` shortened by `other`, zero when `other` is the longer span.
    pub fn saturating_sub(self, other: Duration) -> (r: Duration)
        ensures
            r.nanos == if other.nanos <= self.nanos {
                self.nanos - other.nanos
            } else {
                0
            },
    {
        if other.nanos <= self.nanos {
            Duration { nanos: self.nanos - other.nanos }
        } else {
            Duration { nanos: 0 }
        }
    }
}

} // verus!
