//! The background worker's target and its wait decision.
//!
//! A single long-lived thread watches a published target and wakes to remove
//! expired keys and commit dirty ones. The decision of how long to block is
//! pure and lives here; the watching itself belongs to the surrounding
//! process.

use vstd::prelude::*;

use crate::time::{Duration, Timestamp};

verus! {

/// Number of nanoseconds in one day: the ceiling on any timed wait, guarding
/// against overflow in upstream deadline arithmetic.
pub const MAX_TIMED_WAIT_NANOS: u64 = 86_400_000_000_000;

/// When the background worker should next act.
#[derive(Clone, Copy, Debug, PartialEq, Eq, Structural)]
pub enum BackgroundWorkerProcessTarget {
    /// Act immediately.
    Now,
    /// Act at the given instant.
    Timestamp(Timestamp),
    /// Nothing to do until the target changes.
    Never,
}

/// How the worker should wait before acting.
#[derive(Clone, Copy, Debug, PartialEq, Eq, Structural)]
pub enum WorkerWait {
    /// Block until the target changes.
    Block,
    /// Block for at most this long, then act.
    BlockAtMost(Duration),
    /// Act immediately.
    ActNow,
}

/// What the worker does with a target it has read: block on `Never`, act at
/// once on `Now` or a reached instant, and otherwise block for the remaining
/// time, capped at one day.
pub open spec fn spec_worker_wait(
    target: BackgroundWorkerProcessTarget,
    now: Timestamp,
) -> WorkerWait {
    match target {
        BackgroundWorkerProcessTarget::Never => WorkerWait::Block,
        BackgroundWorkerProcessTarget::Now => WorkerWait::ActNow,
        BackgroundWorkerProcessTarget::Timestamp(t) => {
            if t.nanos <= now.nanos {
                WorkerWait::ActNow
            } else {
                let remaining = (t.nanos - now.nanos) as u64;
                WorkerWait::BlockAtMost(
                    Duration {
                        nanos: if remaining <= MAX_TIMED_WAIT_NANOS {
                            remaining
                        } else {
                            MAX_TIMED_WAIT_NANOS
                        },
                    },
                )
            }
        },
    }
}

/// Decides [`spec_worker_wait`].
pub fn worker_wait(target: BackgroundWorkerProcessTarget, now: Timestamp) -> (r: WorkerWait)
    ensures
        r == spec_worker_wait(target, now),
{
    match target {
        BackgroundWorkerProcessTarget::Never => WorkerWait::Block,
        BackgroundWorkerProcessTarget::Now => WorkerWait::ActNow,
        BackgroundWorkerProcessTarget::Timestamp(t) => {
            match now.since(t) {
                Some(_) => WorkerWait::ActNow,
                None => {
                    if t.nanos <= now.nanos {
                        WorkerWait::ActNow
                    } else {
                        let remaining = Duration { nanos: t.nanos - now.nanos };
                        WorkerWait::BlockAtMost(
                            remaining.min_of(Duration { nanos: MAX_TIMED_WAIT_NANOS }),
                        )
                    }
                },
            }
        },
    }
}

} // verus!
