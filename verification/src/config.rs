//! The deferred-durability policy: when the store stages dirty writes for
//! persistence, and how long it may wait before doing so.

use vstd::prelude::*;

use crate::time::Duration;

verus! {

/// One trigger of a lazy policy: commit once at least `changes` keys are
/// dirty and — when a duration is given — at least that long has passed
/// since the previous staging.
#[derive(Clone, Copy, Debug)]
pub struct PersistenceThreshold {
    pub changes: usize,
    pub duration: Option<Duration>,
}

/// When the store persists: after every operation, or once any of a set of
/// thresholds is reached.
#[derive(Clone, Debug)]
pub enum KeyValuePersistence {
    Immediate,
    Lazy(Vec<PersistenceThreshold>),
}

/// The mathematical content of a policy.
pub enum PersistenceView {
    Immediate,
    Lazy(Seq<PersistenceThreshold>),
}

impl View for KeyValuePersistence {
    type V = PersistenceView;

    open spec fn view(&self) -> PersistenceView {
        match self {
            KeyValuePersistence::Immediate => PersistenceView::Immediate,
            KeyValuePersistence::Lazy(ts) => PersistenceView::Lazy(ts@),
        }
    }
}

impl PersistenceThreshold {
    /// A threshold reached as soon as `changes` keys are dirty.
    pub fn after_changes(changes: usize) -> (r: PersistenceThreshold)
        ensures
            r == (PersistenceThreshold { changes, duration: None }),
    {
        PersistenceThreshold { changes, duration: None }
    }

    /// The same threshold, additionally requiring `duration` to have passed.
    pub fn and_duration(self, duration: Duration) -> (r: PersistenceThreshold)
        ensures
            r == (PersistenceThreshold { changes: self.changes, duration: Some(duration) }),
    {
        PersistenceThreshold { changes: self.changes, duration: Some(duration) }
    }

    /// True when this threshold asks for a commit.
    pub open spec fn spec_met(self, changes: usize, elapsed: Duration) -> bool {
        &&& changes >= self.changes
        &&& match self.duration {
            None => true,
            Some(d) => elapsed.nanos >= d.nanos,
        }
    }

    /// How much of this threshold's duration is still to wait.
    pub open spec fn spec_remaining(self, elapsed: Duration) -> Duration {
        let d = match self.duration {
            None => Duration { nanos: 0 },
            Some(d) => d,
        };
        if elapsed.nanos <= d.nanos {
            Duration { nanos: (d.nanos - elapsed.nanos) as u64 }
        } else {
            Duration { nanos: 0 }
        }
    }

    fn met(&self, changes: usize, elapsed: Duration) -> (r: bool)
        ensures
            r == self.spec_met(changes, elapsed),
    {
        changes >= self.changes && (match &self.duration {
            None => true,
            Some(d) => elapsed.nanos >= d.nanos,
        })
    }

    fn remaining(&self, elapsed: Duration) -> (r: Duration)
        ensures
            r == self.spec_remaining(elapsed),
    {
        match &self.duration {
            None => Duration { nanos: 0 },
            Some(d) => d.saturating_sub(elapsed),
        }
    }
}

/// True when some threshold among `ts` is met.
pub open spec fn spec_some_threshold_met(
    ts: Seq<PersistenceThreshold>,
    changes: usize,
    elapsed: Duration,
) -> bool {
    exists|i: int| 0 <= i < ts.len() && #[trigger] ts[i].spec_met(changes, elapsed)
}

/// True when the policy asks for a commit of `changes` dirty keys after
/// `elapsed` time since the previous staging: immediately for any dirty key
/// under the immediate policy, and when some threshold is met under a lazy
/// one.
pub open spec fn spec_should_commit(
    policy: PersistenceView,
    changes: usize,
    elapsed: Duration,
) -> bool {
    match policy {
        PersistenceView::Immediate => changes > 0,
        PersistenceView::Lazy(ts) => spec_some_threshold_met(ts, changes, elapsed),
    }
}

/// The shortest wait after which some threshold of `ts` would be met with
/// `changes` dirty keys, counting only thresholds whose change count is
/// already reached; nothing when no such threshold exists.
pub open spec fn spec_lazy_wait(
    ts: Seq<PersistenceThreshold>,
    changes: usize,
    elapsed: Duration,
) -> Option<Duration>
    decreases ts.len(),
{
    if ts.len() == 0 {
        None
    } else {
        let rest = spec_lazy_wait(ts.drop_last(), changes, elapsed);
        let t = ts.last();
        if changes >= t.changes {
            match rest {
                None => Some(t.spec_remaining(elapsed)),
                Some(d) => Some(
                    if d.nanos <= t.spec_remaining(elapsed).nanos {
                        d
                    } else {
                        t.spec_remaining(elapsed)
                    },
                ),
            }
        } else {
            rest
        }
    }
}

/// The wait until the policy would next ask for a commit; nothing when no
/// deadline is pending.
pub open spec fn spec_duration_until_commit(
    policy: PersistenceView,
    changes: usize,
    elapsed: Duration,
) -> Option<Duration> {
    match policy {
        PersistenceView::Immediate => if changes > 0 {
            Some(Duration { nanos: 0 })
        } else {
            None
        },
        PersistenceView::Lazy(ts) => spec_lazy_wait(ts, changes, elapsed),
    }
}

impl KeyValuePersistence {
    /// A lazy policy with the given thresholds.
    pub fn lazy(thresholds: Vec<PersistenceThreshold>) -> (r: KeyValuePersistence)
        ensures
            r@ == PersistenceView::Lazy(thresholds@),
    {
        KeyValuePersistence::Lazy(thresholds)
    }

    /// The immediate policy.
    pub fn immediate() -> (r: KeyValuePersistence)
        ensures
            r@ == PersistenceView::Immediate,
    {
        KeyValuePersistence::Immediate
    }

    /// Decides [`spec_should_commit`].
    pub fn should_commit(&self, changes: usize, elapsed: Duration) -> (r: bool)
        ensures
            r == spec_should_commit(self@, changes, elapsed),
    {
        match self {
            KeyValuePersistence::Immediate => changes > 0,
            KeyValuePersistence::Lazy(ts) => {
                let mut i: usize = 0;
                while i < ts.len()
                    invariant
                        i <= ts@.len(),
                        self@ == PersistenceView::Lazy(ts@),
                        forall|j: int| 0 <= j < i ==> !(#[trigger] ts@[j].spec_met(
                            changes,
                            elapsed,
                        )),
                    decreases ts@.len() - i,
                {
                    if ts[i].met(changes, elapsed) {
                        proof {
                            assert(ts@[i as int].spec_met(changes, elapsed));
                            assert(spec_some_threshold_met(ts@, changes, elapsed));
                        }
                        return true;
                    }
                    i = i + 1;
                }
                false
            },
        }
    }

    /// Computes [`spec_duration_until_commit`].
    pub fn duration_until_next_commit(&self, changes: usize, elapsed: Duration) -> (r: Option<
        Duration,
    >)
        ensures
            r == spec_duration_until_commit(self@, changes, elapsed),
    {
        match self {
            KeyValuePersistence::Immediate => {
                if changes > 0 {
                    Some(Duration { nanos: 0 })
                } else {
                    None
                }
            },
            KeyValuePersistence::Lazy(ts) => {
                let mut best: Option<Duration> = None;
                let mut i: usize = 0;
                while i < ts.len()
                    invariant
                        i <= ts@.len(),
                        self@ == PersistenceView::Lazy(ts@),
                        best == spec_lazy_wait(ts@.subrange(0, i as int), changes, elapsed),
                    decreases ts@.len() - i,
                {
                    let t = &ts[i];
                    if changes >= t.changes {
                        let rem = t.remaining(elapsed);
                        best = match best {
                            None => Some(rem),
                            Some(d) => Some(d.min_of(rem)),
                        };
                    }
                    i = i + 1;
                    proof {
                        let prefix = ts@.subrange(0, i as int);
                        assert(prefix.drop_last() =~= ts@.subrange(0, i - 1));
                        assert(prefix.last() == ts@[i - 1]);
                    }
                }
                proof {
                    assert(ts@.subrange(0, ts@.len() as int) =~= ts@);
                }
                best
            },
        }
    }
}

impl Default for KeyValuePersistence {
    /// The default policy persists after every operation.
    fn default() -> (r: KeyValuePersistence)
        ensures
            r@ == PersistenceView::Immediate,
    {
        KeyValuePersistence::Immediate
    }
}

} // verus!
