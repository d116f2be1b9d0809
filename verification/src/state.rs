//! The store's state: the three key layers, the expiration queue, and the
//! persistence scheduler's bookkeeping.
//!
//! A key's visible value is decided by priority: a pending dirty write first
//! (where `None` is a pending deletion), then the in-flight persistence
//! batch, then the durable tree. The surrounding process owns the clock and
//! the disk, so every method that needs either takes the current instant
//! and the decoded on-disk record for the key in question as arguments; the
//! on-disk record is only consulted when neither in-memory layer holds the
//! key.

use vstd::prelude::*;

use crate::config::{
    spec_duration_until_commit, spec_should_commit, KeyValuePersistence, PersistenceView,
};
use crate::kvmap::KvMap;
use crate::time::Timestamp;
use crate::value::{duplicate_entry_option, Entry, EntryView};
use crate::worker::BackgroundWorkerProcessTarget;

verus! {

/// What a finished persistence pass asks of its worker next.
pub enum PersistenceFollowUp {
    /// Nothing: the worker exits.
    Idle,
    /// A drain is in progress and new dirty keys arrived: persist this batch
    /// and finish again.
    Continue(KvMap<Option<Entry>>),
    /// A drain is in progress and nothing is left: signal the waiting
    /// shutdown and exit.
    ShutdownComplete,
}

/// What a shutdown request asks of its caller.
pub enum ShutdownOutcome {
    /// No dirty key and no worker in flight: nothing to drain, nothing to
    /// wait for.
    NothingToDrain,
    /// A batch was staged: the caller must persist it and wait for the
    /// drain's completion signal.
    Drain(KvMap<Option<Entry>>),
    /// A worker is already in flight: the drain is marked pending, the
    /// running worker finishes it, and the caller waits for its signal.
    AwaitInFlight,
}

/// The in-memory state of the store.
pub struct KeyValueState {
    /// When dirty keys are staged for persistence.
    pub persistence: KeyValuePersistence,
    /// The instant of the most recent staging.
    pub last_commit: Timestamp,
    /// The published target the background worker watches.
    pub background_worker_target: BackgroundWorkerProcessTarget,
    /// The expiration queue: keys with their expiration instants, ascending
    /// by instant, each key at most once.
    pub expirations: Vec<(String, Timestamp)>,
    /// Pending writes; `None` is a pending deletion.
    pub dirty_keys: KvMap<Option<Entry>>,
    /// The immutable batch a persistence worker is writing, while one runs.
    pub keys_being_persisted: Option<KvMap<Option<Entry>>>,
    /// The instant of the most recent completed persistence.
    pub last_persistence: Timestamp,
    /// True between a shutdown request and the drain's completion.
    pub shutdown_requested: bool,
}

/// The mathematical content of the expiration queue.
pub open spec fn spec_expiration_pairs(pairs: Seq<(String, Timestamp)>) -> Seq<
    (Seq<char>, Timestamp),
> {
    pairs.map_values(|p: (String, Timestamp)| (p.0@, p.1))
}

/// The queue's invariant: instants ascending, keys distinct.
pub open spec fn spec_expirations_wf(s: Seq<(Seq<char>, Timestamp)>) -> bool {
    forall|i: int, j: int|
        0 <= i < j < s.len() ==> (#[trigger] s[i]).1.nanos <= (#[trigger] s[j]).1.nanos && s[i].0
            != s[j].0
}

/// The expiration instant at the head of the queue, if any.
pub open spec fn spec_head_expiration(s: Seq<(Seq<char>, Timestamp)>) -> Option<Timestamp> {
    if s.len() > 0 {
        Some(s[0].1)
    } else {
        None
    }
}

/// The target the scheduler publishes, as a function of the policy, whether
/// a worker is in flight, the dirty count, the staging and expiration
/// deadlines, and the present instant.
pub open spec fn spec_computed_target(
    policy: PersistenceView,
    in_flight: bool,
    dirty_count: usize,
    last_commit: Timestamp,
    head_expiration: Option<Timestamp>,
    now: Timestamp,
) -> BackgroundWorkerProcessTarget {
    let commit_target: Option<Timestamp> = if in_flight {
        None
    } else {
        match spec_duration_until_commit(policy, dirty_count, now.spec_since_or_zero(last_commit)) {
            Some(d) => Some(now.spec_saturating_add(d)),
            None => None,
        }
    };
    match (commit_target, head_expiration) {
        (Some(c), Some(k)) => {
            if c.nanos <= now.nanos || k.nanos <= now.nanos {
                BackgroundWorkerProcessTarget::Now
            } else if k.nanos <= c.nanos {
                BackgroundWorkerProcessTarget::Timestamp(k)
            } else {
                BackgroundWorkerProcessTarget::Timestamp(c)
            }
        },
        (Some(c), None) => {
            if c.nanos <= now.nanos {
                BackgroundWorkerProcessTarget::Now
            } else {
                BackgroundWorkerProcessTarget::Timestamp(c)
            }
        },
        (None, Some(k)) => {
            if k.nanos <= now.nanos {
                BackgroundWorkerProcessTarget::Now
            } else {
                BackgroundWorkerProcessTarget::Timestamp(k)
            }
        },
        (None, None) => BackgroundWorkerProcessTarget::Never,
    }
}

/// One queue is the other with `k`'s pair replaced by `(k, t)` at its sorted
/// position, witnessed by the removal index (`-1` when `k` was absent) and
/// the insertion position. Entries before the insertion position expire at
/// or before `t`, entries after it strictly after `t` — so equal instants
/// keep their earlier arrivals first. `republished` records whether the head
/// of the queue may have changed.
pub open spec fn spec_expiry_set_witness(
    pre: Seq<(Seq<char>, Timestamp)>,
    post: Seq<(Seq<char>, Timestamp)>,
    k: Seq<char>,
    t: Timestamp,
    republished: bool,
    idx: int,
    pos: int,
) -> bool {
    let mid = if idx >= 0 {
        pre.remove(idx)
    } else {
        pre
    };
    &&& -1 <= idx < pre.len()
    &&& (idx >= 0 ==> pre[idx].0 == k)
    &&& (idx == -1 ==> forall|i: int| 0 <= i < pre.len() ==> (#[trigger] pre[i]).0 != k)
    &&& 0 <= pos <= mid.len()
    &&& (forall|i: int| 0 <= i < pos ==> (#[trigger] mid[i]).1.nanos <= t.nanos)
    &&& (pos < mid.len() ==> mid[pos].1.nanos > t.nanos)
    &&& post == mid.insert(pos, (k, t))
    &&& republished == (idx == 0 || pos == 0 || mid.len() == 0)
}

/// See [`spec_expiry_set_witness`].
pub open spec fn spec_expiry_set(
    pre: Seq<(Seq<char>, Timestamp)>,
    post: Seq<(Seq<char>, Timestamp)>,
    k: Seq<char>,
    t: Timestamp,
    republished: bool,
) -> bool {
    exists|idx: int, pos: int| spec_expiry_set_witness(pre, post, k, t, republished, idx, pos)
}

/// One queue is the other without `k`: unchanged when `k` was absent.
/// `republished` records whether the head was the removed pair.
pub open spec fn spec_expiry_clear(
    pre: Seq<(Seq<char>, Timestamp)>,
    post: Seq<(Seq<char>, Timestamp)>,
    k: Seq<char>,
    republished: bool,
) -> bool {
    if exists|i: int| 0 <= i < pre.len() && (#[trigger] pre[i]).0 == k {
        exists|i: int|
            0 <= i < pre.len() && (#[trigger] pre[i]).0 == k && post == pre.remove(i)
                && republished == (i == 0)
    } else {
        &&& post == pre
        &&& republished == false
    }
}

/// How one call of `update_key_expiration` relates the queue before to the
/// queue after.
pub open spec fn spec_expiry_update(
    pre: Seq<(Seq<char>, Timestamp)>,
    post: Seq<(Seq<char>, Timestamp)>,
    k: Seq<char>,
    expiration: Option<Timestamp>,
    republished: bool,
) -> bool {
    match expiration {
        Some(t) => spec_expiry_set(pre, post, k, t, republished),
        None => spec_expiry_clear(pre, post, k, republished),
    }
}

/// How the expired-key sweep at the head of every operation takes the store
/// from `pre` to `post`: some prefix of the expiration queue — every entry
/// whose instant has been reached, and no more — is popped, and each popped
/// key gains a pending deletion.
pub open spec fn spec_expiry_sweep(pre: KeyValueState, post: KeyValueState, now: Timestamp) -> bool {
    &&& exists|n: int|
        {
            &&& 0 <= n <= pre.spec_expirations().len()
            &&& forall|i: int|
                0 <= i < n ==> (#[trigger] pre.spec_expirations()[i]).1.nanos <= now.nanos
            &&& (n < pre.spec_expirations().len() ==> pre.spec_expirations()[n].1.nanos > now.nanos)
            &&& post.spec_expirations() == pre.spec_expirations().skip(n)
            &&& post.dirty_keys@ == #[trigger] spec_tombstoned(
                pre.dirty_keys@,
                pre.spec_expirations(),
                n,
            )
        }
    &&& post.persistence == pre.persistence
    &&& post.last_commit == pre.last_commit
    &&& post.background_worker_target == pre.background_worker_target
    &&& post.keys_being_persisted == pre.keys_being_persisted
    &&& post.last_persistence == pre.last_persistence
    &&& post.shutdown_requested == pre.shutdown_requested
}

/// The dirty map with the first `n` queued keys marked as pending deletions.
pub open spec fn spec_tombstoned(
    dirty: Map<Seq<char>, Option<EntryView>>,
    expirations: Seq<(Seq<char>, Timestamp)>,
    n: int,
) -> Map<Seq<char>, Option<EntryView>>
    decreases n,
{
    if n <= 0 {
        dirty
    } else {
        spec_tombstoned(dirty, expirations, n - 1).insert(expirations[n - 1].0, None)
    }
}

/// Removing a pair keeps the queue ascending and distinct, and when keys are
/// distinct the removed pair's key is gone entirely.
pub proof fn lemma_expiry_remove_wf(pre: Seq<(Seq<char>, Timestamp)>, i: int)
    requires
        spec_expirations_wf(pre),
        0 <= i < pre.len(),
    ensures
        spec_expirations_wf(pre.remove(i)),
        forall|j: int| 0 <= j < pre.remove(i).len() ==> (#[trigger] pre.remove(i)[j]).0 != pre[i].0,
{
    let post = pre.remove(i);
    assert forall|p: int, q: int|
        0 <= p < q < post.len() implies (#[trigger] post[p]).1.nanos <= (#[trigger] post[q]).1.nanos
        && post[p].0 != post[q].0 by {
        let p0 = if p < i {
            p
        } else {
            p + 1
        };
        let q0 = if q < i {
            q
        } else {
            q + 1
        };
        assert(post[p] == pre[p0]);
        assert(post[q] == pre[q0]);
        assert(pre[p0].1.nanos <= pre[q0].1.nanos && pre[p0].0 != pre[q0].0);
    }
    assert forall|j: int| 0 <= j < post.len() implies (#[trigger] post[j]).0 != pre[i].0 by {
        let j0 = if j < i {
            j
        } else {
            j + 1
        };
        assert(post[j] == pre[j0]);
        if j0 < i {
            assert(pre[j0].1.nanos <= pre[i].1.nanos && pre[j0].0 != pre[i].0);
        } else {
            assert(pre[i].1.nanos <= pre[j0].1.nanos && pre[i].0 != pre[j0].0);
        }
    }
}

/// Inserting a fresh key at the first position whose instant is strictly
/// later keeps the queue ascending and distinct.
pub proof fn lemma_expiry_insert_wf(
    mid: Seq<(Seq<char>, Timestamp)>,
    pos: int,
    k: Seq<char>,
    t: Timestamp,
)
    requires
        spec_expirations_wf(mid),
        0 <= pos <= mid.len(),
        forall|i: int| 0 <= i < pos ==> (#[trigger] mid[i]).1.nanos <= t.nanos,
        pos < mid.len() ==> mid[pos].1.nanos > t.nanos,
        forall|j: int| 0 <= j < mid.len() ==> (#[trigger] mid[j]).0 != k,
    ensures
        spec_expirations_wf(mid.insert(pos, (k, t))),
{
    let post = mid.insert(pos, (k, t));
    assert forall|p: int, q: int|
        0 <= p < q < post.len() implies (#[trigger] post[p]).1.nanos <= (#[trigger] post[q]).1.nanos
        && post[p].0 != post[q].0 by {
        if p == pos {
            let q0 = q - 1;
            assert(post[q] == mid[q0]);
            assert(mid[pos].1.nanos > t.nanos);
            if q0 > pos {
                assert(mid[pos].1.nanos <= mid[q0].1.nanos && mid[pos].0 != mid[q0].0);
            }
        } else if q == pos {
            assert(post[p] == mid[p]);
            assert(mid[p].1.nanos <= t.nanos);
        } else {
            let p0 = if p < pos {
                p
            } else {
                p - 1
            };
            let q0 = if q < pos {
                q
            } else {
                q - 1
            };
            assert(post[p] == mid[p0]);
            assert(post[q] == mid[q0]);
            if p0 < q0 {
                assert(mid[p0].1.nanos <= mid[q0].1.nanos && mid[p0].0 != mid[q0].0);
            } else {
                assert(p < pos && q > pos);
                assert(p0 == q0);
                assert(mid[p0].1.nanos <= t.nanos && t.nanos < mid[q0].1.nanos);
            }
        }
    }
}

/// The position of `key` in the queue, with everything before it known not
/// to carry `key`.
fn find_key_index(expirations: &Vec<(String, Timestamp)>, key: &String) -> (r: Option<usize>)
    ensures
        match r {
            Some(i) => i < expirations@.len() && expirations@[i as int].0@ == key@ && forall|j: int|
                0 <= j < i ==> (#[trigger] expirations@[j]).0@ != key@,
            None => forall|j: int|
                0 <= j < expirations@.len() ==> (#[trigger] expirations@[j]).0@ != key@,
        },
{
    let n = expirations.len();
    let mut i: usize = 0;
    while i < n
        invariant
            n == expirations@.len(),
            i <= n,
            forall|j: int| 0 <= j < i ==> (#[trigger] expirations@[j]).0@ != key@,
        decreases n - i,
    {
        let pair = &expirations[i];
        if pair.0 == *key {
            return Some(i);
        }
        i = i + 1;
    }
    None
}

/// The first position in the queue whose instant is strictly later than `t`,
/// or the queue's length when there is none.
fn find_insert_position(expirations: &Vec<(String, Timestamp)>, t: Timestamp) -> (r: usize)
    ensures
        r <= expirations@.len(),
        forall|j: int| 0 <= j < r ==> (#[trigger] expirations@[j]).1.nanos <= t.nanos,
        r < expirations@.len() ==> expirations@[r as int].1.nanos > t.nanos,
{
    let n = expirations.len();
    let mut i: usize = 0;
    while i < n
        invariant
            n == expirations@.len(),
            i <= n,
            forall|j: int| 0 <= j < i ==> (#[trigger] expirations@[j]).1.nanos <= t.nanos,
        decreases n - i,
    {
        let pair = &expirations[i];
        if pair.1.nanos > t.nanos {
            return i;
        }
        i = i + 1;
    }
    n
}

impl KeyValueState {
    /// The expiration queue's content.
    pub open spec fn spec_expirations(self) -> Seq<(Seq<char>, Timestamp)> {
        spec_expiration_pairs(self.expirations@)
    }

    /// The in-flight batch's content: empty while no worker runs.
    pub open spec fn spec_in_flight(self) -> Map<Seq<char>, Option<EntryView>> {
        match self.keys_being_persisted {
            Some(m) => m@,
            None => Map::empty(),
        }
    }

    /// The state's invariant.
    pub open spec fn wf(self) -> bool {
        &&& self.dirty_keys.wf()
        &&& match self.keys_being_persisted {
            Some(m) => m.wf(),
            None => true,
        }
        &&& spec_expirations_wf(self.spec_expirations())
    }

    /// The value visible for `key` when the durable tree holds `disk` for
    /// it: a dirty write shadows everything, the in-flight batch shadows the
    /// tree.
    pub open spec fn spec_visible(
        self,
        disk: Option<EntryView>,
        key: Seq<char>,
    ) -> Option<EntryView> {
        if self.dirty_keys@.contains_key(key) {
            self.dirty_keys@[key]
        } else if self.spec_in_flight().contains_key(key) {
            self.spec_in_flight()[key]
        } else {
            disk
        }
    }

    /// The target the scheduler would publish from this state at `now`.
    pub open spec fn spec_state_target(self, now: Timestamp) -> BackgroundWorkerProcessTarget {
        spec_computed_target(
            self.persistence@,
            self.keys_being_persisted is Some,
            self.dirty_keys.spec_len() as usize,
            self.last_commit,
            spec_head_expiration(self.spec_expirations()),
            now,
        )
    }

    /// True when the policy asks for the dirty keys to be staged now and no
    /// worker is in flight.
    pub open spec fn spec_needs_commit(self, now: Timestamp) -> bool {
        &&& self.keys_being_persisted is None
        &&& spec_should_commit(
            self.persistence@,
            self.dirty_keys.spec_len() as usize,
            now.spec_since_or_zero(self.last_commit),
        )
    }

    /// Everything but the expiration queue and the published target is
    /// unchanged.
    pub open spec fn spec_store_unchanged(pre: Self, post: Self) -> bool {
        &&& post.persistence == pre.persistence
        &&& post.last_commit == pre.last_commit
        &&& post.dirty_keys == pre.dirty_keys
        &&& post.keys_being_persisted == pre.keys_being_persisted
        &&& post.last_persistence == pre.last_persistence
        &&& post.shutdown_requested == pre.shutdown_requested
    }

    /// Everything but the dirty layer is unchanged.
    pub open spec fn spec_only_dirty_changed(pre: Self, post: Self) -> bool {
        &&& post.persistence == pre.persistence
        &&& post.last_commit == pre.last_commit
        &&& post.background_worker_target == pre.background_worker_target
        &&& post.expirations@ == pre.expirations@
        &&& post.keys_being_persisted == pre.keys_being_persisted
        &&& post.last_persistence == pre.last_persistence
        &&& post.shutdown_requested == pre.shutdown_requested
    }

    /// A fresh store over an empty dirty layer, with no worker in flight.
    pub fn new(
        persistence: KeyValuePersistence,
        background_worker_target: BackgroundWorkerProcessTarget,
        now: Timestamp,
    ) -> (r: KeyValueState)
        ensures
            r.wf(),
            r.persistence == persistence,
            r.last_commit == now,
            r.background_worker_target == background_worker_target,
            r.spec_expirations() =~= Seq::<(Seq<char>, Timestamp)>::empty(),
            r.dirty_keys@ == Map::<Seq<char>, Option<EntryView>>::empty(),
            r.dirty_keys.spec_len() == 0,
            r.keys_being_persisted is None,
            r.last_persistence.nanos == 0,
            !r.shutdown_requested,
    {
        KeyValueState {
            persistence,
            last_commit: now,
            background_worker_target,
            expirations: Vec::new(),
            dirty_keys: KvMap::new(),
            keys_being_persisted: None,
            last_persistence: Timestamp::min_value(),
            shutdown_requested: false,
        }
    }

    /// The visible record for `key`, given the decoded on-disk record.
    pub fn get(&self, key: &String, disk_entry: Option<Entry>) -> (r: Option<Entry>)
        requires
            self.wf(),
        ensures
            r.deep_view() == self.spec_visible(disk_entry.deep_view(), key@),
    {
        match self.dirty_keys.get(key) {
            Some(value) => duplicate_entry_option(value),
            None => {
                match &self.keys_being_persisted {
                    Some(batch) => {
                        match batch.get(key) {
                            Some(value) => duplicate_entry_option(value),
                            None => disk_entry,
                        }
                    },
                    None => disk_entry,
                }
            },
        }
    }

    /// Records `value` for `key` as a dirty write.
    pub fn set(&mut self, key: String, value: Entry)
        requires
            old(self).wf(),
        ensures
            final(self).wf(),
            final(self).dirty_keys@ == old(self).dirty_keys@.insert(key@, Some(value@)),
            final(self).dirty_keys.spec_len() == if old(self).dirty_keys@.contains_key(key@) {
                old(self).dirty_keys.spec_len()
            } else {
                old(self).dirty_keys.spec_len() + 1
            },
            Self::spec_only_dirty_changed(*old(self), *final(self)),
    {
        let ghost v = value@;
        self.dirty_keys.insert(key, Some(value));
        proof {
            assert(Some(value).deep_view() == Some(v));
        }
    }

    /// Records `value` for `key` and returns the previously visible record.
    pub fn replace(&mut self, key: String, value: Entry, disk_entry: Option<Entry>) -> (r: Option<
        Entry,
    >)
        requires
            old(self).wf(),
        ensures
            final(self).wf(),
            r.deep_view() == old(self).spec_visible(disk_entry.deep_view(), key@),
            final(self).dirty_keys@ == old(self).dirty_keys@.insert(key@, Some(value@)),
            final(self).dirty_keys.spec_len() == if old(self).dirty_keys@.contains_key(key@) {
                old(self).dirty_keys.spec_len()
            } else {
                old(self).dirty_keys.spec_len() + 1
            },
            Self::spec_only_dirty_changed(*old(self), *final(self)),
    {
        let previous = self.get(&key, disk_entry);
        self.set(key, value);
        previous
    }

    /// Publishes the scheduler target computed from this state at `now`.
    pub fn update_background_worker_target(&mut self, now: Timestamp)
        requires
            old(self).wf(),
        ensures
            final(self).wf(),
            final(self).background_worker_target == old(self).spec_state_target(now),
            Self::spec_store_unchanged(*old(self), *final(self)),
            final(self).expirations@ == old(self).expirations@,
    {
        let key_expiration_target: Option<Timestamp> = if self.expirations.len() > 0 {
            Some(self.expirations[0].1)
        } else {
            None
        };
        let persisting = self.keys_being_persisted.is_some();
        let commit_target: Option<Timestamp> = if persisting {
            None
        } else {
            match self.persistence.duration_until_next_commit(
                self.dirty_keys.len(),
                now.since_or_zero(self.last_commit),
            ) {
                Some(d) => Some(now.saturating_add(d)),
                None => None,
            }
        };
        let target = match (commit_target, key_expiration_target) {
            (Some(c), Some(k)) => {
                if c.nanos <= now.nanos || k.nanos <= now.nanos {
                    BackgroundWorkerProcessTarget::Now
                } else if k.nanos <= c.nanos {
                    BackgroundWorkerProcessTarget::Timestamp(k)
                } else {
                    BackgroundWorkerProcessTarget::Timestamp(c)
                }
            },
            (Some(c), None) => {
                if c.nanos <= now.nanos {
                    BackgroundWorkerProcessTarget::Now
                } else {
                    BackgroundWorkerProcessTarget::Timestamp(c)
                }
            },
            (None, Some(k)) => {
                if k.nanos <= now.nanos {
                    BackgroundWorkerProcessTarget::Now
                } else {
                    BackgroundWorkerProcessTarget::Timestamp(k)
                }
            },
            (None, None) => BackgroundWorkerProcessTarget::Never,
        };
        self.background_worker_target = target;
    }

    /// Decides [`KeyValueState::spec_needs_commit`].
    pub fn needs_commit(&self, now: Timestamp) -> (r: bool)
        ensures
            r == self.spec_needs_commit(now),
    {
        if self.keys_being_persisted.is_some() {
            false
        } else {
            let since_last_commit = now.since_or_zero(self.last_commit);
            self.persistence.should_commit(self.dirty_keys.len(), since_last_commit)
        }
    }

    /// Moves the dirty keys into a fresh in-flight batch and hands the batch
    /// back, when there are dirty keys and no worker already runs; does
    /// nothing otherwise. A batch therefore only ever exists while
    /// `keys_being_persisted` was empty: never two workers at once.
    pub fn stage_dirty_keys(&mut self) -> (r: Option<KvMap<Option<Entry>>>)
        requires
            old(self).wf(),
        ensures
            final(self).wf(),
            if old(self).dirty_keys.spec_len() > 0 && old(self).keys_being_persisted is None {
                &&& match r {
                    Some(b) => {
                        &&& b@ == old(self).dirty_keys@
                        &&& b.wf()
                        &&& b.spec_len() == old(self).dirty_keys.spec_len()
                        &&& b.spec_keys() == old(self).dirty_keys.spec_keys()
                        &&& b.spec_values() == old(self).dirty_keys.spec_values()
                    },
                    None => false,
                }
                &&& match final(self).keys_being_persisted {
                    Some(m) => m@ == old(self).dirty_keys@ && m.wf(),
                    None => false,
                }
                &&& final(self).dirty_keys@ == Map::<Seq<char>, Option<EntryView>>::empty()
                &&& final(self).dirty_keys.spec_len() == 0
                &&& final(self).persistence == old(self).persistence
                &&& final(self).last_commit == old(self).last_commit
                &&& final(self).background_worker_target == old(self).background_worker_target
                &&& final(self).expirations@ == old(self).expirations@
                &&& final(self).last_persistence == old(self).last_persistence
                &&& final(self).shutdown_requested == old(self).shutdown_requested
            } else {
                &&& r is None
                &&& *final(self) == *old(self)
            },
    {
        if !self.dirty_keys.is_empty() && self.keys_being_persisted.is_none() {
            let mut taken: KvMap<Option<Entry>> = KvMap::new();
            core::mem::swap(&mut self.dirty_keys, &mut taken);
            let snapshot = taken.duplicate();
            self.keys_being_persisted = Some(snapshot);
            Some(taken)
        } else {
            None
        }
    }

    /// Stages the dirty keys and records `now` as the staging instant; the
    /// caller runs a persistence worker over the returned batch.
    pub fn commit_dirty_keys(&mut self, now: Timestamp) -> (r: Option<KvMap<Option<Entry>>>)
        requires
            old(self).wf(),
        ensures
            final(self).wf(),
            if old(self).dirty_keys.spec_len() > 0 && old(self).keys_being_persisted is None {
                &&& match r {
                    Some(b) => b@ == old(self).dirty_keys@ && b.wf() && b.spec_keys() == old(
                        self,
                    ).dirty_keys.spec_keys() && b.spec_values() == old(self).dirty_keys.spec_values(),
                    None => false,
                }
                &&& match final(self).keys_being_persisted {
                    Some(m) => m@ == old(self).dirty_keys@ && m.wf(),
                    None => false,
                }
                &&& final(self).dirty_keys@ == Map::<Seq<char>, Option<EntryView>>::empty()
                &&& final(self).dirty_keys.spec_len() == 0
                &&& final(self).last_commit == now
                &&& final(self).persistence == old(self).persistence
                &&& final(self).background_worker_target == old(self).background_worker_target
                &&& final(self).expirations@ == old(self).expirations@
                &&& final(self).last_persistence == old(self).last_persistence
                &&& final(self).shutdown_requested == old(self).shutdown_requested
            } else {
                &&& r is None
                &&& *final(self) == *old(self)
            },
    {
        match self.stage_dirty_keys() {
            Some(batch) => {
                self.last_commit = now;
                Some(batch)
            },
            None => None,
        }
    }

    /// Requests a shutdown. With no worker in flight, any dirty keys are
    /// staged and handed to the caller to persist; with a worker in flight,
    /// the drain is only marked pending and the running worker completes it.
    /// Either way the drain covers every dirty key present now and any that
    /// arrive before it finishes; only with nothing dirty and nothing in
    /// flight is there nothing to wait for.
    pub fn shutdown(&mut self, now: Timestamp) -> (r: ShutdownOutcome)
        requires
            old(self).wf(),
        ensures
            final(self).wf(),
            if old(self).keys_being_persisted is Some {
                &&& r is AwaitInFlight
                &&& final(self).shutdown_requested
                &&& final(self).persistence == old(self).persistence
                &&& final(self).last_commit == old(self).last_commit
                &&& final(self).background_worker_target == old(self).background_worker_target
                &&& final(self).expirations@ == old(self).expirations@
                &&& final(self).dirty_keys == old(self).dirty_keys
                &&& final(self).keys_being_persisted == old(self).keys_being_persisted
                &&& final(self).last_persistence == old(self).last_persistence
            } else if old(self).dirty_keys.spec_len() > 0 {
                &&& match r {
                    ShutdownOutcome::Drain(b) => b@ == old(self).dirty_keys@ && b.wf(),
                    _ => false,
                }
                &&& match final(self).keys_being_persisted {
                    Some(m) => m@ == old(self).dirty_keys@ && m.wf(),
                    None => false,
                }
                &&& final(self).dirty_keys@ == Map::<Seq<char>, Option<EntryView>>::empty()
                &&& final(self).dirty_keys.spec_len() == 0
                &&& final(self).last_commit == now
                &&& final(self).shutdown_requested
                &&& final(self).persistence == old(self).persistence
                &&& final(self).background_worker_target == old(self).background_worker_target
                &&& final(self).expirations@ == old(self).expirations@
                &&& final(self).last_persistence == old(self).last_persistence
            } else {
                &&& r is NothingToDrain
                &&& *final(self) == *old(self)
            },
    {
        if self.keys_being_persisted.is_none() {
            match self.commit_dirty_keys(now) {
                Some(batch) => {
                    self.shutdown_requested = true;
                    ShutdownOutcome::Drain(batch)
                },
                None => ShutdownOutcome::NothingToDrain,
            }
        } else {
            self.shutdown_requested = true;
            ShutdownOutcome::AwaitInFlight
        }
    }

    /// Gives `tree_key` the given expiration, or none: the queue keeps its
    /// ascending order, a new instant lands after existing equal instants,
    /// and when the head of the queue may have moved, the scheduler target is
    /// republished.
    #[verifier::rlimit(50)]
    pub fn update_key_expiration(
        &mut self,
        tree_key: String,
        expiration: Option<Timestamp>,
        now: Timestamp,
    )
        requires
            old(self).wf(),
        ensures
            final(self).wf(),
            exists|republished: bool|
                {
                    &&& #[trigger] spec_expiry_update(
                        old(self).spec_expirations(),
                        final(self).spec_expirations(),
                        tree_key@,
                        expiration,
                        republished,
                    )
                    &&& final(self).background_worker_target == if republished {
                        final(self).spec_state_target(now)
                    } else {
                        old(self).background_worker_target
                    }
                },
            Self::spec_store_unchanged(*old(self), *final(self)),
    {
        let ghost pre = self.spec_expirations();
        let mut changed_first = false;
        let ghost mut witness_idx: int = -1;
        let ghost mut witness_pos: int = 0;
        match expiration {
            Some(t) => {
                let found = find_key_index(&self.expirations, &tree_key);
                proof {
                    witness_idx = match found {
                        Some(i) => i as int,
                        None => -1,
                    };
                }
                if let Some(i) = found {
                    changed_first = i == 0;
                    self.expirations.remove(i);
                    proof {
                        assert(self.spec_expirations() =~= pre.remove(i as int));
                        lemma_expiry_remove_wf(pre, i as int);
                    }
                }
                let ghost mid = self.spec_expirations();
                proof {
                    if witness_idx == -1 {
                        assert forall|j: int| 0 <= j < mid.len() implies (#[trigger] mid[j]).0
                            != tree_key@ by {
                            assert(self.expirations@[j].0@ != tree_key@);
                        }
                    }
                }
                let pos = find_insert_position(&self.expirations, t);
                let m = self.expirations.len();
                changed_first = changed_first || pos == 0 || m == 0;
                proof {
                    witness_pos = pos as int;
                    lemma_expiry_insert_wf(mid, pos as int, tree_key@, t);
                }
                self.expirations.insert(pos, (tree_key, t));
                proof {
                    assert(self.spec_expirations() =~= mid.insert(pos as int, (tree_key@, t)));
                    assert(spec_expiry_set_witness(
                        pre,
                        self.spec_expirations(),
                        tree_key@,
                        t,
                        changed_first,
                        witness_idx,
                        witness_pos,
                    ));
                }
            },
            None => {
                let found = find_key_index(&self.expirations, &tree_key);
                if let Some(i) = found {
                    changed_first = i == 0;
                    self.expirations.remove(i);
                    proof {
                        assert(self.spec_expirations() =~= pre.remove(i as int));
                        lemma_expiry_remove_wf(pre, i as int);
                        assert(pre[i as int].0 == tree_key@);
                        assert(spec_expiry_clear(
                            pre,
                            self.spec_expirations(),
                            tree_key@,
                            changed_first,
                        ));
                    }
                } else {
                    proof {
                        assert forall|j: int| 0 <= j < pre.len() implies (#[trigger] pre[j]).0
                            != tree_key@ by {
                            assert(self.expirations@[j].0@ != tree_key@);
                        }
                        assert(spec_expiry_clear(
                            pre,
                            self.spec_expirations(),
                            tree_key@,
                            changed_first,
                        ));
                    }
                }
            },
        }
        let ghost post_exp = self.spec_expirations();
        let ghost mid_state = *self;
        proof {
            assert(spec_expiry_update(pre, post_exp, tree_key@, expiration, changed_first));
        }
        if changed_first {
            self.update_background_worker_target(now);
        }
        proof {
            assert(self.spec_expirations() == post_exp);
            assert(spec_expiry_update(
                pre,
                self.spec_expirations(),
                tree_key@,
                expiration,
                changed_first,
            ));
            if changed_first {
                assert(self.background_worker_target == mid_state.spec_state_target(now));
                assert(mid_state.spec_state_target(now) == self.spec_state_target(now));
            }
        }
    }

    /// Pops every queue entry whose instant has been reached and records a
    /// pending deletion for its key; afterwards the head, if any, is strictly
    /// in the future.
    pub fn remove_expired_keys(&mut self, now: Timestamp)
        requires
            old(self).wf(),
        ensures
            final(self).wf(),
            spec_expiry_sweep(*old(self), *final(self), now),
    {
        let ghost orig = self.spec_expirations();
        let ghost dirty0 = self.dirty_keys@;
        let ghost mut n: int = 0;
        while self.expirations.len() > 0 && self.expirations[0].1.nanos <= now.nanos
            invariant
                self.wf(),
                spec_expirations_wf(orig),
                0 <= n <= orig.len(),
                self.spec_expirations() == orig.skip(n),
                forall|i: int| 0 <= i < n ==> (#[trigger] orig[i]).1.nanos <= now.nanos,
                self.dirty_keys@ == spec_tombstoned(dirty0, orig, n),
                self.persistence == old(self).persistence,
                self.last_commit == old(self).last_commit,
                self.background_worker_target == old(self).background_worker_target,
                self.keys_being_persisted == old(self).keys_being_persisted,
                self.last_persistence == old(self).last_persistence,
                self.shutdown_requested == old(self).shutdown_requested,
            decreases self.expirations@.len(),
        {
            let ghost before = self.spec_expirations();
            let ghost vb = self.expirations@;
            let pair = self.expirations.remove(0);
            proof {
                assert(before.len() == vb.len());
                assert(n < orig.len());
                vstd::seq_lib::lemma_seq_skip_index(orig, n, 0);
                assert(before[0] == orig[n]);
                assert(self.spec_expirations().len() == orig.len() - n - 1);
                assert forall|i: int|
                    0 <= i < self.spec_expirations().len() implies self.spec_expirations()[i]
                    == orig[n + 1 + i] by {
                    assert(self.expirations@[i] == vb[i + 1]);
                    assert(self.spec_expirations()[i] == before[i + 1]);
                    vstd::seq_lib::lemma_seq_skip_index(orig, n, i + 1);
                }
                assert forall|i: int|
                    0 <= i < orig.skip(n + 1).len() implies #[trigger] orig.skip(n + 1)[i] == orig[
                    n + 1 + i
                ] by {
                    vstd::seq_lib::lemma_seq_skip_index(orig, n + 1, i);
                }
                assert(self.spec_expirations() =~= orig.skip(n + 1));
            }
            self.dirty_keys.insert(pair.0, None);
            proof {
                n = n + 1;
                assert(None::<Entry>.deep_view() == None::<EntryView>);
                assert(self.dirty_keys@ == spec_tombstoned(dirty0, orig, n));
                assert(self.spec_expirations().len() == orig.len() - n);
                assert forall|p: int, q: int|
                    0 <= p < q < self.spec_expirations().len() implies (
                #[trigger] self.spec_expirations()[p]).1.nanos <= (
                #[trigger] self.spec_expirations()[q]).1.nanos && self.spec_expirations()[p].0
                    != self.spec_expirations()[q].0 by {
                    assert(self.spec_expirations()[p] == orig[p + n]);
                    assert(self.spec_expirations()[q] == orig[q + n]);
                    assert(0 <= p + n < q + n < orig.len());
                    assert(orig[p + n].1.nanos <= orig[q + n].1.nanos && orig[p + n].0 != orig[q + n].0);
                }
            }
        }
        proof {
            assert(0 <= n <= orig.len());
            if n < orig.len() {
                assert(orig[n] == self.spec_expirations()[0]);
            }
        }
    }

    /// Deletes `key`: drops it from the expiration queue, records a pending
    /// deletion, and returns the previously visible record.
    pub fn remove(&mut self, key: String, disk_entry: Option<Entry>, now: Timestamp) -> (r: Option<
        Entry,
    >)
        requires
            old(self).wf(),
        ensures
            final(self).wf(),
            r.deep_view() == old(self).spec_visible(disk_entry.deep_view(), key@),
            final(self).dirty_keys@ == old(self).dirty_keys@.insert(key@, None),
            exists|republished: bool|
                {
                    &&& #[trigger] spec_expiry_clear(
                        old(self).spec_expirations(),
                        final(self).spec_expirations(),
                        key@,
                        republished,
                    )
                    &&& final(self).background_worker_target == if republished {
                        spec_computed_target(
                            old(self).persistence@,
                            old(self).keys_being_persisted is Some,
                            old(self).dirty_keys.spec_len() as usize,
                            old(self).last_commit,
                            spec_head_expiration(final(self).spec_expirations()),
                            now,
                        )
                    } else {
                        old(self).background_worker_target
                    }
                },
            final(self).persistence == old(self).persistence,
            final(self).last_commit == old(self).last_commit,
            final(self).keys_being_persisted == old(self).keys_being_persisted,
            final(self).last_persistence == old(self).last_persistence,
            final(self).shutdown_requested == old(self).shutdown_requested,
    {
        self.update_key_expiration(key.clone(), None, now);
        let previous = self.get(&key, disk_entry);
        let ghost mid = *self;
        self.dirty_keys.insert(key, None);
        proof {
            assert(None::<Entry>.deep_view() == None::<EntryView>);
            assert(mid.spec_state_target(now) == spec_computed_target(
                old(self).persistence@,
                old(self).keys_being_persisted is Some,
                old(self).dirty_keys.spec_len() as usize,
                old(self).last_commit,
                spec_head_expiration(final(self).spec_expirations()),
                now,
            ));
        }
        previous
    }

    /// The bookkeeping a persistence worker performs under the lock once its
    /// batch is durable: publish the persistence instant, clear the in-flight
    /// slot, republish the scheduler target, and — during a drain — either
    /// stage the next batch or report the drain complete. The drain only
    /// completes with no dirty key left and no batch in flight.
    pub fn finish_persistence(&mut self, now: Timestamp) -> (r: PersistenceFollowUp)
        requires
            old(self).wf(),
        ensures
            final(self).wf(),
            final(self).last_persistence == now,
            final(self).persistence == old(self).persistence,
            final(self).last_commit == old(self).last_commit,
            final(self).expirations@ == old(self).expirations@,
            final(self).background_worker_target == spec_computed_target(
                old(self).persistence@,
                false,
                old(self).dirty_keys.spec_len() as usize,
                old(self).last_commit,
                spec_head_expiration(old(self).spec_expirations()),
                now,
            ),
            match r {
                PersistenceFollowUp::Idle => {
                    &&& !old(self).shutdown_requested
                    &&& !final(self).shutdown_requested
                    &&& final(self).keys_being_persisted is None
                    &&& final(self).dirty_keys == old(self).dirty_keys
                },
                PersistenceFollowUp::Continue(b) => {
                    &&& old(self).shutdown_requested
                    &&& final(self).shutdown_requested
                    &&& old(self).dirty_keys.spec_len() > 0
                    &&& b@ == old(self).dirty_keys@
                    &&& b.wf()
                    &&& b.spec_keys() == old(self).dirty_keys.spec_keys()
                    &&& b.spec_values() == old(self).dirty_keys.spec_values()
                    &&& match final(self).keys_being_persisted {
                        Some(m) => m@ == old(self).dirty_keys@ && m.wf(),
                        None => false,
                    }
                    &&& final(self).dirty_keys.spec_len() == 0
                },
                PersistenceFollowUp::ShutdownComplete => {
                    &&& old(self).shutdown_requested
                    &&& !final(self).shutdown_requested
                    &&& old(self).dirty_keys.spec_len() == 0
                    &&& final(self).dirty_keys == old(self).dirty_keys
                    &&& final(self).dirty_keys.spec_len() == 0
                    &&& final(self).keys_being_persisted is None
                },
            },
    {
        self.last_persistence = now;
        self.keys_being_persisted = None;
        self.update_background_worker_target(now);
        if self.shutdown_requested {
            match self.stage_dirty_keys() {
                Some(batch) => PersistenceFollowUp::Continue(batch),
                None => {
                    self.shutdown_requested = false;
                    PersistenceFollowUp::ShutdownComplete
                },
            }
        } else {
            PersistenceFollowUp::Idle
        }
    }
}

} // verus!
