//! The store's laws: what the layered view guarantees across operations,
//! expiration, and persistence.
//!
//! Each proof function here states one law over the transition predicates of
//! the operation engine and the persistence scheduler; together they say
//! that the three layers behave as one linearizable store whose durable
//! state converges to the fold of the operations performed on it.

use vstd::prelude::*;

use crate::keys::spec_full_key;
use crate::kvmap::KvMap;
use crate::ops::{
    spec_check_passes, spec_command_effect, spec_numeric_effect, spec_operation_tail,
    spec_result_view, spec_set_effect, spec_set_expiration, Command, KeyOperation, KeyStatus,
    NumericOperationResult, Output, OutputView, PerformOutcome, SetCommand,
};
use crate::state::{
    spec_expiry_sweep, spec_tombstoned, KeyValueState, PersistenceFollowUp,
};
use crate::time::Timestamp;
use crate::value::{Entry, EntryView, KvError, Numeric};

verus! {

/// The durable tree's content after a staged batch is applied: staged
/// records land, staged deletions drop their keys, everything else stays.
pub open spec fn spec_apply_batch(
    disk: Map<Seq<char>, EntryView>,
    batch: Map<Seq<char>, Option<EntryView>>,
) -> Map<Seq<char>, EntryView> {
    Map::new(
        |k: Seq<char>|
            if batch.contains_key(k) {
                batch[k] is Some
            } else {
                disk.contains_key(k)
            },
        |k: Seq<char>|
            if batch.contains_key(k) {
                batch[k]->Some_0
            } else {
                disk[k]
            },
    )
}

/// The value visible for `key` when the whole durable tree is `disk`.
pub open spec fn spec_visible_on(
    s: KeyValueState,
    disk: Map<Seq<char>, EntryView>,
    key: Seq<char>,
) -> Option<EntryView> {
    s.spec_visible(
        if disk.contains_key(key) {
            Some(disk[key])
        } else {
            None
        },
        key,
    )
}

/// Law: immediately after a set that proceeded — a valid value whose check
/// passed — the set value is what the store makes visible for that key,
/// whatever the durable tree holds.
pub proof fn lemma_set_then_get(
    pre: KeyValueState,
    post: KeyValueState,
    ns: Option<Seq<char>>,
    key: Seq<char>,
    set: SetCommand,
    now: crate::time::Timestamp,
    disk: Option<EntryView>,
    result: Result<crate::ops::OutputView, KvError>,
    any_disk: Option<EntryView>,
)
    requires
        spec_set_effect(pre, post, ns, key, set, now, disk, result),
        set.value.spec_is_valid(),
        spec_check_passes(set.check, pre.spec_visible(disk, spec_full_key(ns, key))),
    ensures
        post.spec_visible(any_disk, spec_full_key(ns, key)) == Some(
            EntryView {
                value: set.value@,
                expiration: spec_set_expiration(
                    set.keep_existing_expiration,
                    set.expiration,
                    pre.spec_visible(disk, spec_full_key(ns, key)),
                ),
                last_updated: now,
            },
        ),
{
}

/// Law: immediately after a key is deleted, nothing is visible for it,
/// whatever the durable tree holds.
pub proof fn lemma_delete_then_get(
    pre: KeyValueState,
    post: KeyValueState,
    fk: Seq<char>,
    now: crate::time::Timestamp,
    any_disk: Option<EntryView>,
)
    requires
        crate::ops::spec_delete_state_effect(pre, post, fk, now),
    ensures
        post.spec_visible(any_disk, fk) is None,
{
}

/// Law: a command addressed to one key leaves every other key's visible
/// value untouched, so a read still reflects that key's most recent write.
pub proof fn lemma_command_preserves_other_keys(
    pre: KeyValueState,
    post: KeyValueState,
    op: KeyOperation,
    now: crate::time::Timestamp,
    disk: Option<EntryView>,
    result: Result<Output, KvError>,
    other: Seq<char>,
    other_disk: Option<EntryView>,
)
    requires
        spec_command_effect(pre, post, op, now, disk, result),
        other != spec_full_key(
            match op.namespace {
                Some(s) => Some(s@),
                None => None,
            },
            op.key@,
        ),
    ensures
        post.spec_visible(other_disk, other) == pre.spec_visible(other_disk, other),
{
}

/// Law: the expired-key sweep leaves a key's visible value untouched unless
/// that key was due in the expiration queue.
pub proof fn lemma_sweep_preserves_unexpired(
    pre: KeyValueState,
    post: KeyValueState,
    now: crate::time::Timestamp,
    key: Seq<char>,
    disk: Option<EntryView>,
)
    requires
        spec_expiry_sweep(pre, post, now),
        forall|i: int|
            0 <= i < pre.spec_expirations().len() ==> (#[trigger] pre.spec_expirations()[i]).0
                != key || pre.spec_expirations()[i].1.nanos > now.nanos,
    ensures
        post.spec_visible(disk, key) == pre.spec_visible(disk, key),
{
    let n = choose|n: int|
        {
            &&& 0 <= n <= pre.spec_expirations().len()
            &&& forall|i: int|
                0 <= i < n ==> (#[trigger] pre.spec_expirations()[i]).1.nanos <= now.nanos
            &&& (n < pre.spec_expirations().len() ==> pre.spec_expirations()[n].1.nanos > now.nanos)
            &&& post.spec_expirations() == pre.spec_expirations().skip(n)
            &&& post.dirty_keys@ == #[trigger] spec_tombstoned(
                pre.dirty_keys@,
                pre.spec_expirations(),
                n,
            )
        };
    lemma_tombstoned_other_keys(pre.dirty_keys@, pre.spec_expirations(), n, key, now);
}

/// Tombstoning queue entries never touches a key that is not among them.
proof fn lemma_tombstoned_other_keys(
    dirty: Map<Seq<char>, Option<EntryView>>,
    expirations: Seq<(Seq<char>, crate::time::Timestamp)>,
    n: int,
    key: Seq<char>,
    now: crate::time::Timestamp,
)
    requires
        n <= expirations.len(),
        forall|i: int|
            0 <= i < n ==> (#[trigger] expirations[i]).0 != key || expirations[i].1.nanos
                > now.nanos,
        forall|i: int| 0 <= i < n ==> (#[trigger] expirations[i]).1.nanos <= now.nanos,
    ensures
        spec_tombstoned(dirty, expirations, n).contains_key(key) == dirty.contains_key(key),
        spec_tombstoned(dirty, expirations, n).contains_key(key) ==> spec_tombstoned(
            dirty,
            expirations,
            n,
        )[key] == dirty[key],
    decreases n,
{
    if n > 0 {
        lemma_tombstoned_other_keys(dirty, expirations, n - 1, key, now);
        assert(expirations[n - 1].0 != key);
    }
}

/// Law: staging the dirty keys into an in-flight batch changes nothing a
/// reader can see — the batch shadows the tree exactly as the dirty layer
/// did.
pub proof fn lemma_stage_preserves_visible(
    pre: KeyValueState,
    post: KeyValueState,
    key: Seq<char>,
    disk: Option<EntryView>,
)
    requires
        pre.keys_being_persisted is None,
        match post.keys_being_persisted {
            Some(m) => m@ == pre.dirty_keys@,
            None => false,
        },
        post.dirty_keys@ == Map::<Seq<char>, Option<EntryView>>::empty(),
    ensures
        post.spec_visible(disk, key) == pre.spec_visible(disk, key),
{
    assert(!post.dirty_keys@.contains_key(key));
}

/// Law: when a persistence pass completes, applying the batch to the durable
/// tree and dropping the in-flight layer together change nothing a reader
/// can see — the store's answer is the same whether the batch sat in memory
/// or on disk.
pub proof fn lemma_persistence_preserves_visible(
    pre: KeyValueState,
    post: KeyValueState,
    disk: Map<Seq<char>, EntryView>,
    key: Seq<char>,
)
    requires
        pre.keys_being_persisted is Some,
        post.dirty_keys@ == pre.dirty_keys@,
        post.keys_being_persisted is None,
    ensures
        spec_visible_on(post, spec_apply_batch(disk, pre.keys_being_persisted->Some_0@), key)
            == spec_visible_on(pre, disk, key),
{
    let batch = pre.keys_being_persisted->Some_0@;
    let merged = spec_apply_batch(disk, batch);
    if !pre.dirty_keys@.contains_key(key) {
        if batch.contains_key(key) {
            assert(merged.contains_key(key) == (batch[key] is Some));
        } else {
            assert(merged.contains_key(key) == disk.contains_key(key));
        }
    }
}

/// Law: with no dirty key and no batch in flight, what the store makes
/// visible is exactly what the durable tree holds — the disk is the fold of
/// everything performed.
pub proof fn lemma_quiescent_visible_is_disk(
    s: KeyValueState,
    disk: Map<Seq<char>, EntryView>,
    key: Seq<char>,
)
    requires
        s.dirty_keys@ == Map::<Seq<char>, Option<EntryView>>::empty(),
        s.keys_being_persisted is None,
    ensures
        spec_visible_on(s, disk, key) == if disk.contains_key(key) {
            Some(disk[key])
        } else {
            None::<EntryView>
        },
{
}

/// Law: once a key stands in the expiration queue with an instant that has
/// been reached, the sweep at the head of the next operation deletes it:
/// afterwards it is tombstoned and no longer queued.
pub proof fn lemma_due_key_swept(
    pre: KeyValueState,
    post: KeyValueState,
    now: crate::time::Timestamp,
    key: Seq<char>,
    p: int,
)
    requires
        pre.wf(),
        spec_expiry_sweep(pre, post, now),
        0 <= p < pre.spec_expirations().len(),
        pre.spec_expirations()[p].0 == key,
        pre.spec_expirations()[p].1.nanos <= now.nanos,
    ensures
        post.dirty_keys@.contains_key(key),
        post.dirty_keys@[key] is None,
        forall|i: int|
            0 <= i < post.spec_expirations().len() ==> (#[trigger] post.spec_expirations()[i]).0
                != key,
{
    let exps = pre.spec_expirations();
    let n = choose|n: int|
        {
            &&& 0 <= n <= exps.len()
            &&& forall|i: int| 0 <= i < n ==> (#[trigger] exps[i]).1.nanos <= now.nanos
            &&& (n < exps.len() ==> exps[n].1.nanos > now.nanos)
            &&& post.spec_expirations() == exps.skip(n)
            &&& post.dirty_keys@ == #[trigger] spec_tombstoned(pre.dirty_keys@, exps, n)
        };
    if n <= p {
        assert(exps[n].1.nanos <= exps[p].1.nanos || n == p);
        assert(false);
    }
    lemma_tombstoned_contains(pre.dirty_keys@, exps, n, p);
    assert forall|i: int|
        0 <= i < post.spec_expirations().len() implies (#[trigger] post.spec_expirations()[i]).0
        != key by {
        vstd::seq_lib::lemma_seq_skip_index(exps, n, i);
        assert(post.spec_expirations()[i] == exps[i + n]);
        assert(exps[p].1.nanos <= exps[i + n].1.nanos && exps[p].0 != exps[i + n].0);
    }
}

/// After tombstoning a prefix that reaches past position `p`, whose keys are
/// distinct, the key at `p` is tombstoned.
proof fn lemma_tombstoned_contains(
    dirty: Map<Seq<char>, Option<EntryView>>,
    expirations: Seq<(Seq<char>, crate::time::Timestamp)>,
    n: int,
    p: int,
)
    requires
        0 <= p < n <= expirations.len(),
        forall|i: int, j: int|
            0 <= i < j < expirations.len() ==> (#[trigger] expirations[i]).0 != (
            #[trigger] expirations[j]).0,
    ensures
        spec_tombstoned(dirty, expirations, n).contains_key(expirations[p].0),
        spec_tombstoned(dirty, expirations, n)[expirations[p].0] is None,
    decreases n,
{
    if p == n - 1 {
    } else {
        lemma_tombstoned_contains(dirty, expirations, n - 1, p);
        assert(expirations[n - 1].0 != expirations[p].0);
    }
}

/// Law: while a batch is in flight, a finished operation never stages a
/// second one — at most one persistence worker exists at any time.
pub proof fn lemma_no_second_worker(
    pre: KeyValueState,
    post: KeyValueState,
    ok: bool,
    staged: Option<crate::kvmap::KvMap<Option<Entry>>>,
    now: crate::time::Timestamp,
)
    requires
        spec_operation_tail(pre, post, ok, staged, now),
        pre.keys_being_persisted is Some,
    ensures
        staged is None,
        post.keys_being_persisted == pre.keys_being_persisted,
{
}

/// Law: the expiration queue is sorted ascending by instant at every
/// quiescent point — it is part of the store's invariant, which every
/// operation preserves.
pub proof fn lemma_expiration_queue_sorted(s: KeyValueState)
    requires
        s.wf(),
    ensures
        forall|i: int, j: int|
            0 <= i < j < s.spec_expirations().len() ==> (#[trigger] s.spec_expirations()[
                i
            ]).1.nanos <= (#[trigger] s.spec_expirations()[j]).1.nanos,
{
}


/// Law: with no batch in flight, persisting the dirty layer writes down
/// exactly the visible state — the durable tree after the pass holds, key by
/// key, what a reader saw before it.
pub proof fn lemma_persisted_tree_carries_visible(
    s: KeyValueState,
    disk: Map<Seq<char>, EntryView>,
    key: Seq<char>,
)
    requires
        s.keys_being_persisted is None,
    ensures
        ({
            let merged = spec_apply_batch(disk, s.dirty_keys@);
            (if merged.contains_key(key) {
                Some(merged[key])
            } else {
                None::<EntryView>
            }) == spec_visible_on(s, disk, key)
        }),
{
}

/// Law: the staging and republishing step after a finished command never
/// changes any key's visible value.
pub proof fn lemma_tail_preserves_visible(
    pre: KeyValueState,
    post: KeyValueState,
    ok: bool,
    staged: Option<KvMap<Option<Entry>>>,
    now: Timestamp,
    key: Seq<char>,
    disk: Option<EntryView>,
)
    requires
        spec_operation_tail(pre, post, ok, staged, now),
    ensures
        post.spec_visible(disk, key) == pre.spec_visible(disk, key),
{
    if ok && pre.spec_needs_commit(now) && pre.dirty_keys.spec_len() > 0 {
        lemma_stage_preserves_visible(pre, post, key, disk);
    }
}

/// A numeric command, finished or waiting on its floating-point step, leaves
/// every other key's visible value untouched.
proof fn lemma_numeric_outcome_preserves_other(
    pre: KeyValueState,
    post: KeyValueState,
    ns: Option<Seq<char>>,
    key: Seq<char>,
    amount: Numeric,
    saturating: bool,
    subtract: bool,
    now: Timestamp,
    disk: Option<EntryView>,
    outcome: NumericOperationResult,
    other: Seq<char>,
    other_disk: Option<EntryView>,
)
    requires
        spec_numeric_effect(pre, post, ns, key, amount, saturating, subtract, now, disk, outcome),
        other != spec_full_key(ns, key),
    ensures
        post.spec_visible(other_disk, other) == pre.spec_visible(other_disk, other),
{
}

/// One step of the store's life, as the run-level laws see it: an operation
/// performed, a background wake, or a persistence worker completing its
/// batch.
pub enum StoreStep {
    /// An operation ran at this instant and yielded this outcome; the decoded
    /// on-disk record it consulted is the durable tree's entry for its key.
    Perform { op: KeyOperation, now: Timestamp, outcome: PerformOutcome },
    /// The background worker woke at this instant and acted.
    WorkerAct { now: Timestamp, staged: Option<KvMap<Option<Entry>>> },
    /// A persistence worker finished: its batch reached the durable tree and
    /// the end-of-batch bookkeeping ran at this instant.
    Completion { now: Timestamp, follow_up: PersistenceFollowUp },
}

/// The durable tree's entry for a key, as the decoded record an operation is
/// handed.
pub open spec fn spec_disk_lookup(
    disk: Map<Seq<char>, EntryView>,
    key: Seq<char>,
) -> Option<EntryView> {
    if disk.contains_key(key) {
        Some(disk[key])
    } else {
        None
    }
}

/// The flat key a step's operation addresses.
pub open spec fn spec_step_key(op: KeyOperation) -> Seq<char> {
    spec_full_key(
        match op.namespace {
            Some(s) => Some(s@),
            None => None,
        },
        op.key@,
    )
}

/// How one step takes the store and the durable tree from one pair to the
/// next: an operation's transition over the tree's own record, a wake's sweep
/// and staging, or a batch applied to the tree with the worker's bookkeeping.
pub open spec fn spec_history_step(
    pre: KeyValueState,
    pre_disk: Map<Seq<char>, EntryView>,
    post: KeyValueState,
    post_disk: Map<Seq<char>, EntryView>,
    step: StoreStep,
) -> bool {
    &&& pre.wf()
    &&& post.wf()
    &&& match step {
        StoreStep::Perform { op, now, outcome } => {
            &&& post_disk == pre_disk
            &&& KeyValueState::spec_perform_transition(
                pre,
                post,
                op,
                now,
                spec_disk_lookup(pre_disk, spec_step_key(op)),
                outcome,
            )
        },
        StoreStep::WorkerAct { now, staged } => {
            &&& post_disk == pre_disk
            &&& exists|mid: KeyValueState|
                {
                    &&& #[trigger] spec_expiry_sweep(pre, mid, now)
                    &&& mid.wf()
                    &&& spec_operation_tail(mid, post, true, staged, now)
                }
        },
        StoreStep::Completion { now, follow_up } => {
            &&& pre.keys_being_persisted is Some
            &&& post_disk == spec_apply_batch(pre_disk, pre.keys_being_persisted->Some_0@)
            &&& post.expirations@ == pre.expirations@
            &&& match follow_up {
                PersistenceFollowUp::Idle => {
                    &&& post.dirty_keys == pre.dirty_keys
                    &&& post.keys_being_persisted is None
                },
                PersistenceFollowUp::Continue(b) => {
                    &&& match post.keys_being_persisted {
                        Some(m) => m@ == pre.dirty_keys@,
                        None => false,
                    }
                    &&& post.dirty_keys@ == Map::<Seq<char>, Option<EntryView>>::empty()
                },
                PersistenceFollowUp::ShutdownComplete => {
                    &&& pre.dirty_keys.spec_len() == 0
                    &&& post.dirty_keys == pre.dirty_keys
                    &&& post.keys_being_persisted is None
                },
            }
        },
    }
}

/// A run of the store: each step relates one state and tree to the next.
pub open spec fn spec_history(
    states: Seq<KeyValueState>,
    disks: Seq<Map<Seq<char>, EntryView>>,
    steps: Seq<StoreStep>,
) -> bool {
    &&& states.len() == steps.len() + 1
    &&& disks.len() == steps.len() + 1
    &&& forall|m: int|
        0 <= m < steps.len() ==> #[trigger] spec_history_step(
            states[m],
            disks[m],
            states[m + 1],
            disks[m + 1],
            steps[m],
        )
}

/// True when the step is an operation addressed to `key`.
pub open spec fn spec_step_writes_key(step: StoreStep, key: Seq<char>) -> bool {
    match step {
        StoreStep::Perform { op, .. } => spec_step_key(op) == key,
        _ => false,
    }
}

/// True when the step's expired-key sweep could pop `key`: the key is queued
/// with an instant the step's clock has reached.
pub open spec fn spec_step_may_expire_key(
    pre: KeyValueState,
    step: StoreStep,
    key: Seq<char>,
) -> bool {
    match step {
        StoreStep::Perform { now, .. } => exists|p: int|
            0 <= p < pre.spec_expirations().len() && (#[trigger] pre.spec_expirations()[p]).0
                == key && pre.spec_expirations()[p].1.nanos <= now.nanos,
        StoreStep::WorkerAct { now, .. } => exists|p: int|
            0 <= p < pre.spec_expirations().len() && (#[trigger] pre.spec_expirations()[p]).0
                == key && pre.spec_expirations()[p].1.nanos <= now.nanos,
        StoreStep::Completion { .. } => false,
    }
}

/// A step that is not a write to `key` and cannot expire it leaves the key's
/// visible value untouched — also across a persistence completion, where the
/// batch moves to the tree it was shadowing.
pub proof fn lemma_step_preserves_other_visible(
    pre: KeyValueState,
    pre_disk: Map<Seq<char>, EntryView>,
    post: KeyValueState,
    post_disk: Map<Seq<char>, EntryView>,
    step: StoreStep,
    key: Seq<char>,
)
    requires
        spec_history_step(pre, pre_disk, post, post_disk, step),
        !spec_step_writes_key(step, key),
        !spec_step_may_expire_key(pre, step, key),
    ensures
        spec_visible_on(post, post_disk, key) == spec_visible_on(pre, pre_disk, key),
{
    let kdisk = spec_disk_lookup(pre_disk, key);
    match step {
        StoreStep::Perform { op, now, outcome } => {
            let fk = spec_step_key(op);
            let op_disk = spec_disk_lookup(pre_disk, fk);
            let mid = choose|mid: KeyValueState|
                {
                    &&& #[trigger] spec_expiry_sweep(pre, mid, now)
                    &&& mid.wf()
                    &&& match outcome {
                        PerformOutcome::NeedsFloat(req) => {
                            match op.command {
                                Command::Increment { amount, saturating } => spec_numeric_effect(
                                    mid,
                                    post,
                                    match op.namespace {
                                        Some(s) => Some(s@),
                                        None => None,
                                    },
                                    op.key@,
                                    amount,
                                    saturating,
                                    false,
                                    now,
                                    op_disk,
                                    NumericOperationResult::NeedsFloat(req),
                                ),
                                Command::Decrement { amount, saturating } => spec_numeric_effect(
                                    mid,
                                    post,
                                    match op.namespace {
                                        Some(s) => Some(s@),
                                        None => None,
                                    },
                                    op.key@,
                                    amount,
                                    saturating,
                                    true,
                                    now,
                                    op_disk,
                                    NumericOperationResult::NeedsFloat(req),
                                ),
                                _ => false,
                            }
                        },
                        PerformOutcome::Done(result, staged) => exists|mid2: KeyValueState|
                            {
                                &&& #[trigger] spec_command_effect(
                                    mid,
                                    mid2,
                                    op,
                                    now,
                                    op_disk,
                                    result,
                                )
                                &&& mid2.wf()
                                &&& spec_operation_tail(mid2, post, result is Ok, staged, now)
                            },
                    }
                };
            assert forall|p: int|
                0 <= p < pre.spec_expirations().len() implies (#[trigger] pre.spec_expirations()[
                p
            ]).0 != key || pre.spec_expirations()[p].1.nanos > now.nanos by {
                if pre.spec_expirations()[p].0 == key
                    && pre.spec_expirations()[p].1.nanos <= now.nanos {
                    assert(spec_step_may_expire_key(pre, step, key));
                }
            }
            lemma_sweep_preserves_unexpired(pre, mid, now, key, kdisk);
            match outcome {
                PerformOutcome::NeedsFloat(req) => {
                    match op.command {
                        Command::Increment { amount, saturating } => {
                            lemma_numeric_outcome_preserves_other(
                                mid,
                                post,
                                match op.namespace {
                                    Some(s) => Some(s@),
                                    None => None,
                                },
                                op.key@,
                                amount,
                                saturating,
                                false,
                                now,
                                op_disk,
                                NumericOperationResult::NeedsFloat(req),
                                key,
                                kdisk,
                            );
                        },
                        Command::Decrement { amount, saturating } => {
                            lemma_numeric_outcome_preserves_other(
                                mid,
                                post,
                                match op.namespace {
                                    Some(s) => Some(s@),
                                    None => None,
                                },
                                op.key@,
                                amount,
                                saturating,
                                true,
                                now,
                                op_disk,
                                NumericOperationResult::NeedsFloat(req),
                                key,
                                kdisk,
                            );
                        },
                        _ => {
                            assert(false);
                        },
                    }
                },
                PerformOutcome::Done(result, staged) => {
                    let mid2 = choose|mid2: KeyValueState|
                        {
                            &&& #[trigger] spec_command_effect(mid, mid2, op, now, op_disk, result)
                            &&& mid2.wf()
                            &&& spec_operation_tail(mid2, post, result is Ok, staged, now)
                        };
                    lemma_command_preserves_other_keys(
                        mid,
                        mid2,
                        op,
                        now,
                        op_disk,
                        result,
                        key,
                        kdisk,
                    );
                    lemma_tail_preserves_visible(
                        mid2,
                        post,
                        result is Ok,
                        staged,
                        now,
                        key,
                        kdisk,
                    );
                },
            }
        },
        StoreStep::WorkerAct { now, staged } => {
            let mid = choose|mid: KeyValueState|
                {
                    &&& #[trigger] spec_expiry_sweep(pre, mid, now)
                    &&& mid.wf()
                    &&& spec_operation_tail(mid, post, true, staged, now)
                };
            assert forall|p: int|
                0 <= p < pre.spec_expirations().len() implies (#[trigger] pre.spec_expirations()[
                p
            ]).0 != key || pre.spec_expirations()[p].1.nanos > now.nanos by {
                if pre.spec_expirations()[p].0 == key
                    && pre.spec_expirations()[p].1.nanos <= now.nanos {
                    assert(spec_step_may_expire_key(pre, step, key));
                }
            }
            lemma_sweep_preserves_unexpired(pre, mid, now, key, kdisk);
            lemma_tail_preserves_visible(mid, post, true, staged, now, key, kdisk);
        },
        StoreStep::Completion { now, follow_up } => {
            let batch = pre.keys_being_persisted->Some_0@;
            let merged = spec_apply_batch(pre_disk, batch);
            match follow_up {
                PersistenceFollowUp::Idle => {
                    if !pre.dirty_keys@.contains_key(key) {
                        if batch.contains_key(key) {
                            assert(merged.contains_key(key) == (batch[key] is Some));
                        } else {
                            assert(merged.contains_key(key) == pre_disk.contains_key(key));
                        }
                    }
                },
                PersistenceFollowUp::Continue(b) => {
                    if !pre.dirty_keys@.contains_key(key) {
                        if batch.contains_key(key) {
                            assert(merged.contains_key(key) == (batch[key] is Some));
                        } else {
                            assert(merged.contains_key(key) == pre_disk.contains_key(key));
                        }
                    }
                },
                PersistenceFollowUp::ShutdownComplete => {
                    pre.dirty_keys.lemma_keys();
                    assert(!pre.dirty_keys@.contains_key(key));
                    if batch.contains_key(key) {
                        assert(merged.contains_key(key) == (batch[key] is Some));
                    } else {
                        assert(merged.contains_key(key) == pre_disk.contains_key(key));
                    }
                },
            }
        },
    }
}

/// Across a stretch of a run in which no step writes a key or can expire it,
/// the key's visible value never moves.
pub proof fn lemma_visible_stable_between(
    states: Seq<KeyValueState>,
    disks: Seq<Map<Seq<char>, EntryView>>,
    steps: Seq<StoreStep>,
    key: Seq<char>,
    from: int,
    to: int,
)
    requires
        spec_history(states, disks, steps),
        0 <= from <= to < states.len(),
        forall|m: int|
            from <= m < to ==> !spec_step_writes_key(#[trigger] steps[m], key)
                && !spec_step_may_expire_key(states[m], steps[m], key),
    ensures
        spec_visible_on(states[to], disks[to], key) == spec_visible_on(
            states[from],
            disks[from],
            key,
        ),
    decreases to - from,
{
    if from < to {
        lemma_visible_stable_between(states, disks, steps, key, from, to - 1);
        let m = to - 1;
        assert(spec_history_step(states[m], disks[m], states[m + 1], disks[m + 1], steps[m]));
        lemma_step_preserves_other_visible(
            states[m],
            disks[m],
            states[m + 1],
            disks[m + 1],
            steps[m],
            key,
        );
        assert(states[m + 1] == states[to]);
        assert(disks[m + 1] == disks[to]);
    }
}

/// Law: reads follow writes across any run. A set that proceeded fixes its
/// key's visible value to the written record, and every later read of the
/// key returns it until some step writes the key again or expires it —
/// whichever of the three layers happens to hold it.
pub proof fn lemma_reads_follow_writes(
    states: Seq<KeyValueState>,
    disks: Seq<Map<Seq<char>, EntryView>>,
    steps: Seq<StoreStep>,
    i: int,
    j: int,
    op: KeyOperation,
    when: Timestamp,
    outcome: PerformOutcome,
    set: SetCommand,
)
    requires
        spec_history(states, disks, steps),
        0 <= i < j < states.len(),
        steps[i] == (StoreStep::Perform { op, now: when, outcome }),
        op.command == Command::SetValue(set),
        set.value.spec_is_valid(),
        !set.keep_existing_expiration,
        (outcome matches PerformOutcome::Done(result, staged) && result is Ok
            && spec_result_view(result) != Ok::<OutputView, KvError>(
            OutputView::Status(KeyStatus::NotChanged),
        )),
        forall|m: int|
            i < m < j ==> !spec_step_writes_key(#[trigger] steps[m], spec_step_key(op))
                && !spec_step_may_expire_key(states[m], steps[m], spec_step_key(op)),
    ensures
        spec_visible_on(states[j], disks[j], spec_step_key(op)) == Some(
            EntryView { value: set.value@, expiration: set.expiration, last_updated: when },
        ),
{
    let fk = spec_step_key(op);
    let ns = match op.namespace {
        Some(s) => Some(s@),
        None => None,
    };
    assert(spec_history_step(states[i], disks[i], states[i + 1], disks[i + 1], steps[i]));
    let pre = states[i];
    let post = states[i + 1];
    let op_disk = spec_disk_lookup(disks[i], fk);
    let result = outcome->Done_0;
    let staged = outcome->Done_1;
    let mid = choose|mid: KeyValueState|
        {
            &&& #[trigger] spec_expiry_sweep(pre, mid, when)
            &&& mid.wf()
            &&& exists|mid2: KeyValueState|
                {
                    &&& #[trigger] spec_command_effect(mid, mid2, op, when, op_disk, result)
                    &&& mid2.wf()
                    &&& spec_operation_tail(mid2, post, result is Ok, staged, when)
                }
        };
    let mid2 = choose|mid2: KeyValueState|
        {
            &&& #[trigger] spec_command_effect(mid, mid2, op, when, op_disk, result)
            &&& mid2.wf()
            &&& spec_operation_tail(mid2, post, result is Ok, staged, when)
        };
    assert(spec_set_effect(mid, mid2, ns, op.key@, set, when, op_disk, spec_result_view(result)));
    let existing = mid.spec_visible(op_disk, fk);
    assert(spec_check_passes(set.check, existing));
    lemma_set_then_get(
        mid,
        mid2,
        ns,
        op.key@,
        set,
        when,
        op_disk,
        spec_result_view(result),
        op_disk,
    );
    assert(spec_set_expiration(set.keep_existing_expiration, set.expiration, existing)
        == set.expiration);
    let written = EntryView { value: set.value@, expiration: set.expiration, last_updated: when };
    assert(mid2.spec_visible(spec_disk_lookup(disks[i + 1], fk), fk) == Some(written));
    lemma_tail_preserves_visible(
        mid2,
        post,
        result is Ok,
        staged,
        when,
        fk,
        spec_disk_lookup(disks[i + 1], fk),
    );
    assert(spec_visible_on(states[i + 1], disks[i + 1], fk) == Some(written));
    lemma_visible_stable_between(states, disks, steps, fk, i + 1, j);
}

/// Law: after a run that ends quiescent — no dirty key, no batch in flight —
/// the durable tree alone carries the store's state: the last write to a key
/// that nothing later touched is exactly what the tree holds, and so the
/// tree equals the fold of the run's writes and expirations.
pub proof fn lemma_drained_tree_holds_last_write(
    states: Seq<KeyValueState>,
    disks: Seq<Map<Seq<char>, EntryView>>,
    steps: Seq<StoreStep>,
    i: int,
    j: int,
    op: KeyOperation,
    when: Timestamp,
    outcome: PerformOutcome,
    set: SetCommand,
)
    requires
        spec_history(states, disks, steps),
        0 <= i < j < states.len(),
        steps[i] == (StoreStep::Perform { op, now: when, outcome }),
        op.command == Command::SetValue(set),
        set.value.spec_is_valid(),
        !set.keep_existing_expiration,
        (outcome matches PerformOutcome::Done(result, staged) && result is Ok
            && spec_result_view(result) != Ok::<OutputView, KvError>(
            OutputView::Status(KeyStatus::NotChanged),
        )),
        forall|m: int|
            i < m < j ==> !spec_step_writes_key(#[trigger] steps[m], spec_step_key(op))
                && !spec_step_may_expire_key(states[m], steps[m], spec_step_key(op)),
        states[j].dirty_keys@ == Map::<Seq<char>, Option<EntryView>>::empty(),
        states[j].keys_being_persisted is None,
    ensures
        disks[j].contains_key(spec_step_key(op)),
        disks[j][spec_step_key(op)] == (EntryView {
            value: set.value@,
            expiration: set.expiration,
            last_updated: when,
        }),
{
    lemma_reads_follow_writes(states, disks, steps, i, j, op, when, outcome, set);
    lemma_quiescent_visible_is_disk(states[j], disks[j], spec_step_key(op));
}

} // verus!

