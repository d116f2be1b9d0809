//! Deferred persistence scenarios: thresholds decide when batches are
//! staged, and a shutdown drains everything.

use std::collections::BTreeMap;

use kvstore::codec::deserialize_entry;
use kvstore::config::{KeyValuePersistence, PersistenceThreshold};
use kvstore::keys::full_key;
use kvstore::kvmap::KvMap;
use kvstore::ops::{Command, KeyOperation, Output, PerformOutcome, SetCommand};
use kvstore::value::KvError;
use kvstore::persist::{persist_key_action, TreeEntryOp};
use kvstore::state::{KeyValueState, PersistenceFollowUp, ShutdownOutcome};
use kvstore::time::{Duration, Timestamp};
use kvstore::value::{Entry, Value};
use kvstore::worker::{worker_wait, BackgroundWorkerProcessTarget, WorkerWait, MAX_TIMED_WAIT_NANOS};

fn fresh_state(persistence: KeyValuePersistence, now: Timestamp) -> KeyValueState {
    KeyValueState::new(persistence, BackgroundWorkerProcessTarget::Never, now)
}

fn run_worker(
    state: &mut KeyValueState,
    tree: &mut BTreeMap<String, Vec<u8>>,
    mut batch: KvMap<Option<Entry>>,
    now: Timestamp,
) {
    loop {
        let mut i = 0;
        while i < batch.len() {
            let (key, value) = batch.pair_at(i);
            let has = tree.contains_key(key);
            let (op, _changed) = persist_key_action(key, value, has);
            match op {
                TreeEntryOp::Write(bytes) => {
                    tree.insert(key.clone(), bytes);
                }
                TreeEntryOp::Remove => {
                    tree.remove(key);
                }
                TreeEntryOp::Skip => {}
            }
            i += 1;
        }
        match state.finish_persistence(now) {
            PersistenceFollowUp::Continue(next) => {
                batch = next;
            }
            _ => break,
        }
    }
}

fn act(state: &mut KeyValueState, tree: &mut BTreeMap<String, Vec<u8>>, now: Timestamp) {
    if let Some(batch) = state.background_worker_act(now) {
        run_worker(state, tree, batch, now);
    }
}

fn set_bytes_op(key: &str) -> KeyOperation {
    KeyOperation {
        namespace: None,
        key: key.to_string(),
        command: Command::SetValue(SetCommand {
            value: Value::Bytes(Vec::new()),
            expiration: None,
            keep_existing_expiration: false,
            check: None,
            return_previous_value: false,
        }),
    }
}

fn perform(
    state: &mut KeyValueState,
    tree: &mut BTreeMap<String, Vec<u8>>,
    op: KeyOperation,
    now: Timestamp,
) -> Result<Output, KvError> {
    let fk = full_key(op.namespace.as_deref(), &op.key);
    let disk = tree.get(&fk).and_then(deserialize_entry);
    match state.perform_kv_operation(op, now, disk) {
        PerformOutcome::Done(result, staged) => {
            if let Some(batch) = staged {
                run_worker(state, tree, batch, now);
            }
            result
        }
        PerformOutcome::NeedsFloat(_) => panic!("no float step expected"),
    }
}

#[test]
fn basic_persistence() {
    let start = Timestamp { nanos: 1_000_000_000 };
    let mut state = fresh_state(
        KeyValuePersistence::lazy(vec![
            PersistenceThreshold::after_changes(2),
            PersistenceThreshold::after_changes(1).and_duration(Duration::from_secs(2)),
        ]),
        start,
    );
    let mut tree: BTreeMap<String, Vec<u8>> = BTreeMap::new();

    perform(&mut state, &mut tree, set_bytes_op("key1"), start).unwrap();
    assert!(tree.get("\0key1").is_none());
    perform(&mut state, &mut tree, set_bytes_op("key2"), start).unwrap();
    perform(&mut state, &mut tree, set_bytes_op("key3"), start).unwrap();

    assert!(tree.get("\0key1").is_some());
    assert!(tree.get("\0key2").is_some());
    assert!(tree.get("\0key3").is_none());

    // The third key persists only once two seconds have passed.
    let later = start.saturating_add(Duration::from_secs(2));
    act(&mut state, &mut tree, later);
    assert!(tree.get("\0key3").is_some());
    assert!(state.last_persistence.nanos >= later.nanos);
}

#[test]
fn saves_on_drop() {
    let start = Timestamp { nanos: 1_000_000_000 };
    let mut state = fresh_state(
        KeyValuePersistence::lazy(vec![PersistenceThreshold::after_changes(2)]),
        start,
    );
    let mut tree: BTreeMap<String, Vec<u8>> = BTreeMap::new();

    perform(&mut state, &mut tree, set_bytes_op("key1"), start).unwrap();
    assert!(tree.get("\0key1").is_none());

    let batch = match state.shutdown(start) {
        ShutdownOutcome::Drain(batch) => batch,
        _ => panic!("one dirty key should be staged for the drain"),
    };
    run_worker(&mut state, &mut tree, batch, start);
    assert!(tree.get("\0key1").is_some());
    assert!(state.dirty_keys.is_empty());
    assert!(state.keys_being_persisted.is_none());
    assert!(!state.shutdown_requested);
}

#[test]
fn shutdown_drains_late_arrivals() {
    let start = Timestamp { nanos: 1_000_000_000 };
    let mut state = fresh_state(
        KeyValuePersistence::lazy(vec![PersistenceThreshold::after_changes(100)]),
        start,
    );
    let mut tree: BTreeMap<String, Vec<u8>> = BTreeMap::new();

    perform(&mut state, &mut tree, set_bytes_op("key1"), start).unwrap();
    let batch = match state.shutdown(start) {
        ShutdownOutcome::Drain(batch) => batch,
        _ => panic!("one dirty key should be staged for the drain"),
    };

    // A write arriving mid-drain joins the next recursive pass.
    match state.perform_kv_operation(
        set_bytes_op("key2"),
        start,
        None,
    ) {
        PerformOutcome::Done(result, staged) => {
            result.unwrap();
            assert!(staged.is_none(), "no second worker while one is in flight");
        }
        PerformOutcome::NeedsFloat(_) => panic!("no float step expected"),
    }

    run_worker(&mut state, &mut tree, batch, start);
    assert!(tree.get("\0key1").is_some());
    assert!(tree.get("\0key2").is_some());
    assert!(state.dirty_keys.is_empty());
    assert!(state.keys_being_persisted.is_none());
}

#[test]
fn immediate_policy_persists_every_write() {
    let start = Timestamp { nanos: 5 };
    let mut state = fresh_state(KeyValuePersistence::default(), start);
    let mut tree: BTreeMap<String, Vec<u8>> = BTreeMap::new();
    perform(&mut state, &mut tree, set_bytes_op("solo"), start).unwrap();
    assert!(tree.get("\0solo").is_some());
    assert!(state.dirty_keys.is_empty());
}

#[test]
fn should_commit_thresholds() {
    let lazy = KeyValuePersistence::lazy(vec![
        PersistenceThreshold::after_changes(2),
        PersistenceThreshold::after_changes(1).and_duration(Duration::from_secs(2)),
    ]);
    assert!(!lazy.should_commit(0, Duration::from_secs(10)));
    assert!(!lazy.should_commit(1, Duration::from_secs(1)));
    assert!(lazy.should_commit(1, Duration::from_secs(2)));
    assert!(lazy.should_commit(2, Duration::zero()));

    let immediate = KeyValuePersistence::immediate();
    assert!(!immediate.should_commit(0, Duration::zero()));
    assert!(immediate.should_commit(1, Duration::zero()));
}

#[test]
fn duration_until_next_commit_takes_minimum() {
    let lazy = KeyValuePersistence::lazy(vec![
        PersistenceThreshold::after_changes(5).and_duration(Duration::from_secs(1)),
        PersistenceThreshold::after_changes(1).and_duration(Duration::from_secs(4)),
    ]);
    assert_eq!(lazy.duration_until_next_commit(0, Duration::zero()), None);
    assert_eq!(
        lazy.duration_until_next_commit(1, Duration::zero()),
        Some(Duration::from_secs(4))
    );
    assert_eq!(
        lazy.duration_until_next_commit(1, Duration::from_secs(3)),
        Some(Duration::from_secs(1))
    );
    assert_eq!(
        lazy.duration_until_next_commit(5, Duration::zero()),
        Some(Duration::from_secs(1))
    );
    assert_eq!(
        lazy.duration_until_next_commit(5, Duration::from_secs(9)),
        Some(Duration::zero())
    );
}

#[test]
fn persist_key_action_decisions() {
    let key = "atree\0akey".to_string();
    let entry = Entry {
        value: Value::Bytes(vec![1, 2, 3]),
        expiration: None,
        last_updated: Timestamp { nanos: 7 },
    };
    let encoded = kvstore::codec::serialize_entry(&entry);
    match persist_key_action(&key, &Some(entry), false) {
        (TreeEntryOp::Write(bytes), Some(changed)) => {
            assert_eq!(bytes, encoded);
            assert!(!changed.deleted);
            assert_eq!(changed.namespace.as_deref(), Some("atree"));
            assert_eq!(changed.key, "akey");
        }
        _ => panic!("a staged record is written and logged"),
    }
    match persist_key_action(&key, &None, true) {
        (TreeEntryOp::Remove, Some(changed)) => {
            assert!(changed.deleted);
        }
        _ => panic!("a staged deletion over a live key removes and logs"),
    }
    match persist_key_action(&key, &None, false) {
        (TreeEntryOp::Skip, None) => {}
        _ => panic!("a staged deletion over a missing key is skipped"),
    }
}

#[test]
fn worker_wait_decision() {
    let now = Timestamp { nanos: 1_000 };
    assert_eq!(
        worker_wait(BackgroundWorkerProcessTarget::Never, now),
        WorkerWait::Block
    );
    assert_eq!(
        worker_wait(BackgroundWorkerProcessTarget::Now, now),
        WorkerWait::ActNow
    );
    assert_eq!(
        worker_wait(
            BackgroundWorkerProcessTarget::Timestamp(Timestamp { nanos: 900 }),
            now
        ),
        WorkerWait::ActNow
    );
    assert_eq!(
        worker_wait(
            BackgroundWorkerProcessTarget::Timestamp(Timestamp { nanos: 1_500 }),
            now
        ),
        WorkerWait::BlockAtMost(Duration { nanos: 500 })
    );
    // Long waits are capped at one day.
    assert_eq!(
        worker_wait(
            BackgroundWorkerProcessTarget::Timestamp(Timestamp {
                nanos: 1_000 + 2 * MAX_TIMED_WAIT_NANOS
            }),
            now
        ),
        WorkerWait::BlockAtMost(Duration { nanos: MAX_TIMED_WAIT_NANOS })
    );
}

#[test]
fn shutdown_waits_for_an_in_flight_worker() {
    let start = Timestamp { nanos: 1_000_000_000 };
    let mut state = fresh_state(
        KeyValuePersistence::lazy(vec![PersistenceThreshold::after_changes(100)]),
        start,
    );
    let mut tree: BTreeMap<String, Vec<u8>> = BTreeMap::new();

    perform(&mut state, &mut tree, set_bytes_op("key1"), start).unwrap();
    let in_flight = match state.commit_dirty_keys(start) {
        Some(batch) => batch,
        None => panic!("one dirty key should stage"),
    };

    // With a worker in flight, the drain is only marked pending.
    match state.shutdown(start) {
        ShutdownOutcome::AwaitInFlight => {}
        _ => panic!("the running worker should finish the drain"),
    }
    assert!(state.shutdown_requested);

    // A write arriving before the worker finishes joins the drain.
    perform(&mut state, &mut tree, set_bytes_op("key2"), start).unwrap();
    run_worker(&mut state, &mut tree, in_flight, start);

    assert!(tree.get("\0key1").is_some());
    assert!(tree.get("\0key2").is_some());
    assert!(state.dirty_keys.is_empty());
    assert!(state.keys_being_persisted.is_none());
    assert!(!state.shutdown_requested);
}
