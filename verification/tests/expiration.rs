//! Expiration scenarios: keys vanish when their instants pass, updates move
//! them, clearing keeps them.

use std::collections::BTreeMap;

use kvstore::config::KeyValuePersistence;
use kvstore::keys::full_key;
use kvstore::kvmap::KvMap;
use kvstore::persist::{persist_key_action, TreeEntryOp};
use kvstore::state::{KeyValueState, PersistenceFollowUp};
use kvstore::time::{Duration, Timestamp};
use kvstore::value::Entry;
use kvstore::worker::BackgroundWorkerProcessTarget;

fn fresh_state(persistence: KeyValuePersistence, now: Timestamp) -> KeyValueState {
    KeyValueState::new(persistence, BackgroundWorkerProcessTarget::Never, now)
}

fn run_worker(
    state: &mut KeyValueState,
    tree: &mut BTreeMap<String, Vec<u8>>,
    mut batch: KvMap<Option<Entry>>,
    now: Timestamp,
) {
    loop {
        let mut i = 0;
        while i < batch.len() {
            let (key, value) = batch.pair_at(i);
            let has = tree.contains_key(key);
            let (op, _changed) = persist_key_action(key, value, has);
            match op {
                TreeEntryOp::Write(bytes) => {
                    tree.insert(key.clone(), bytes);
                }
                TreeEntryOp::Remove => {
                    tree.remove(key);
                }
                TreeEntryOp::Skip => {}
            }
            i += 1;
        }
        match state.finish_persistence(now) {
            PersistenceFollowUp::Continue(next) => {
                batch = next;
            }
            _ => break,
        }
    }
}

fn act(state: &mut KeyValueState, tree: &mut BTreeMap<String, Vec<u8>>, now: Timestamp) {
    if let Some(batch) = state.background_worker_act(now) {
        run_worker(state, tree, batch, now);
    }
}

fn millis(ms: u64) -> Duration {
    Duration::from_millis(ms)
}

#[test]
fn basic_expiration() {
    let start = Timestamp { nanos: 1_000_000_000 };
    let mut state = fresh_state(KeyValuePersistence::default(), start);
    let mut tree: BTreeMap<String, Vec<u8>> = BTreeMap::new();
    tree.insert("atree\0akey".to_string(), b"somevalue".to_vec());

    state.update_key_expiration(
        full_key(Some("atree"), "akey"),
        Some(start.saturating_add(millis(100))),
        start,
    );
    act(&mut state, &mut tree, start.saturating_add(millis(100)));

    assert!(tree.get("akey").is_none());
}

#[test]
fn basic_expiration_removes_key() {
    let start = Timestamp { nanos: 1_000_000_000 };
    let mut state = fresh_state(KeyValuePersistence::default(), start);
    let mut tree: BTreeMap<String, Vec<u8>> = BTreeMap::new();
    tree.insert("atree\0akey".to_string(), b"somevalue".to_vec());

    state.update_key_expiration(
        full_key(Some("atree"), "akey"),
        Some(start.saturating_add(millis(100))),
        start,
    );
    assert_eq!(
        state.background_worker_target,
        BackgroundWorkerProcessTarget::Timestamp(start.saturating_add(millis(100)))
    );
    act(&mut state, &mut tree, start.saturating_add(millis(100)));

    assert!(tree.get("atree\0akey").is_none());
    assert!(state.expirations.is_empty());
}

#[test]
fn updating_expiration() {
    let start = Timestamp { nanos: 1_000_000_000 };
    let mut state = fresh_state(KeyValuePersistence::default(), start);
    let mut tree: BTreeMap<String, Vec<u8>> = BTreeMap::new();
    tree.insert("atree\0akey".to_string(), b"somevalue".to_vec());

    state.update_key_expiration(
        full_key(Some("atree"), "akey"),
        Some(start.saturating_add(millis(100))),
        start,
    );
    let correct_expiration = start.saturating_add(Duration::from_secs(1));
    state.update_key_expiration(
        full_key(Some("atree"), "akey"),
        Some(correct_expiration),
        start,
    );
    assert_eq!(
        state.background_worker_target,
        BackgroundWorkerProcessTarget::Timestamp(correct_expiration)
    );

    let wake = Timestamp { nanos: correct_expiration.nanos + 1 };
    act(&mut state, &mut tree, wake);

    assert!(state.last_persistence.nanos > correct_expiration.nanos);
    assert_eq!(tree.get("atree\0akey"), None);
}

#[test]
fn multiple_keys_expiration() {
    let start = Timestamp { nanos: 1_000_000_000 };
    let mut state = fresh_state(KeyValuePersistence::default(), start);
    let mut tree: BTreeMap<String, Vec<u8>> = BTreeMap::new();
    tree.insert("atree\0akey".to_string(), b"somevalue".to_vec());
    tree.insert("atree\0bkey".to_string(), b"somevalue".to_vec());

    state.update_key_expiration(
        full_key(Some("atree"), "akey"),
        Some(start.saturating_add(millis(100))),
        start,
    );
    state.update_key_expiration(
        full_key(Some("atree"), "bkey"),
        Some(start.saturating_add(Duration::from_secs(1))),
        start,
    );

    act(&mut state, &mut tree, start.saturating_add(millis(100)));
    assert!(tree.get("atree\0akey").is_none());
    assert!(tree.get("atree\0bkey").is_some());

    act(&mut state, &mut tree, start.saturating_add(Duration::from_secs(1)));
    assert!(tree.get("atree\0bkey").is_none());
}

#[test]
fn clearing_expiration() {
    let start = Timestamp { nanos: 1_000_000_000 };
    let mut state = fresh_state(KeyValuePersistence::default(), start);
    let mut tree: BTreeMap<String, Vec<u8>> = BTreeMap::new();
    tree.insert("atree\0akey".to_string(), b"somevalue".to_vec());

    state.update_key_expiration(
        full_key(Some("atree"), "akey"),
        Some(start.saturating_add(millis(100))),
        start,
    );
    state.update_key_expiration(full_key(Some("atree"), "akey"), None, start);

    act(&mut state, &mut tree, start.saturating_add(millis(150)));
    assert!(tree.get("atree\0akey").is_some());
}

#[test]
fn out_of_order_expiration() {
    let start = Timestamp { nanos: 1_000_000_000 };
    let mut state = fresh_state(KeyValuePersistence::default(), start);
    let mut tree: BTreeMap<String, Vec<u8>> = BTreeMap::new();
    tree.insert("atree\0akey".to_string(), b"somevalue".to_vec());
    tree.insert("atree\0bkey".to_string(), b"somevalue".to_vec());
    tree.insert("atree\0ckey".to_string(), b"somevalue".to_vec());

    state.update_key_expiration(
        full_key(Some("atree"), "akey"),
        Some(start.saturating_add(Duration::from_secs(3))),
        start,
    );
    state.update_key_expiration(
        full_key(Some("atree"), "ckey"),
        Some(start.saturating_add(Duration::from_secs(1))),
        start,
    );
    state.update_key_expiration(
        full_key(Some("atree"), "bkey"),
        Some(start.saturating_add(Duration::from_secs(2))),
        start,
    );

    act(&mut state, &mut tree, start.saturating_add(Duration::from_secs(1)));
    assert!(tree.get("atree\0akey").is_some());
    assert!(tree.get("atree\0bkey").is_some());
    assert!(tree.get("atree\0ckey").is_none());

    act(&mut state, &mut tree, start.saturating_add(Duration::from_secs(2)));
    assert!(tree.get("atree\0akey").is_some());
    assert!(tree.get("atree\0bkey").is_none());

    act(&mut state, &mut tree, start.saturating_add(Duration::from_secs(3)));
    assert!(tree.get("atree\0akey").is_none());
}

#[test]
fn expiration_queue_stays_sorted() {
    let start = Timestamp { nanos: 0 };
    let mut state = fresh_state(KeyValuePersistence::default(), start);
    state.update_key_expiration("\0c".to_string(), Some(Timestamp { nanos: 30 }), start);
    state.update_key_expiration("\0a".to_string(), Some(Timestamp { nanos: 10 }), start);
    state.update_key_expiration("\0b".to_string(), Some(Timestamp { nanos: 20 }), start);
    let times: Vec<u64> = state.expirations.iter().map(|p| p.1.nanos).collect();
    assert_eq!(times, vec![10, 20, 30]);
    // Moving a key re-sorts it; equal instants keep earlier arrivals first.
    state.update_key_expiration("\0a".to_string(), Some(Timestamp { nanos: 20 }), start);
    let keys: Vec<&str> = state.expirations.iter().map(|p| p.0.as_str()).collect();
    assert_eq!(keys, vec!["\0b", "\0a", "\0c"]);
}

#[test]
fn load_expirations_rebuilds_queue() {
    let launched_at = Timestamp { nanos: 1_000 };
    let start = Timestamp { nanos: 2_000 };
    let mut state = fresh_state(KeyValuePersistence::default(), start);
    let entries = vec![
        (
            Some("atree".to_string()),
            "old".to_string(),
            Entry {
                value: kvstore::value::Value::Bytes(vec![1]),
                expiration: Some(Timestamp { nanos: 5_000 }),
                last_updated: Timestamp { nanos: 500 },
            },
        ),
        (
            Some("atree".to_string()),
            "fresh".to_string(),
            Entry {
                value: kvstore::value::Value::Bytes(vec![2]),
                expiration: Some(Timestamp { nanos: 6_000 }),
                last_updated: Timestamp { nanos: 1_500 },
            },
        ),
        (
            Some("atree".to_string()),
            "eternal".to_string(),
            Entry {
                value: kvstore::value::Value::Bytes(vec![3]),
                expiration: None,
                last_updated: Timestamp { nanos: 500 },
            },
        ),
    ];
    state.load_expirations(&entries, launched_at, start);
    assert_eq!(state.expirations.len(), 1);
    assert_eq!(state.expirations[0].0, "atree\0old");
    assert_eq!(state.expirations[0].1, Timestamp { nanos: 5_000 });
}
