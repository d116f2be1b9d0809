//! The operation engine: set checks, layered reads, deletions, numeric
//! arithmetic and the floating-point hand-off.

use std::collections::BTreeMap;

use kvstore::codec::deserialize_entry;
use kvstore::config::KeyValuePersistence;
use kvstore::keys::full_key;
use kvstore::ops::{
    Command, KeyCheck, KeyOperation, KeyStatus, Output, PerformOutcome, SetCommand,
};
use kvstore::value::KvError;
use kvstore::state::KeyValueState;
use kvstore::time::Timestamp;
use kvstore::value::{Entry, FloatAnswer, FloatRequest, Numeric, Value};
use kvstore::worker::BackgroundWorkerProcessTarget;

fn fresh_state(now: Timestamp) -> KeyValueState {
    // A policy that never triggers on its own keeps staging out of the way.
    KeyValueState::new(
        KeyValuePersistence::lazy(vec![]),
        BackgroundWorkerProcessTarget::Never,
        now,
    )
}

fn set_command(value: Value) -> SetCommand {
    SetCommand {
        value,
        expiration: None,
        keep_existing_expiration: false,
        check: None,
        return_previous_value: false,
    }
}

fn perform(
    state: &mut KeyValueState,
    tree: &BTreeMap<String, Vec<u8>>,
    op: KeyOperation,
    now: Timestamp,
) -> Result<Output, KvError> {
    let fk = full_key(op.namespace.as_deref(), &op.key);
    let disk = tree.get(&fk).and_then(deserialize_entry);
    match state.perform_kv_operation(op, now, disk) {
        PerformOutcome::Done(result, _staged) => result,
        PerformOutcome::NeedsFloat(_) => panic!("no float step expected"),
    }
}

fn op(namespace: Option<&str>, key: &str, command: Command) -> KeyOperation {
    KeyOperation {
        namespace: namespace.map(str::to_string),
        key: key.to_string(),
        command,
    }
}

#[test]
fn set_reports_inserted_then_updated() {
    let now = Timestamp { nanos: 10 };
    let mut state = fresh_state(now);
    let tree = BTreeMap::new();
    let first = perform(
        &mut state,
        &tree,
        op(Some("ns"), "k", Command::SetValue(set_command(Value::Bytes(vec![1])))),
        now,
    );
    assert_eq!(first, Ok(Output::Status(KeyStatus::Inserted)));
    let second = perform(
        &mut state,
        &tree,
        op(Some("ns"), "k", Command::SetValue(set_command(Value::Bytes(vec![2])))),
        now,
    );
    assert_eq!(second, Ok(Output::Status(KeyStatus::Updated)));
}

#[test]
fn set_checks_gate_the_write() {
    let now = Timestamp { nanos: 10 };
    let mut state = fresh_state(now);
    let tree = BTreeMap::new();
    let mut vacant_only = set_command(Value::Bytes(vec![1]));
    vacant_only.check = Some(KeyCheck::OnlyIfVacant);
    let r = perform(
        &mut state,
        &tree,
        op(None, "k", Command::SetValue(vacant_only.clone())),
        now,
    );
    assert_eq!(r, Ok(Output::Status(KeyStatus::Inserted)));
    let r = perform(
        &mut state,
        &tree,
        op(None, "k", Command::SetValue(vacant_only)),
        now,
    );
    assert_eq!(r, Ok(Output::Status(KeyStatus::NotChanged)));

    let mut present_only = set_command(Value::Bytes(vec![9]));
    present_only.check = Some(KeyCheck::OnlyIfPresent);
    let r = perform(
        &mut state,
        &tree,
        op(None, "absent", Command::SetValue(present_only)),
        now,
    );
    assert_eq!(r, Ok(Output::Status(KeyStatus::NotChanged)));
}

#[test]
fn set_returns_previous_value() {
    let now = Timestamp { nanos: 10 };
    let mut state = fresh_state(now);
    let tree = BTreeMap::new();
    perform(
        &mut state,
        &tree,
        op(None, "k", Command::SetValue(set_command(Value::Bytes(vec![7])))),
        now,
    )
    .unwrap();
    let mut with_previous = set_command(Value::Bytes(vec![8]));
    with_previous.return_previous_value = true;
    let r = perform(
        &mut state,
        &tree,
        op(None, "k", Command::SetValue(with_previous)),
        now,
    );
    assert_eq!(r, Ok(Output::Value(Some(Value::Bytes(vec![7])))));
}

#[test]
fn get_reads_through_the_layers() {
    let now = Timestamp { nanos: 10 };
    let mut state = fresh_state(now);
    let mut tree = BTreeMap::new();
    // A record only on disk is read from disk.
    let disk_entry = Entry {
        value: Value::Bytes(vec![4]),
        expiration: None,
        last_updated: Timestamp { nanos: 1 },
    };
    tree.insert(
        full_key(None, "ondisk"),
        kvstore::codec::serialize_entry(&disk_entry),
    );
    let r = perform(&mut state, &tree, op(None, "ondisk", Command::Get { delete: false }), now);
    assert_eq!(r, Ok(Output::Value(Some(Value::Bytes(vec![4])))));
    // A dirty write shadows it.
    perform(
        &mut state,
        &tree,
        op(None, "ondisk", Command::SetValue(set_command(Value::Bytes(vec![5])))),
        now,
    )
    .unwrap();
    let r = perform(&mut state, &tree, op(None, "ondisk", Command::Get { delete: false }), now);
    assert_eq!(r, Ok(Output::Value(Some(Value::Bytes(vec![5])))));
}

#[test]
fn get_with_delete_removes() {
    let now = Timestamp { nanos: 10 };
    let mut state = fresh_state(now);
    let tree = BTreeMap::new();
    perform(
        &mut state,
        &tree,
        op(None, "k", Command::SetValue(set_command(Value::Bytes(vec![1])))),
        now,
    )
    .unwrap();
    let r = perform(&mut state, &tree, op(None, "k", Command::Get { delete: true }), now);
    assert_eq!(r, Ok(Output::Value(Some(Value::Bytes(vec![1])))));
    let r = perform(&mut state, &tree, op(None, "k", Command::Get { delete: false }), now);
    assert_eq!(r, Ok(Output::Value(None)));
}

#[test]
fn delete_reports_whether_a_value_was_there() {
    let now = Timestamp { nanos: 10 };
    let mut state = fresh_state(now);
    let tree = BTreeMap::new();
    perform(
        &mut state,
        &tree,
        op(None, "k", Command::SetValue(set_command(Value::Bytes(vec![1])))),
        now,
    )
    .unwrap();
    let r = perform(&mut state, &tree, op(None, "k", Command::Delete), now);
    assert_eq!(r, Ok(Output::Status(KeyStatus::Deleted)));
    let r = perform(&mut state, &tree, op(None, "k", Command::Delete), now);
    assert_eq!(r, Ok(Output::Status(KeyStatus::NotChanged)));
}

#[test]
fn increment_starts_from_zero() {
    let now = Timestamp { nanos: 10 };
    let mut state = fresh_state(now);
    let tree = BTreeMap::new();
    let r = perform(
        &mut state,
        &tree,
        op(None, "n", Command::Increment { amount: Numeric::UnsignedInteger(3), saturating: true }),
        now,
    );
    assert_eq!(r, Ok(Output::Value(Some(Value::Numeric(Numeric::UnsignedInteger(3))))));
    let r = perform(
        &mut state,
        &tree,
        op(None, "n", Command::Increment { amount: Numeric::UnsignedInteger(4), saturating: true }),
        now,
    );
    assert_eq!(r, Ok(Output::Value(Some(Value::Numeric(Numeric::UnsignedInteger(7))))));
}

#[test]
fn decrement_saturates_and_wraps() {
    let now = Timestamp { nanos: 10 };
    let mut state = fresh_state(now);
    let tree = BTreeMap::new();
    let r = perform(
        &mut state,
        &tree,
        op(None, "n", Command::Decrement { amount: Numeric::UnsignedInteger(5), saturating: true }),
        now,
    );
    assert_eq!(r, Ok(Output::Value(Some(Value::Numeric(Numeric::UnsignedInteger(0))))));
    let r = perform(
        &mut state,
        &tree,
        op(None, "w", Command::Decrement { amount: Numeric::UnsignedInteger(5), saturating: false }),
        now,
    );
    assert_eq!(
        r,
        Ok(Output::Value(Some(Value::Numeric(Numeric::UnsignedInteger(u64::MAX - 4)))))
    );
}

#[test]
fn increment_coerces_to_the_amount_variant() {
    let now = Timestamp { nanos: 10 };
    let mut state = fresh_state(now);
    let tree = BTreeMap::new();
    perform(
        &mut state,
        &tree,
        op(
            None,
            "n",
            Command::SetValue(set_command(Value::Numeric(Numeric::UnsignedInteger(u64::MAX)))),
        ),
        now,
    )
    .unwrap();
    // A signed amount reads the unsigned value through a saturating cast.
    let r = perform(
        &mut state,
        &tree,
        op(None, "n", Command::Increment { amount: Numeric::Integer(1), saturating: true }),
        now,
    );
    assert_eq!(r, Ok(Output::Value(Some(Value::Numeric(Numeric::Integer(i64::MAX))))));
}

#[test]
fn numeric_command_on_bytes_fails() {
    let now = Timestamp { nanos: 10 };
    let mut state = fresh_state(now);
    let tree = BTreeMap::new();
    perform(
        &mut state,
        &tree,
        op(None, "b", Command::SetValue(set_command(Value::Bytes(vec![1])))),
        now,
    )
    .unwrap();
    let r = perform(
        &mut state,
        &tree,
        op(None, "b", Command::Increment { amount: Numeric::Integer(1), saturating: true }),
        now,
    );
    assert_eq!(r, Err(KvError::NotNumeric));
}

#[test]
fn nan_float_is_rejected() {
    let now = Timestamp { nanos: 10 };
    let mut state = fresh_state(now);
    let tree = BTreeMap::new();
    let nan_bits: u64 = 0x7ff8_0000_0000_0000;
    let r = perform(
        &mut state,
        &tree,
        op(None, "f", Command::SetValue(set_command(Value::Numeric(Numeric::Float(nan_bits))))),
        now,
    );
    assert_eq!(r, Err(KvError::InvalidValue));
}

#[test]
fn float_arithmetic_is_handed_to_the_caller() {
    let now = Timestamp { nanos: 10 };
    let mut state = fresh_state(now);
    let one_and_a_half: u64 = 0x3ff8_0000_0000_0000;
    let two_and_a_half: u64 = 0x4004_0000_0000_0000;
    perform(
        &mut state,
        &BTreeMap::new(),
        op(
            None,
            "f",
            Command::SetValue(set_command(Value::Numeric(Numeric::Float(one_and_a_half)))),
        ),
        now,
    )
    .unwrap();
    let request = match state.perform_kv_operation(
        op(None, "f", Command::Increment { amount: Numeric::Integer(1), saturating: true }),
        now,
        None,
    ) {
        PerformOutcome::NeedsFloat(request) => request,
        PerformOutcome::Done(r, _) => panic!("expected a float request, got {r:?}"),
    };
    assert_eq!(request, FloatRequest::CastToI64 { bits: one_and_a_half });
    // The caller casts 1.5 to 1 and resumes; the store adds the amount.
    let (r, _staged) = state.resume_kv_operation(
        None,
        "f",
        &Numeric::Integer(1),
        true,
        false,
        FloatAnswer::SignedCast(1),
        now,
        None,
    );
    assert_eq!(r, Ok(Output::Value(Some(Value::Numeric(Numeric::Integer(2))))));

    // A float amount hands the whole sum out; the answer's bits are stored.
    let request = match state.perform_kv_operation(
        op(
            None,
            "g",
            Command::Increment { amount: Numeric::Float(one_and_a_half), saturating: false },
        ),
        now,
        None,
    ) {
        PerformOutcome::NeedsFloat(request) => request,
        PerformOutcome::Done(r, _) => panic!("expected a float request, got {r:?}"),
    };
    assert_eq!(
        request,
        FloatRequest::Arith {
            existing: Numeric::UnsignedInteger(0),
            amount_bits: one_and_a_half,
            subtract: false
        }
    );
    let (r, _staged) = state.resume_kv_operation(
        None,
        "g",
        &Numeric::Float(one_and_a_half),
        false,
        false,
        FloatAnswer::Bits(two_and_a_half),
        now,
        None,
    );
    assert_eq!(r, Ok(Output::Value(Some(Value::Numeric(Numeric::Float(two_and_a_half))))));
}

#[test]
fn keep_existing_expiration_carries_it_over() {
    let now = Timestamp { nanos: 10 };
    let mut state = fresh_state(now);
    let tree = BTreeMap::new();
    let expiring = Timestamp { nanos: 999 };
    let mut first = set_command(Value::Bytes(vec![1]));
    first.expiration = Some(expiring);
    perform(&mut state, &tree, op(None, "k", Command::SetValue(first)), now).unwrap();
    let mut second = set_command(Value::Bytes(vec![2]));
    second.keep_existing_expiration = true;
    perform(&mut state, &tree, op(None, "k", Command::SetValue(second)), now).unwrap();
    assert_eq!(state.expirations.len(), 1);
    assert_eq!(state.expirations[0].1, expiring);
}

#[test]
fn restore_builds_an_unconditional_set() {
    let entry = Entry {
        value: Value::Bytes(vec![1, 2]),
        expiration: Some(Timestamp { nanos: 77 }),
        last_updated: Timestamp { nanos: 5 },
    };
    let op = entry.restore(Some("ns".to_string()), "k".to_string());
    assert_eq!(op.namespace.as_deref(), Some("ns"));
    assert_eq!(op.key, "k");
    match op.command {
        Command::SetValue(set) => {
            assert_eq!(set.value, Value::Bytes(vec![1, 2]));
            assert_eq!(set.expiration, Some(Timestamp { nanos: 77 }));
            assert!(!set.keep_existing_expiration);
            assert!(set.check.is_none());
            assert!(!set.return_previous_value);
        }
        _ => panic!("restore builds a set"),
    }
}

#[test]
fn all_key_value_entries_overlays_the_layers() {
    let now = Timestamp { nanos: 10 };
    let mut state = fresh_state(now);
    let disk_entry = Entry {
        value: Value::Bytes(vec![1]),
        expiration: None,
        last_updated: Timestamp { nanos: 1 },
    };
    let shadowed = Entry {
        value: Value::Bytes(vec![2]),
        expiration: None,
        last_updated: Timestamp { nanos: 1 },
    };
    let disk_rows = vec![
        ("atree\0disk".to_string(), disk_entry.clone()),
        ("atree\0gone".to_string(), disk_entry.clone()),
        ("atree\0shadowed".to_string(), shadowed),
        ("malformed".to_string(), disk_entry.clone()),
    ];
    let tree = BTreeMap::new();
    perform(
        &mut state,
        &tree,
        op(Some("atree"), "shadowed", Command::SetValue(set_command(Value::Bytes(vec![3])))),
        now,
    )
    .unwrap();
    perform(&mut state, &tree, op(Some("atree"), "gone", Command::Delete), now).unwrap();

    let rows = state.all_key_value_entries(&disk_rows);
    let summary: Vec<(Option<&str>, &str, &Value)> = rows
        .iter()
        .map(|(ns, k, e)| (ns.as_deref(), k.as_str(), &e.value))
        .collect();
    assert_eq!(summary.len(), 2);
    assert_eq!(summary[0], (Some("atree"), "disk", &Value::Bytes(vec![1])));
    assert_eq!(summary[1], (Some("atree"), "shadowed", &Value::Bytes(vec![3])));
}

#[test]
fn reads_are_not_disturbed_by_other_keys() {
    let now = Timestamp { nanos: 10 };
    let mut state = fresh_state(now);
    let tree = BTreeMap::new();
    perform(
        &mut state,
        &tree,
        op(None, "stable", Command::SetValue(set_command(Value::Bytes(vec![1])))),
        now,
    )
    .unwrap();
    perform(
        &mut state,
        &tree,
        op(None, "other", Command::SetValue(set_command(Value::Bytes(vec![2])))),
        now,
    )
    .unwrap();
    perform(&mut state, &tree, op(None, "other", Command::Delete), now).unwrap();
    let r = perform(&mut state, &tree, op(None, "stable", Command::Get { delete: false }), now);
    assert_eq!(r, Ok(Output::Value(Some(Value::Bytes(vec![1])))));
}

#[test]
fn numeric_writes_stamp_the_operation_instant() {
    let t1 = Timestamp { nanos: 10 };
    let t2 = Timestamp { nanos: 20 };
    let mut state = fresh_state(t1);
    let tree = BTreeMap::new();
    perform(
        &mut state,
        &tree,
        op(
            None,
            "n",
            Command::SetValue(set_command(Value::Numeric(Numeric::UnsignedInteger(1)))),
        ),
        t1,
    )
    .unwrap();
    perform(
        &mut state,
        &tree,
        op(None, "n", Command::Increment { amount: Numeric::UnsignedInteger(1), saturating: true }),
        t2,
    )
    .unwrap();
    let rows = state.all_key_value_entries(&Vec::new());
    assert_eq!(rows.len(), 1);
    assert_eq!(rows[0].2.value, Value::Numeric(Numeric::UnsignedInteger(2)));
    assert_eq!(rows[0].2.last_updated, t2);
}
