//! The stable record encoding, flat keys, and the backup tool's parsing.

use kvstore::backup::{find_collection_marker, parse_decimal_u64, parse_document_file_name};
use kvstore::codec::{deserialize_entry, serialize_entry};
use kvstore::keys::{full_key, split_key};
use kvstore::time::{Duration, Timestamp};
use kvstore::value::{Entry, Numeric, Value};

fn round_trip(entry: Entry) {
    let bytes = serialize_entry(&entry);
    let back = deserialize_entry(&bytes).expect("an encoded record decodes");
    assert_eq!(back, entry);
}

#[test]
fn entry_round_trips_bytes() {
    round_trip(Entry {
        value: Value::Bytes(vec![]),
        expiration: None,
        last_updated: Timestamp { nanos: 0 },
    });
    round_trip(Entry {
        value: Value::Bytes(b"somevalue".to_vec()),
        expiration: Some(Timestamp { nanos: 123_456_789 }),
        last_updated: Timestamp { nanos: u64::MAX },
    });
}

#[test]
fn entry_round_trips_numerics() {
    round_trip(Entry {
        value: Value::Numeric(Numeric::Integer(-42)),
        expiration: None,
        last_updated: Timestamp { nanos: 7 },
    });
    round_trip(Entry {
        value: Value::Numeric(Numeric::UnsignedInteger(u64::MAX)),
        expiration: Some(Timestamp { nanos: 1 }),
        last_updated: Timestamp { nanos: 7 },
    });
    round_trip(Entry {
        value: Value::Numeric(Numeric::Float(0x3ff8_0000_0000_0000)),
        expiration: None,
        last_updated: Timestamp { nanos: 7 },
    });
}

#[test]
fn corrupt_bytes_decode_to_nothing() {
    assert_eq!(deserialize_entry(&Vec::new()), None);
    assert_eq!(deserialize_entry(&vec![0u8; 10]), None);
    let mut bytes = serialize_entry(&Entry {
        value: Value::Numeric(Numeric::Integer(1)),
        expiration: None,
        last_updated: Timestamp { nanos: 0 },
    });
    bytes[17] = 9; // an unknown value tag
    assert_eq!(deserialize_entry(&bytes), None);
    bytes[17] = 1;
    bytes.push(0); // a trailing byte
    assert_eq!(deserialize_entry(&bytes), None);
}

#[test]
fn full_key_and_split_key_invert() {
    let fk = full_key(Some("atree"), "akey");
    assert_eq!(fk, "atree\0akey");
    assert_eq!(split_key(&fk), Some((Some("atree".to_string()), "akey".to_string())));

    let fk = full_key(None, "akey");
    assert_eq!(fk, "\0akey");
    assert_eq!(split_key(&fk), Some((None, "akey".to_string())));

    assert_eq!(split_key("no separator"), None);
    // The key may itself contain the separator; the split takes the first.
    assert_eq!(
        split_key("a\0b\0c"),
        Some((Some("a".to_string()), "b\0c".to_string()))
    );
}

#[test]
fn time_arithmetic() {
    let t = Timestamp { nanos: 100 };
    assert_eq!(t.saturating_add(Duration::from_millis(1)).nanos, 1_000_100);
    assert_eq!(Timestamp { nanos: u64::MAX }.saturating_add(Duration::from_secs(1)).nanos, u64::MAX);
    assert_eq!(t.since(Timestamp { nanos: 40 }), Some(Duration { nanos: 60 }));
    assert_eq!(t.since(Timestamp { nanos: 200 }), None);
    assert_eq!(t.since_or_zero(Timestamp { nanos: 200 }).nanos, 0);
    assert_eq!(Duration::from_secs(2).nanos, 2_000_000_000);
}

#[test]
fn decimal_parsing() {
    assert_eq!(parse_decimal_u64("0"), Some(0));
    assert_eq!(parse_decimal_u64("18446744073709551615"), Some(u64::MAX));
    assert_eq!(parse_decimal_u64("18446744073709551616"), None);
    assert_eq!(parse_decimal_u64(""), None);
    assert_eq!(parse_decimal_u64("12a"), None);
    assert_eq!(parse_decimal_u64("123"), Some(123));
}

#[test]
fn document_file_names_parse() {
    assert_eq!(parse_document_file_name("7.3.cbor"), Some((7, 3)));
    assert_eq!(parse_document_file_name("123.45"), Some((123, 45)));
    assert_eq!(parse_document_file_name("nodigits.cbor"), None);
    assert_eq!(parse_document_file_name("7"), None);
    assert_eq!(parse_document_file_name("7..cbor"), None);
}

#[test]
fn collection_tree_names_are_recognised() {
    assert_eq!(find_collection_marker(&b"db::collection::users".to_vec()), Some(2));
    assert_eq!(find_collection_marker(&b"db::other::users".to_vec()), None);
    assert_eq!(find_collection_marker(&b"nomarker".to_vec()), None);
    assert_eq!(find_collection_marker(&b"::collection::".to_vec()), Some(0));
}
