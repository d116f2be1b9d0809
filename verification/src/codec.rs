//! The stable binary encoding of a stored record.
//!
//! The layout is fixed and variant-tagged, with every integer little-endian:
//!
//! | offset | content                                                    |
//! |--------|------------------------------------------------------------|
//! | 0..8   | `last_updated`, nanoseconds                                 |
//! | 8      | expiration tag: 0 absent, 1 present                         |
//! | 9..17  | expiration, nanoseconds (zero when absent)                  |
//! | 17     | value tag: 0 bytes, 1 integer, 2 unsigned integer, 3 float |
//! | 18..26 | byte length for a bytes value, else the 8 payload bytes     |
//! | 26..   | the bytes payload itself (bytes values only)                |
//!
//! Decoding accepts exactly the buffers this layout describes and yields the
//! record back: the round trip is proved below.

use vstd::prelude::*;
use vstd::bytes::{
    lemma_auto_spec_u64_to_from_le_bytes, spec_u64_from_le_bytes, spec_u64_to_le_bytes,
    u64_from_le_bytes, u64_to_le_bytes,
};
use vstd::slice::{slice_subrange, slice_to_vec};

use crate::time::Timestamp;
use crate::value::{Entry, EntryView, Numeric, Value, ValueView, opt_entry_view};

verus! {

/// The whole fixed-size portion: both timestamps and both tags.
pub const ENTRY_HEADER_LEN: usize = 26;

/// The `u64` stored little-endian at `pos`.
pub open spec fn spec_u64_at(bytes: Seq<u8>, pos: int) -> u64 {
    spec_u64_from_le_bytes(bytes.subrange(pos, pos + 8))
}

/// The encoding of the expiration field: a tag byte and eight nanosecond
/// bytes, zero when absent.
pub open spec fn spec_encode_expiration(expiration: Option<Timestamp>) -> Seq<u8> {
    match expiration {
        None => seq![0u8] + spec_u64_to_le_bytes(0),
        Some(t) => seq![1u8] + spec_u64_to_le_bytes(t.nanos),
    }
}

/// The encoding of the value: a tag byte, then the length or payload word,
/// then the bytes payload when there is one.
pub open spec fn spec_encode_value(value: ValueView) -> Seq<u8> {
    match value {
        ValueView::Bytes(b) => seq![0u8] + spec_u64_to_le_bytes(b.len() as u64) + b,
        ValueView::Numeric(Numeric::Integer(v)) => seq![1u8] + spec_u64_to_le_bytes(v as u64),
        ValueView::Numeric(Numeric::UnsignedInteger(v)) => seq![2u8] + spec_u64_to_le_bytes(v),
        ValueView::Numeric(Numeric::Float(bits)) => seq![3u8] + spec_u64_to_le_bytes(bits),
    }
}

/// The encoding of a whole record.
pub open spec fn spec_encode_entry(e: EntryView) -> Seq<u8> {
    spec_u64_to_le_bytes(e.last_updated.nanos) + spec_encode_expiration(e.expiration)
        + spec_encode_value(e.value)
}

/// True when the record fits the encoding: a bytes payload is no longer than
/// the length word can say.
pub open spec fn spec_entry_encodable(e: EntryView) -> bool {
    match e.value {
        ValueView::Bytes(b) => b.len() <= u64::MAX,
        ValueView::Numeric(_) => true,
    }
}

/// What decoding a buffer yields: the record it encodes, or nothing when no
/// record encodes to it.
pub open spec fn spec_decode_entry(bytes: Seq<u8>) -> Option<EntryView> {
    if bytes.len() < ENTRY_HEADER_LEN {
        None
    } else {
        let last_updated = Timestamp { nanos: spec_u64_at(bytes, 0) };
        let exp_tag = bytes[8];
        let value_tag = bytes[17];
        let word = spec_u64_at(bytes, 18);
        if exp_tag == 0 || exp_tag == 1 {
            let expiration = if exp_tag == 0 {
                None
            } else {
                Some(Timestamp { nanos: spec_u64_at(bytes, 9) })
            };
            if value_tag == 0 {
                if bytes.len() == ENTRY_HEADER_LEN + word {
                    Some(
                        EntryView {
                            value: ValueView::Bytes(
                                bytes.subrange(
                                    ENTRY_HEADER_LEN as int,
                                    ENTRY_HEADER_LEN + word,
                                ),
                            ),
                            expiration,
                            last_updated,
                        },
                    )
                } else {
                    None
                }
            } else if bytes.len() == ENTRY_HEADER_LEN && (value_tag == 1 || value_tag == 2
                || value_tag == 3) {
                let numeric = if value_tag == 1 {
                    Numeric::Integer(word as i64)
                } else if value_tag == 2 {
                    Numeric::UnsignedInteger(word)
                } else {
                    Numeric::Float(word)
                };
                Some(EntryView { value: ValueView::Numeric(numeric), expiration, last_updated })
            } else {
                None
            }
        } else {
            None
        }
    }
}

/// Appends every byte of `src` to `out`.
fn push_all(out: &mut Vec<u8>, src: &Vec<u8>)
    ensures
        final(out)@ == old(out)@ + src@,
{
    let mut i: usize = 0;
    while i < src.len()
        invariant
            i <= src@.len(),
            out@ == old(out)@ + src@.subrange(0, i as int),
        decreases src@.len() - i,
    {
        out.push(src[i]);
        i = i + 1;
        proof {
            assert(out@ =~= old(out)@ + src@.subrange(0, i as int));
        }
    }
    proof {
        assert(out@ =~= old(out)@ + src@);
    }
}

/// Encodes a record into the stable binary layout.
pub fn serialize_entry(e: &Entry) -> (r: Vec<u8>)
    ensures
        r@ == spec_encode_entry(e@),
{
    let mut out = u64_to_le_bytes(e.last_updated.nanos);
    match &e.expiration {
        None => {
            out.push(0);
            let zeros = u64_to_le_bytes(0);
            push_all(&mut out, &zeros);
        },
        Some(t) => {
            out.push(1);
            let nanos = u64_to_le_bytes(t.nanos);
            push_all(&mut out, &nanos);
        },
    }
    match &e.value {
        Value::Bytes(b) => {
            out.push(0);
            let len_word = u64_to_le_bytes(b.len() as u64);
            push_all(&mut out, &len_word);
            push_all(&mut out, b);
        },
        Value::Numeric(Numeric::Integer(v)) => {
            out.push(1);
            let word = u64_to_le_bytes(#[verifier::truncate] (*v as u64));
            push_all(&mut out, &word);
        },
        Value::Numeric(Numeric::UnsignedInteger(v)) => {
            out.push(2);
            let word = u64_to_le_bytes(*v);
            push_all(&mut out, &word);
        },
        Value::Numeric(Numeric::Float(bits)) => {
            out.push(3);
            let word = u64_to_le_bytes(*bits);
            push_all(&mut out, &word);
        },
    }
    proof {
        assert(out@ =~= spec_encode_entry(e@));
    }
    out
}

/// Reads the little-endian `u64` at `pos`.
fn read_u64_at(bytes: &Vec<u8>, pos: usize) -> (r: u64)
    requires
        pos + 8 <= bytes@.len(),
    ensures
        r == spec_u64_at(bytes@, pos as int),
{
    let n = bytes.len();
    proof {
        assert(pos + 8 <= n);
    }
    let window = slice_subrange(bytes.as_slice(), pos, pos + 8);
    u64_from_le_bytes(window)
}

/// Decodes a buffer back into a record: yields exactly what
/// [`spec_decode_entry`] says, so a buffer no record encodes to is refused.
pub fn deserialize_entry(bytes: &Vec<u8>) -> (r: Option<Entry>)
    ensures
        opt_entry_view(r) == spec_decode_entry(bytes@),
{
    if bytes.len() < ENTRY_HEADER_LEN {
        return None;
    }
    let last_updated = Timestamp { nanos: read_u64_at(bytes, 0) };
    let exp_tag = bytes[8];
    let value_tag = bytes[17];
    let word = read_u64_at(bytes, 18);
    if exp_tag > 1 {
        return None;
    }
    let expiration = if exp_tag == 0 {
        None
    } else {
        Some(Timestamp { nanos: read_u64_at(bytes, 9) })
    };
    if value_tag == 0 {
        if bytes.len() - ENTRY_HEADER_LEN == word as usize && (bytes.len() - ENTRY_HEADER_LEN)
            as u64 == word {
            let payload = slice_to_vec(
                slice_subrange(bytes.as_slice(), ENTRY_HEADER_LEN, bytes.len()),
            );
            Some(Entry { value: Value::Bytes(payload), expiration, last_updated })
        } else {
            None
        }
    } else if bytes.len() == ENTRY_HEADER_LEN && value_tag <= 3 {
        let numeric = if value_tag == 1 {
            Numeric::Integer(#[verifier::truncate] (word as i64))
        } else if value_tag == 2 {
            Numeric::UnsignedInteger(word)
        } else {
            Numeric::Float(word)
        };
        Some(Entry { value: Value::Numeric(numeric), expiration, last_updated })
    } else {
        None
    }
}

/// Decoding inverts encoding: every encodable record comes back from its own
/// encoding unchanged.
pub proof fn lemma_entry_codec_round_trip(e: EntryView)
    requires
        spec_entry_encodable(e),
    ensures
        spec_decode_entry(spec_encode_entry(e)) == Some(e),
{
    lemma_auto_spec_u64_to_from_le_bytes();
    let bytes = spec_encode_entry(e);
    let head = spec_u64_to_le_bytes(e.last_updated.nanos);
    let exp = spec_encode_expiration(e.expiration);
    let val = spec_encode_value(e.value);
    assert(bytes =~= head + exp + val);
    assert(head.len() == 8 && exp.len() == 9);
    assert(bytes.subrange(0, 8) =~= head);
    assert(bytes[8] == exp[0]);
    assert(bytes.subrange(9, 17) =~= exp.subrange(1, 9));
    assert(bytes[17] == val[0]);
    match e.expiration {
        None => {
            assert(exp.subrange(1, 9) =~= spec_u64_to_le_bytes(0));
        },
        Some(t) => {
            assert(exp.subrange(1, 9) =~= spec_u64_to_le_bytes(t.nanos));
        },
    }
    match e.value {
        ValueView::Bytes(b) => {
            assert(val.subrange(1, 9) =~= spec_u64_to_le_bytes(b.len() as u64));
            assert(bytes.subrange(18, 26) =~= val.subrange(1, 9));
            assert(spec_u64_at(bytes, 18) == b.len() as u64);
            assert(bytes.len() == ENTRY_HEADER_LEN + b.len());
            assert(bytes.subrange(ENTRY_HEADER_LEN as int, bytes.len() as int) =~= b);
        },
        ValueView::Numeric(n) => {
            let word_val: u64 = match n {
                Numeric::Integer(v) => v as u64,
                Numeric::UnsignedInteger(v) => v,
                Numeric::Float(bits) => bits,
            };
            assert(val.subrange(1, 9) =~= spec_u64_to_le_bytes(word_val));
            assert(bytes.subrange(18, 26) =~= val.subrange(1, 9));
            assert(spec_u64_at(bytes, 18) == word_val);
            assert(bytes.len() == ENTRY_HEADER_LEN);
            match n {
                Numeric::Integer(v) => {
                    assert((v as u64) as i64 == v) by (bit_vector);
                },
                _ => {},
            }
        },
    }
}

} // verus!
