//! Stored values: byte strings and tagged numerics, and the records that
//! carry them.
//!
//! A floating-point numeric is held as its IEEE-754 bit pattern, so the store
//! can keep, compare and persist it exactly. The store never computes with
//! floats itself: an operation that needs floating-point arithmetic hands the
//! caller a [`FloatRequest`] describing the computation, and the caller
//! answers with a [`FloatAnswer`]; everything around that exchange is
//! verified for every possible answer.

use vstd::prelude::*;

use crate::time::Timestamp;

verus! {

/// A numeric value. `Float` holds the IEEE-754 bit pattern of a 64-bit float.
#[derive(Clone, Copy, Debug, PartialEq, Eq, Structural)]
pub enum Numeric {
    Integer(i64),
    UnsignedInteger(u64),
    Float(u64),
}

/// A stored value: either an opaque byte string or a numeric.
#[derive(Clone, Debug, PartialEq)]
pub enum Value {
    Bytes(Vec<u8>),
    Numeric(Numeric),
}

/// The mathematical content of a [`Value`]: bytes become a sequence.
#[verifier::ext_equal]
pub enum ValueView {
    Bytes(Seq<u8>),
    Numeric(Numeric),
}

impl View for Value {
    type V = ValueView;

    open spec fn view(&self) -> ValueView {
        match self {
            Value::Bytes(b) => ValueView::Bytes(b@),
            Value::Numeric(n) => ValueView::Numeric(*n),
        }
    }
}

impl DeepView for Value {
    type V = ValueView;

    open spec fn deep_view(&self) -> ValueView {
        self.view()
    }
}

/// A stored record: the value, an optional expiration instant, and the
/// instant of the most recent mutation.
#[derive(Clone, Debug, PartialEq)]
pub struct Entry {
    pub value: Value,
    pub expiration: Option<Timestamp>,
    pub last_updated: Timestamp,
}

/// The mathematical content of an [`Entry`].
#[verifier::ext_equal]
pub struct EntryView {
    pub value: ValueView,
    pub expiration: Option<Timestamp>,
    pub last_updated: Timestamp,
}

impl View for Entry {
    type V = EntryView;

    open spec fn view(&self) -> EntryView {
        EntryView { value: self.value@, expiration: self.expiration, last_updated: self.last_updated }
    }
}

impl DeepView for Entry {
    type V = EntryView;

    open spec fn deep_view(&self) -> EntryView {
        self.view()
    }
}

/// The view of an optional record: `None` is a deletion or an absence.
pub open spec fn opt_entry_view(e: Option<Entry>) -> Option<EntryView> {
    match e {
        Some(entry) => Some(entry@),
        None => None,
    }
}

/// An error surfaced by the operation engine.
#[derive(Clone, Copy, Debug, PartialEq, Eq, Structural)]
pub enum KvError {
    /// A numeric command was applied to a key holding bytes.
    NotNumeric,
    /// A value failed validation: a float whose bit pattern is a NaN.
    InvalidValue,
}

/// True when `bits` is the pattern of an IEEE-754 64-bit NaN: all exponent
/// bits set and a non-zero fraction.
pub open spec fn spec_is_nan_bits(bits: u64) -> bool {
    &&& (bits >> 52) & 0x7ff == 0x7ff
    &&& bits & 0xf_ffff_ffff_ffff != 0
}

/// Decides [`spec_is_nan_bits`].
pub fn is_nan_bits(bits: u64) -> (r: bool)
    ensures
        r == spec_is_nan_bits(bits),
{
    (bits >> 52u64) & 0x7ff == 0x7ff && bits & 0xf_ffff_ffff_ffff != 0
}

/// The wrapping (two's-complement) reinterpretation of `v` as an `i64`.
pub open spec fn spec_wrap_to_i64(v: u64) -> i64 {
    v as i64
}

/// The wrapping (two's-complement) reinterpretation of `v` as a `u64`.
pub open spec fn spec_wrap_to_u64(v: i64) -> u64 {
    v as u64
}

/// `a + b` on `i64`, clamped to the representable range.
pub open spec fn spec_i64_saturating_add(a: i64, b: i64) -> i64 {
    if a + b > i64::MAX {
        i64::MAX
    } else if a + b < i64::MIN {
        i64::MIN
    } else {
        (a + b) as i64
    }
}

/// `a - b` on `i64`, clamped to the representable range.
pub open spec fn spec_i64_saturating_sub(a: i64, b: i64) -> i64 {
    if a - b > i64::MAX {
        i64::MAX
    } else if a - b < i64::MIN {
        i64::MIN
    } else {
        (a - b) as i64
    }
}

fn i64_saturating_add(a: i64, b: i64) -> (r: i64)
    ensures
        r == spec_i64_saturating_add(a, b),
{
    match a.checked_add(b) {
        Some(v) => v,
        None => if b >= 0 {
            i64::MAX
        } else {
            i64::MIN
        },
    }
}

fn i64_saturating_sub(a: i64, b: i64) -> (r: i64)
    ensures
        r == spec_i64_saturating_sub(a, b),
{
    match a.checked_sub(b) {
        Some(v) => v,
        None => if b >= 0 {
            i64::MIN
        } else {
            i64::MAX
        },
    }
}

impl Numeric {
    /// True when the numeric passes validation: every pattern but a NaN.
    pub open spec fn spec_is_valid(self) -> bool {
        match self {
            Numeric::Float(bits) => !spec_is_nan_bits(bits),
            _ => true,
        }
    }

    /// Accepts every numeric except a float whose bit pattern is a NaN.
    pub fn validate(self) -> (r: Result<Numeric, KvError>)
        ensures
            self.spec_is_valid() ==> r == Ok::<Numeric, KvError>(self),
            !self.spec_is_valid() ==> r == Err::<Numeric, KvError>(KvError::InvalidValue),
    {
        match self {
            Numeric::Float(bits) => {
                if is_nan_bits(bits) {
                    Err(KvError::InvalidValue)
                } else {
                    Ok(self)
                }
            },
            _ => Ok(self),
        }
    }

    /// The value of a non-float numeric as an `i64`. A too-large unsigned
    /// value clamps when `saturating` and wraps otherwise.
    pub open spec fn spec_as_i64_lossy(self, saturating: bool) -> i64
        recommends
            !(self is Float),
    {
        match self {
            Numeric::Integer(v) => v,
            Numeric::UnsignedInteger(v) => if saturating {
                if v > i64::MAX {
                    i64::MAX
                } else {
                    v as i64
                }
            } else {
                spec_wrap_to_i64(v)
            },
            Numeric::Float(bits) => 0,
        }
    }

    /// The value of a non-float numeric as a `u64`. A negative value clamps
    /// to zero when `saturating` and wraps otherwise.
    pub open spec fn spec_as_u64_lossy(self, saturating: bool) -> u64
        recommends
            !(self is Float),
    {
        match self {
            Numeric::Integer(v) => if saturating {
                if v < 0 {
                    0
                } else {
                    v as u64
                }
            } else {
                spec_wrap_to_u64(v)
            },
            Numeric::UnsignedInteger(v) => v,
            Numeric::Float(bits) => 0,
        }
    }

    fn as_i64_lossy(&self, saturating: bool) -> (r: i64)
        requires
            !(self is Float),
        ensures
            r == self.spec_as_i64_lossy(saturating),
    {
        match self {
            Numeric::Integer(v) => *v,
            Numeric::UnsignedInteger(v) => {
                if saturating {
                    if *v > i64::MAX as u64 {
                        i64::MAX
                    } else {
                        *v as i64
                    }
                } else {
                    #[verifier::truncate] (*v as i64)
                }
            },
            Numeric::Float(_) => 0,
        }
    }

    fn as_u64_lossy(&self, saturating: bool) -> (r: u64)
        requires
            !(self is Float),
        ensures
            r == self.spec_as_u64_lossy(saturating),
    {
        match self {
            Numeric::Integer(v) => {
                if saturating {
                    if *v < 0 {
                        0
                    } else {
                        *v as u64
                    }
                } else {
                    #[verifier::truncate] (*v as u64)
                }
            },
            Numeric::UnsignedInteger(v) => *v,
            Numeric::Float(_) => 0,
        }
    }
}

/// A floating-point computation the store needs but cannot perform itself.
/// The caller evaluates it with ordinary IEEE-754 arithmetic and answers
/// with the matching [`FloatAnswer`] variant.
#[derive(Clone, Copy, Debug, PartialEq, Eq, Structural)]
pub enum FloatRequest {
    /// Cast the float with this bit pattern to an `i64` (saturating cast).
    CastToI64 { bits: u64 },
    /// Cast the float with this bit pattern to a `u64` (saturating cast).
    CastToU64 { bits: u64 },
    /// Convert `existing` to a float, then add or subtract the float with
    /// bit pattern `amount_bits`, and return the result's bit pattern.
    Arith { existing: Numeric, amount_bits: u64, subtract: bool },
}

/// The caller's answer to a [`FloatRequest`].
#[derive(Clone, Copy, Debug, PartialEq, Eq, Structural)]
pub enum FloatAnswer {
    SignedCast(i64),
    UnsignedCast(u64),
    Bits(u64),
}

/// The result of combining two numerics: either a finished value, or a
/// description of the floating-point step the caller must supply.
#[derive(Clone, Copy, Debug, PartialEq, Eq, Structural)]
pub enum NumericOutcome {
    Resolved(Numeric),
    NeedsFloat(FloatRequest),
}

/// What `increment` and `decrement` produce once every needed value is an
/// integer: the amount's variant dictates the result's variant.
pub open spec fn spec_combined_integer(
    existing_cast: int,
    amount: Numeric,
    saturating: bool,
    subtract: bool,
) -> Numeric
    recommends
        !(amount is Float),
{
    match amount {
        Numeric::Integer(a) => {
            let e = existing_cast as i64;
            Numeric::Integer(
                if saturating {
                    if subtract {
                        spec_i64_saturating_sub(e, a)
                    } else {
                        spec_i64_saturating_add(e, a)
                    }
                } else {
                    if subtract {
                        e.wrapping_sub(a)
                    } else {
                        e.wrapping_add(a)
                    }
                },
            )
        },
        Numeric::UnsignedInteger(a) => {
            let e = existing_cast as u64;
            Numeric::UnsignedInteger(
                if saturating {
                    if subtract {
                        if e - a < 0 {
                            0
                        } else {
                            (e - a) as u64
                        }
                    } else {
                        if e + a > u64::MAX {
                            u64::MAX
                        } else {
                            (e + a) as u64
                        }
                    }
                } else {
                    if subtract {
                        e.wrapping_sub(a)
                    } else {
                        e.wrapping_add(a)
                    }
                },
            )
        },
        Numeric::Float(_) => amount,
    }
}

/// What `increment` or `decrement` returns, as a function of its inputs.
pub open spec fn spec_combine_numeric(
    existing: Numeric,
    amount: Numeric,
    saturating: bool,
    subtract: bool,
) -> NumericOutcome {
    match amount {
        Numeric::Integer(_) => {
            match existing {
                Numeric::Float(bits) => NumericOutcome::NeedsFloat(
                    FloatRequest::CastToI64 { bits },
                ),
                _ => NumericOutcome::Resolved(
                    spec_combined_integer(
                        existing.spec_as_i64_lossy(saturating) as int,
                        amount,
                        saturating,
                        subtract,
                    ),
                ),
            }
        },
        Numeric::UnsignedInteger(_) => {
            match existing {
                Numeric::Float(bits) => NumericOutcome::NeedsFloat(
                    FloatRequest::CastToU64 { bits },
                ),
                _ => NumericOutcome::Resolved(
                    spec_combined_integer(
                        existing.spec_as_u64_lossy(saturating) as int,
                        amount,
                        saturating,
                        subtract,
                    ),
                ),
            }
        },
        Numeric::Float(amount_bits) => NumericOutcome::NeedsFloat(
            FloatRequest::Arith { existing, amount_bits, subtract },
        ),
    }
}

fn combine_numeric(existing: &Numeric, amount: &Numeric, saturating: bool, subtract: bool) -> (r:
    NumericOutcome)
    ensures
        r == spec_combine_numeric(*existing, *amount, saturating, subtract),
{
    match amount {
        Numeric::Integer(a) => {
            match existing {
                Numeric::Float(bits) => NumericOutcome::NeedsFloat(
                    FloatRequest::CastToI64 { bits: *bits },
                ),
                _ => {
                    let e = existing.as_i64_lossy(saturating);
                    let v = if saturating {
                        if subtract {
                            i64_saturating_sub(e, *a)
                        } else {
                            i64_saturating_add(e, *a)
                        }
                    } else {
                        if subtract {
                            e.wrapping_sub(*a)
                        } else {
                            e.wrapping_add(*a)
                        }
                    };
                    NumericOutcome::Resolved(Numeric::Integer(v))
                },
            }
        },
        Numeric::UnsignedInteger(a) => {
            match existing {
                Numeric::Float(bits) => NumericOutcome::NeedsFloat(
                    FloatRequest::CastToU64 { bits: *bits },
                ),
                _ => {
                    let e = existing.as_u64_lossy(saturating);
                    let v = if saturating {
                        if subtract {
                            e.saturating_sub(*a)
                        } else {
                            e.saturating_add(*a)
                        }
                    } else {
                        if subtract {
                            e.wrapping_sub(*a)
                        } else {
                            e.wrapping_add(*a)
                        }
                    };
                    NumericOutcome::Resolved(Numeric::UnsignedInteger(v))
                },
            }
        },
        Numeric::Float(amount_bits) => NumericOutcome::NeedsFloat(
            FloatRequest::Arith {
                existing: *existing,
                amount_bits: *amount_bits,
                subtract,
            },
        ),
    }
}

/// `existing + amount`, where the amount's variant dictates the result's
/// variant; clamping when `saturating` and wrapping otherwise. Yields a
/// [`FloatRequest`] when a floating-point step is needed.
pub fn increment(existing: &Numeric, amount: &Numeric, saturating: bool) -> (r: NumericOutcome)
    ensures
        r == spec_combine_numeric(*existing, *amount, saturating, false),
{
    combine_numeric(existing, amount, saturating, false)
}

/// `existing - amount`; the mirror image of [`increment`].
pub fn decrement(existing: &Numeric, amount: &Numeric, saturating: bool) -> (r: NumericOutcome)
    ensures
        r == spec_combine_numeric(*existing, *amount, saturating, true),
{
    combine_numeric(existing, amount, saturating, true)
}

/// What the finished numeric is, once the caller has answered a
/// [`FloatRequest`] with `answer`.
pub open spec fn spec_resolved_numeric(
    amount: Numeric,
    saturating: bool,
    subtract: bool,
    answer: FloatAnswer,
) -> Numeric {
    match answer {
        FloatAnswer::SignedCast(e) => spec_combined_integer(e as int, amount, saturating, subtract),
        FloatAnswer::UnsignedCast(e) => spec_combined_integer(
            e as int,
            amount,
            saturating,
            subtract,
        ),
        FloatAnswer::Bits(bits) => Numeric::Float(bits),
    }
}

/// True when `answer`'s variant is the one the request for this `amount`
/// asks for.
pub open spec fn spec_answer_matches(amount: Numeric, answer: FloatAnswer) -> bool {
    match amount {
        Numeric::Integer(_) => answer is SignedCast,
        Numeric::UnsignedInteger(_) => answer is UnsignedCast,
        Numeric::Float(_) => answer is Bits,
    }
}

/// Finishes an increment or decrement whose [`FloatRequest`] the caller has
/// answered: integer arithmetic on a cast answer, the given bit pattern on
/// an arithmetic answer.
pub fn resolve_numeric(amount: &Numeric, saturating: bool, subtract: bool, answer: FloatAnswer) -> (
    r: Numeric)
    requires
        spec_answer_matches(*amount, answer),
    ensures
        r == spec_resolved_numeric(*amount, saturating, subtract, answer),
{
    match answer {
        FloatAnswer::SignedCast(e) => {
            match amount {
                Numeric::Integer(a) => {
                    let v = if saturating {
                        if subtract {
                            i64_saturating_sub(e, *a)
                        } else {
                            i64_saturating_add(e, *a)
                        }
                    } else {
                        if subtract {
                            e.wrapping_sub(*a)
                        } else {
                            e.wrapping_add(*a)
                        }
                    };
                    Numeric::Integer(v)
                },
                _ => Numeric::Integer(0),
            }
        },
        FloatAnswer::UnsignedCast(e) => {
            match amount {
                Numeric::UnsignedInteger(a) => {
                    let v = if saturating {
                        if subtract {
                            e.saturating_sub(*a)
                        } else {
                            e.saturating_add(*a)
                        }
                    } else {
                        if subtract {
                            e.wrapping_sub(*a)
                        } else {
                            e.wrapping_add(*a)
                        }
                    };
                    Numeric::UnsignedInteger(v)
                },
                _ => Numeric::UnsignedInteger(0),
            }
        },
        FloatAnswer::Bits(bits) => Numeric::Float(bits),
    }
}

/// A copy of a byte vector with the same content.
pub fn clone_bytes(v: &Vec<u8>) -> (r: Vec<u8>)
    ensures
        r@ == v@,
{
    let mut out: Vec<u8> = Vec::new();
    let mut i: usize = 0;
    while i < v.len()
        invariant
            i <= v@.len(),
            out@ == v@.subrange(0, i as int),
        decreases v@.len() - i,
    {
        out.push(v[i]);
        i = i + 1;
        proof {
            assert(out@ =~= v@.subrange(0, i as int));
        }
    }
    proof {
        assert(out@ =~= v@);
    }
    out
}

impl Value {
    /// True when the value passes validation.
    pub open spec fn spec_is_valid(self) -> bool {
        match self {
            Value::Numeric(n) => n.spec_is_valid(),
            Value::Bytes(_) => true,
        }
    }

    /// Accepts every byte value, and every numeric but a NaN float.
    pub fn validate(self) -> (r: Result<Value, KvError>)
        ensures
            self.spec_is_valid() ==> r == Ok::<Value, KvError>(self),
            !self.spec_is_valid() ==> r == Err::<Value, KvError>(KvError::InvalidValue),
    {
        match self {
            Value::Numeric(n) => {
                match n.validate() {
                    Ok(_) => Ok(self),
                    Err(e) => Err(e),
                }
            },
            Value::Bytes(_) => Ok(self),
        }
    }

    /// A copy of the value with the same content.
    pub fn duplicate(&self) -> (r: Value)
        ensures
            r@ == self@,
    {
        match self {
            Value::Bytes(b) => Value::Bytes(clone_bytes(b)),
            Value::Numeric(n) => Value::Numeric(*n),
        }
    }
}

impl Entry {
    /// A copy of the record with the same content.
    pub fn duplicate(&self) -> (r: Entry)
        ensures
            r@ == self@,
    {
        Entry {
            value: self.value.duplicate(),
            expiration: self.expiration,
            last_updated: self.last_updated,
        }
    }
}

/// A copy of an optional record with the same content.
pub fn duplicate_entry_option(e: &Option<Entry>) -> (r: Option<Entry>)
    ensures
        opt_entry_view(r) == opt_entry_view(*e),
        r.deep_view() == e.deep_view(),
{
    match e {
        Some(entry) => Some(entry.duplicate()),
        None => None,
    }
}

impl crate::kvmap::DuplicableValue for Option<Entry> {
    fn duplicate_value(&self) -> (r: Option<Entry>)
        ensures
            r.deep_view() == self.deep_view(),
    {
        duplicate_entry_option(self)
    }
}

} // verus!
