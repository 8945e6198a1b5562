//! Typed scalar values.
//!
//! A [`Value`] is a tagged scalar: null, a 64-bit integer, an IEEE-754 double
//! held as its bit pattern, a string, a byte string, or a timestamp. Equality
//! is by tag and content. Typed accessors fail with a type-mismatch error
//! when the tag disagrees. The host converts between `f64` and the stored bit
//! pattern at the API boundary; the core only stores and compares it.

use vstd::prelude::*;

use crate::error::{Error, UsageKind};

verus! {

/// A scalar value as contracts see it: strings and byte strings become
/// sequences, so equality of models is equality by tag and content.
pub enum ValueModel {
    Null,
    Int(i64),
    DoubleBits(u64),
    Str(Seq<char>),
    Bytes(Seq<u8>),
    Timestamp(i64),
}

/// A tagged scalar value.
#[derive(Debug)]
pub enum Value {
    Null,
    Int(i64),
    /// IEEE-754 bit pattern of a double.
    DoubleBits(u64),
    Str(String),
    Bytes(Vec<u8>),
    /// Milliseconds since the epoch.
    Timestamp(i64),
}

impl View for Value {
    type V = ValueModel;

    open spec fn view(&self) -> ValueModel {
        match self {
            Value::Null => ValueModel::Null,
            Value::Int(i) => ValueModel::Int(*i),
            Value::DoubleBits(b) => ValueModel::DoubleBits(*b),
            Value::Str(s) => ValueModel::Str(s@),
            Value::Bytes(b) => ValueModel::Bytes(b@),
            Value::Timestamp(t) => ValueModel::Timestamp(*t),
        }
    }
}

impl PartialEq for Value {
    /// Equality by tag and content.
    fn eq(&self, other: &Value) -> (r: bool) {
        match (self, other) {
            (Value::Null, Value::Null) => true,
            (Value::Int(a), Value::Int(b)) => a == b,
            (Value::DoubleBits(a), Value::DoubleBits(b)) => a == b,
            (Value::Str(a), Value::Str(b)) => *a == *b,
            (Value::Bytes(a), Value::Bytes(b)) => byte_seq_eq(a, b),
            (Value::Timestamp(a), Value::Timestamp(b)) => a == b,
            _ => false,
        }
    }
}

impl vstd::std_specs::cmp::PartialEqSpecImpl for Value {
    open spec fn obeys_eq_spec() -> bool {
        true
    }

    open spec fn eq_spec(&self, other: &Value) -> bool {
        self@ == other@
    }
}

/// Content equality of two byte strings.
fn byte_seq_eq(a: &Vec<u8>, b: &Vec<u8>) -> (r: bool)
    ensures
        r == (a@ == b@),
{
    if a.len() != b.len() {
        assert(a@ != b@) by {
            assert(a@.len() != b@.len());
        }
        return false;
    }
    let n = a.len();
    let mut i: usize = 0;
    while i < n
        invariant
            n == a.len() == b.len(),
            i <= n,
            forall|j: int| 0 <= j < i ==> a@[j] == b@[j],
        decreases n - i,
    {
        if a[i] != b[i] {
            return false;
        }
        i += 1;
    }
    proof {
        assert(a@ =~= b@);
    }
    true
}

/// Copies a byte string.
pub fn clone_bytes(v: &Vec<u8>) -> (r: Vec<u8>)
    ensures
        r@ == v@,
{
    let mut r: Vec<u8> = Vec::new();
    let mut i: usize = 0;
    while i < v.len()
        invariant
            i <= v.len(),
            r@ == v@.subrange(0, i as int),
        decreases v.len() - i,
    {
        r.push(v[i]);
        i += 1;
        proof {
            assert(r@ =~= v@.subrange(0, i as int));
        }
    }
    proof {
        assert(r@ =~= v@);
    }
    r
}

impl From<i64> for Value {
    fn from(v: i64) -> (r: Value) {
        Value::Int(v)
    }
}

impl vstd::std_specs::convert::FromSpecImpl<i64> for Value {
    open spec fn obeys_from_spec() -> bool {
        true
    }

    open spec fn from_spec(v: i64) -> Value {
        Value::Int(v)
    }
}

impl From<String> for Value {
    fn from(v: String) -> (r: Value) {
        Value::Str(v)
    }
}

impl vstd::std_specs::convert::FromSpecImpl<String> for Value {
    open spec fn obeys_from_spec() -> bool {
        true
    }

    open spec fn from_spec(v: String) -> Value {
        Value::Str(v)
    }
}

impl From<Vec<u8>> for Value {
    fn from(v: Vec<u8>) -> (r: Value) {
        Value::Bytes(v)
    }
}

impl vstd::std_specs::convert::FromSpecImpl<Vec<u8>> for Value {
    open spec fn obeys_from_spec() -> bool {
        true
    }

    open spec fn from_spec(v: Vec<u8>) -> Value {
        Value::Bytes(v)
    }
}

impl Value {
    /// The null value.
    pub fn null() -> (r: Value)
        ensures
            r@ == ValueModel::Null,
    {
        Value::Null
    }

    /// A double, from its IEEE-754 bit pattern.
    pub fn double_from_bits(bits: u64) -> (r: Value)
        ensures
            r@ == ValueModel::DoubleBits(bits),
    {
        Value::DoubleBits(bits)
    }

    /// A timestamp, in milliseconds since the epoch.
    pub fn timestamp(ms: i64) -> (r: Value)
        ensures
            r@ == ValueModel::Timestamp(ms),
    {
        Value::Timestamp(ms)
    }

    /// A string value copied from a borrowed string.
    pub fn from_str_value(s: &str) -> (r: Value)
        ensures
            r@ == ValueModel::Str(s@),
    {
        Value::Str(s.to_string())
    }

    pub fn is_null(&self) -> (r: bool)
        ensures
            r == (self@ is Null),
    {
        matches!(self, Value::Null)
    }

    pub fn is_i64(&self) -> (r: bool)
        ensures
            r == (self@ is Int),
    {
        matches!(self, Value::Int(_))
    }

    pub fn is_double(&self) -> (r: bool)
        ensures
            r == (self@ is DoubleBits),
    {
        matches!(self, Value::DoubleBits(_))
    }

    pub fn is_string(&self) -> (r: bool)
        ensures
            r == (self@ is Str),
    {
        matches!(self, Value::Str(_))
    }

    pub fn is_bytes(&self) -> (r: bool)
        ensures
            r == (self@ is Bytes),
    {
        matches!(self, Value::Bytes(_))
    }

    pub fn is_timestamp(&self) -> (r: bool)
        ensures
            r == (self@ is Timestamp),
    {
        matches!(self, Value::Timestamp(_))
    }

    /// The integer content, or a type-mismatch error on any other tag.
    pub fn as_i64(&self) -> (r: Result<i64, Error>)
        ensures
            match self@ {
                ValueModel::Int(i) => r == Ok::<i64, Error>(i),
                _ => r == Err::<i64, Error>(Error::Usage(UsageKind::TypeMismatch)),
            },
    {
        match self {
            Value::Int(i) => Ok(*i),
            _ => Err(Error::Usage(UsageKind::TypeMismatch)),
        }
    }

    /// The double content as its bit pattern, or a type-mismatch error.
    pub fn as_double_bits(&self) -> (r: Result<u64, Error>)
        ensures
            match self@ {
                ValueModel::DoubleBits(b) => r == Ok::<u64, Error>(b),
                _ => r == Err::<u64, Error>(Error::Usage(UsageKind::TypeMismatch)),
            },
    {
        match self {
            Value::DoubleBits(b) => Ok(*b),
            _ => Err(Error::Usage(UsageKind::TypeMismatch)),
        }
    }

    /// The string content, or a type-mismatch error.
    pub fn as_string(&self) -> (r: Result<String, Error>)
        ensures
            match self@ {
                ValueModel::Str(s) => r matches Ok(x) && x@ == s,
                _ => r == Err::<String, Error>(Error::Usage(UsageKind::TypeMismatch)),
            },
    {
        match self {
            Value::Str(s) => Ok(s.clone()),
            _ => Err(Error::Usage(UsageKind::TypeMismatch)),
        }
    }

    /// The byte-string content, or a type-mismatch error.
    pub fn as_bytes(&self) -> (r: Result<Vec<u8>, Error>)
        ensures
            match self@ {
                ValueModel::Bytes(b) => r matches Ok(x) && x@ == b,
                _ => r == Err::<Vec<u8>, Error>(Error::Usage(UsageKind::TypeMismatch)),
            },
    {
        match self {
            Value::Bytes(b) => Ok(clone_bytes(b)),
            _ => Err(Error::Usage(UsageKind::TypeMismatch)),
        }
    }

    /// The timestamp content, or a type-mismatch error.
    pub fn as_timestamp(&self) -> (r: Result<i64, Error>)
        ensures
            match self@ {
                ValueModel::Timestamp(t) => r == Ok::<i64, Error>(t),
                _ => r == Err::<i64, Error>(Error::Usage(UsageKind::TypeMismatch)),
            },
    {
        match self {
            Value::Timestamp(t) => Ok(*t),
            _ => Err(Error::Usage(UsageKind::TypeMismatch)),
        }
    }

    /// A copy with the same tag and content.
    pub fn duplicate(&self) -> (r: Value)
        ensures
            r@ == self@,
    {
        match self {
            Value::Null => Value::Null,
            Value::Int(i) => Value::Int(*i),
            Value::DoubleBits(b) => Value::DoubleBits(*b),
            Value::Str(s) => Value::Str(s.clone()),
            Value::Bytes(b) => Value::Bytes(clone_bytes(b)),
            Value::Timestamp(t) => Value::Timestamp(*t),
        }
    }
}

/// Round trip: rebuilding a value from its extracted content gives back a
/// value equal to the original, equality taken by tag and content. The
/// extracted content is what the matching typed accessor returns, and the
/// rebuilt value is what the matching constructor makes of it.
pub proof fn lemma_value_round_trip(v: Value)
    ensures
        v@ matches ValueModel::Int(i) ==> <Value as vstd::std_specs::convert::FromSpec<
            i64,
        >>::from_spec(i)@ == v@,
        v@ matches ValueModel::Str(s) ==> forall|x: String|
            x@ == s ==> (#[trigger] <Value as vstd::std_specs::convert::FromSpec<
                String,
            >>::from_spec(x))@ == v@,
        v@ matches ValueModel::Bytes(b) ==> forall|x: Vec<u8>|
            x@ == b ==> (#[trigger] <Value as vstd::std_specs::convert::FromSpec<
                Vec<u8>,
            >>::from_spec(x))@ == v@,
        v@ matches ValueModel::DoubleBits(bits) ==> (Value::DoubleBits(bits))@ == v@,
        v@ matches ValueModel::Timestamp(t) ==> (Value::Timestamp(t))@ == v@,
        v@ is Null ==> (Value::Null)@ == v@,
{
}

} // verus!
