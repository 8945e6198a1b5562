//! A total order on values and row keys.
//!
//! Partitions order rows by primary key. Keys compare lexicographically,
//! part by part; parts of one tag compare by content (integers numerically,
//! strings and byte strings lexicographically by code point), and parts of
//! different tags compare by a fixed tag rank.

use vstd::prelude::*;
use vstd::string::StrSliceExecFns;

use crate::value::{Value, ValueModel};

verus! {

/// Strict lexicographic order on code-point sequences.
pub open spec fn lex_lt(a: Seq<u32>, b: Seq<u32>) -> bool
    decreases a.len(),
{
    if b.len() == 0 {
        false
    } else if a.len() == 0 {
        true
    } else if a[0] != b[0] {
        a[0] < b[0]
    } else {
        lex_lt(a.skip(1), b.skip(1))
    }
}

/// A sequence never precedes itself.
pub proof fn lemma_lex_lt_irrefl(a: Seq<u32>)
    ensures
        !lex_lt(a, a),
    decreases a.len(),
{
    if a.len() > 0 {
        lemma_lex_lt_irrefl(a.skip(1));
    }
}

/// Of two distinct sequences, one precedes the other.
pub proof fn lemma_lex_lt_total(a: Seq<u32>, b: Seq<u32>)
    requires
        a != b,
    ensures
        lex_lt(a, b) || lex_lt(b, a),
    decreases a.len(),
{
    if a.len() == 0 {
        if b.len() == 0 {
            assert(a =~= b);
        }
    } else if b.len() > 0 && a[0] == b[0] {
        if a.skip(1) == b.skip(1) {
            assert(a =~= seq![a[0]] + a.skip(1));
            assert(b =~= seq![b[0]] + b.skip(1));
        }
        lemma_lex_lt_total(a.skip(1), b.skip(1));
    }
}

/// The order is transitive.
pub proof fn lemma_lex_lt_trans(a: Seq<u32>, b: Seq<u32>, c: Seq<u32>)
    requires
        lex_lt(a, b),
        lex_lt(b, c),
    ensures
        lex_lt(a, c),
    decreases a.len(),
{
    if a.len() > 0 && b.len() > 0 && c.len() > 0 {
        if a[0] == b[0] && b[0] == c[0] {
            lemma_lex_lt_trans(a.skip(1), b.skip(1), c.skip(1));
        }
    }
}

/// Prefixes that agree do not decide the order.
pub proof fn lemma_lex_lt_advance(a: Seq<u32>, b: Seq<u32>, i: int)
    requires
        0 <= i <= a.len(),
        i <= b.len(),
        forall|j: int| 0 <= j < i ==> a[j] == b[j],
    ensures
        lex_lt(a, b) == lex_lt(a.skip(i), b.skip(i)),
    decreases i,
{
    if i > 0 {
        assert forall|j: int| 0 <= j < i - 1 implies a.skip(1)[j] == b.skip(1)[j] by {
            assert(a.skip(1)[j] == a[j + 1]);
            assert(b.skip(1)[j] == b[j + 1]);
        }
        lemma_lex_lt_advance(a.skip(1), b.skip(1), i - 1);
        assert(a.skip(1).skip(i - 1) =~= a.skip(i));
        assert(b.skip(1).skip(i - 1) =~= b.skip(i));
    } else {
        assert(a.skip(0) =~= a);
        assert(b.skip(0) =~= b);
    }
}

/// A string as the code points it compares by.
pub open spec fn chars_key(s: Seq<char>) -> Seq<u32> {
    s.map_values(|c: char| c as u32)
}

/// A byte string as the code points it compares by.
pub open spec fn bytes_key(s: Seq<u8>) -> Seq<u32> {
    s.map_values(|b: u8| b as u32)
}

/// The rank deciding between values of different tags.
pub open spec fn tag_rank(v: ValueModel) -> int {
    match v {
        ValueModel::Null => 0,
        ValueModel::Int(_) => 1,
        ValueModel::DoubleBits(_) => 2,
        ValueModel::Str(_) => 3,
        ValueModel::Bytes(_) => 4,
        ValueModel::Timestamp(_) => 5,
    }
}

/// Strict order on single values: tag rank first, content within one tag.
pub open spec fn value_lt(a: ValueModel, b: ValueModel) -> bool {
    if tag_rank(a) != tag_rank(b) {
        tag_rank(a) < tag_rank(b)
    } else {
        match (a, b) {
            (ValueModel::Int(x), ValueModel::Int(y)) => x < y,
            (ValueModel::DoubleBits(x), ValueModel::DoubleBits(y)) => x < y,
            (ValueModel::Str(x), ValueModel::Str(y)) => lex_lt(chars_key(x), chars_key(y)),
            (ValueModel::Bytes(x), ValueModel::Bytes(y)) => lex_lt(bytes_key(x), bytes_key(y)),
            (ValueModel::Timestamp(x), ValueModel::Timestamp(y)) => x < y,
            _ => false,
        }
    }
}

/// Casting a character to its code point loses nothing.
proof fn char_cast_injective(c1: char, c2: char)
    requires
        c1 as u32 == c2 as u32,
    ensures
        c1 == c2,
{
}

/// Casting a byte to a code point loses nothing.
proof fn byte_cast_injective(b1: u8, b2: u8)
    requires
        b1 as u32 == b2 as u32,
    ensures
        b1 == b2,
{
}

/// Equal code points come from equal characters.
proof fn lemma_chars_key_injective(x: Seq<char>, y: Seq<char>)
    requires
        chars_key(x) == chars_key(y),
    ensures
        x == y,
{
    assert(chars_key(x).len() == x.len());
    assert(chars_key(y).len() == y.len());
    assert forall|i: int| 0 <= i < x.len() implies x[i] == y[i] by {
        assert(chars_key(x)[i] == x[i] as u32);
        assert(chars_key(y)[i] == y[i] as u32);
        char_cast_injective(x[i], y[i]);
    }
    assert(x =~= y);
}

/// Equal code points come from equal bytes.
proof fn lemma_bytes_key_injective(x: Seq<u8>, y: Seq<u8>)
    requires
        bytes_key(x) == bytes_key(y),
    ensures
        x == y,
{
    assert(bytes_key(x).len() == x.len());
    assert(bytes_key(y).len() == y.len());
    assert forall|i: int| 0 <= i < x.len() implies x[i] == y[i] by {
        assert(bytes_key(x)[i] == x[i] as u32);
        assert(bytes_key(y)[i] == y[i] as u32);
        byte_cast_injective(x[i], y[i]);
    }
    assert(x =~= y);
}

/// A value never precedes itself.
pub proof fn lemma_value_lt_irrefl(a: ValueModel)
    ensures
        !value_lt(a, a),
{
    match a {
        ValueModel::Str(x) => lemma_lex_lt_irrefl(chars_key(x)),
        ValueModel::Bytes(x) => lemma_lex_lt_irrefl(bytes_key(x)),
        _ => (),
    }
}

/// Of two distinct values, one precedes the other.
pub proof fn lemma_value_lt_total(a: ValueModel, b: ValueModel)
    requires
        a != b,
    ensures
        value_lt(a, b) || value_lt(b, a),
{
    match (a, b) {
        (ValueModel::Str(x), ValueModel::Str(y)) => {
            if chars_key(x) == chars_key(y) {
                lemma_chars_key_injective(x, y);
            }
            lemma_lex_lt_total(chars_key(x), chars_key(y));
        },
        (ValueModel::Bytes(x), ValueModel::Bytes(y)) => {
            if bytes_key(x) == bytes_key(y) {
                lemma_bytes_key_injective(x, y);
            }
            lemma_lex_lt_total(bytes_key(x), bytes_key(y));
        },
        _ => (),
    }
}

/// The order on values is transitive.
pub proof fn lemma_value_lt_trans(a: ValueModel, b: ValueModel, c: ValueModel)
    requires
        value_lt(a, b),
        value_lt(b, c),
    ensures
        value_lt(a, c),
{
    match (a, b, c) {
        (ValueModel::Str(x), ValueModel::Str(y), ValueModel::Str(z)) => {
            lemma_lex_lt_trans(chars_key(x), chars_key(y), chars_key(z));
        },
        (ValueModel::Bytes(x), ValueModel::Bytes(y), ValueModel::Bytes(z)) => {
            lemma_lex_lt_trans(bytes_key(x), bytes_key(y), bytes_key(z));
        },
        _ => (),
    }
}

/// Strict lexicographic order on row keys, part by part.
pub open spec fn key_lt(a: Seq<ValueModel>, b: Seq<ValueModel>) -> bool
    decreases a.len(),
{
    if b.len() == 0 {
        false
    } else if a.len() == 0 {
        true
    } else if a[0] != b[0] {
        value_lt(a[0], b[0])
    } else {
        key_lt(a.skip(1), b.skip(1))
    }
}

/// A key never precedes itself.
pub proof fn lemma_key_lt_irrefl(a: Seq<ValueModel>)
    ensures
        !key_lt(a, a),
    decreases a.len(),
{
    if a.len() > 0 {
        lemma_key_lt_irrefl(a.skip(1));
    }
}

/// Of two distinct keys, one precedes the other.
pub proof fn lemma_key_lt_total(a: Seq<ValueModel>, b: Seq<ValueModel>)
    requires
        a != b,
    ensures
        key_lt(a, b) || key_lt(b, a),
    decreases a.len(),
{
    if a.len() == 0 {
        if b.len() == 0 {
            assert(a =~= b);
        }
    } else if b.len() > 0 {
        if a[0] != b[0] {
            lemma_value_lt_total(a[0], b[0]);
        } else {
            if a.skip(1) == b.skip(1) {
                assert(a =~= seq![a[0]] + a.skip(1));
                assert(b =~= seq![b[0]] + b.skip(1));
            }
            lemma_key_lt_total(a.skip(1), b.skip(1));
        }
    }
}

/// The order on keys is transitive.
pub proof fn lemma_key_lt_trans(a: Seq<ValueModel>, b: Seq<ValueModel>, c: Seq<ValueModel>)
    requires
        key_lt(a, b),
        key_lt(b, c),
    ensures
        key_lt(a, c),
    decreases a.len(),
{
    if a.len() > 0 && b.len() > 0 && c.len() > 0 {
        if a[0] == b[0] && b[0] == c[0] {
            lemma_key_lt_trans(a.skip(1), b.skip(1), c.skip(1));
        } else if a[0] == b[0] {
            // b and c decide at the head; a shares b's head.
        } else if b[0] == c[0] {
            // a and b decide at the head; c shares b's head.
        } else {
            lemma_value_lt_trans(a[0], b[0], c[0]);
            if a[0] == c[0] {
                lemma_value_lt_irrefl(a[0]);
            }
        }
    }
}

/// Prefixes that agree do not decide the order.
pub proof fn lemma_key_lt_advance(a: Seq<ValueModel>, b: Seq<ValueModel>, i: int)
    requires
        0 <= i <= a.len(),
        i <= b.len(),
        forall|j: int| 0 <= j < i ==> a[j] == b[j],
    ensures
        key_lt(a, b) == key_lt(a.skip(i), b.skip(i)),
    decreases i,
{
    if i > 0 {
        assert forall|j: int| 0 <= j < i - 1 implies a.skip(1)[j] == b.skip(1)[j] by {
            assert(a.skip(1)[j] == a[j + 1]);
            assert(b.skip(1)[j] == b[j + 1]);
        }
        lemma_key_lt_advance(a.skip(1), b.skip(1), i - 1);
        assert(a.skip(1).skip(i - 1) =~= a.skip(i));
        assert(b.skip(1).skip(i - 1) =~= b.skip(i));
    } else {
        assert(a.skip(0) =~= a);
        assert(b.skip(0) =~= b);
    }
}

/// Whether one borrowed string precedes another.
fn str_lt(a: &str, b: &str) -> (r: bool)
    ensures
        r == lex_lt(chars_key(a@), chars_key(b@)),
{
    let la = a.unicode_len();
    let lb = b.unicode_len();
    let mut i: usize = 0;
    loop
        invariant
            la == a@.len() && lb == b@.len(),
            i <= la && i <= lb,
            forall|j: int| 0 <= j < i ==> chars_key(a@)[j] == chars_key(b@)[j],
        ensures
            lex_lt(chars_key(a@), chars_key(b@)) == (if i < la && i < lb {
                (a@[i as int] as u32) < (b@[i as int] as u32)
            } else {
                i >= la && i < lb
            }),
        decreases la - i,
    {
        proof {
            lemma_key_helper_chars(a@, b@, i as int);
        }
        if i >= la || i >= lb {
            break ;
        }
        let ca = a.get_char(i);
        let cb = b.get_char(i);
        if ca != cb {
            proof {
                assert(chars_key(a@)[i as int] == a@[i as int] as u32);
                assert(chars_key(b@)[i as int] == b@[i as int] as u32);
            }
            break ;
        }
        proof {
            assert(chars_key(a@)[i as int] == a@[i as int] as u32);
            assert(chars_key(b@)[i as int] == b@[i as int] as u32);
        }
        i += 1;
    }
    if i < la && i < lb {
        let ca = a.get_char(i);
        let cb = b.get_char(i);
        (ca as u32) < (cb as u32)
    } else {
        i >= la && i < lb
    }
}

/// Unfolds the lexicographic order at an agreed prefix of two strings.
proof fn lemma_key_helper_chars(a: Seq<char>, b: Seq<char>, i: int)
    requires
        0 <= i <= a.len(),
        i <= b.len(),
        forall|j: int| 0 <= j < i ==> chars_key(a)[j] == chars_key(b)[j],
    ensures
        lex_lt(chars_key(a), chars_key(b)) == (if i < a.len() && i < b.len() {
            if chars_key(a)[i] != chars_key(b)[i] {
                chars_key(a)[i] < chars_key(b)[i]
            } else {
                lex_lt(chars_key(a).skip(i + 1), chars_key(b).skip(i + 1))
            }
        } else {
            i >= a.len() && i < b.len()
        }),
{
    let x = chars_key(a);
    let y = chars_key(b);
    lemma_lex_lt_advance(x, y, i);
    if i < a.len() && i < b.len() {
        assert(x.skip(i)[0] == x[i]);
        assert(y.skip(i)[0] == y[i]);
        if x[i] == y[i] {
            assert(x.skip(i).skip(1) =~= x.skip(i + 1));
            assert(y.skip(i).skip(1) =~= y.skip(i + 1));
        }
    }
}

/// Whether one value precedes another.
pub fn value_lt_exec(a: &Value, b: &Value) -> (r: bool)
    ensures
        r == value_lt(a@, b@),
{
    match (a, b) {
        (Value::Null, Value::Null) => false,
        (Value::Int(x), Value::Int(y)) => *x < *y,
        (Value::DoubleBits(x), Value::DoubleBits(y)) => *x < *y,
        (Value::Str(x), Value::Str(y)) => str_lt(x.as_str(), y.as_str()),
        (Value::Bytes(x), Value::Bytes(y)) => bytes_lt(x, y),
        (Value::Timestamp(x), Value::Timestamp(y)) => *x < *y,
        _ => {
            let ra = tag_rank_exec(a);
            let rb = tag_rank_exec(b);
            ra < rb
        },
    }
}

/// The rank deciding between values of different tags, executably.
fn tag_rank_exec(v: &Value) -> (r: u8)
    ensures
        r as int == tag_rank(v@),
{
    match v {
        Value::Null => 0,
        Value::Int(_) => 1,
        Value::DoubleBits(_) => 2,
        Value::Str(_) => 3,
        Value::Bytes(_) => 4,
        Value::Timestamp(_) => 5,
    }
}

/// Whether one byte string precedes another.
fn bytes_lt(a: &Vec<u8>, b: &Vec<u8>) -> (r: bool)
    ensures
        r == lex_lt(bytes_key(a@), bytes_key(b@)),
{
    let la = a.len();
    let lb = b.len();
    let mut i: usize = 0;
    loop
        invariant
            la == a@.len() && lb == b@.len(),
            i <= la && i <= lb,
            forall|j: int| 0 <= j < i ==> bytes_key(a@)[j] == bytes_key(b@)[j],
        ensures
            lex_lt(bytes_key(a@), bytes_key(b@)) == (if i < la && i < lb {
                (a@[i as int] as u32) < (b@[i as int] as u32)
            } else {
                i >= la && i < lb
            }),
        decreases la - i,
    {
        proof {
            lemma_key_helper_bytes(a@, b@, i as int);
        }
        if i >= la || i >= lb {
            break ;
        }
        let ca = a[i];
        let cb = b[i];
        if ca != cb {
            proof {
                assert(bytes_key(a@)[i as int] == a@[i as int] as u32);
                assert(bytes_key(b@)[i as int] == b@[i as int] as u32);
            }
            break ;
        }
        proof {
            assert(bytes_key(a@)[i as int] == a@[i as int] as u32);
            assert(bytes_key(b@)[i as int] == b@[i as int] as u32);
        }
        i += 1;
    }
    if i < la && i < lb {
        (a[i] as u32) < (b[i] as u32)
    } else {
        i >= la && i < lb
    }
}

/// Unfolds the lexicographic order at an agreed prefix of two byte strings.
proof fn lemma_key_helper_bytes(a: Seq<u8>, b: Seq<u8>, i: int)
    requires
        0 <= i <= a.len(),
        i <= b.len(),
        forall|j: int| 0 <= j < i ==> bytes_key(a)[j] == bytes_key(b)[j],
    ensures
        lex_lt(bytes_key(a), bytes_key(b)) == (if i < a.len() && i < b.len() {
            if bytes_key(a)[i] != bytes_key(b)[i] {
                bytes_key(a)[i] < bytes_key(b)[i]
            } else {
                lex_lt(bytes_key(a).skip(i + 1), bytes_key(b).skip(i + 1))
            }
        } else {
            i >= a.len() && i < b.len()
        }),
{
    let x = bytes_key(a);
    let y = bytes_key(b);
    lemma_lex_lt_advance(x, y, i);
    if i < a.len() && i < b.len() {
        assert(x.skip(i)[0] == x[i]);
        assert(y.skip(i)[0] == y[i]);
        if x[i] == y[i] {
            assert(x.skip(i).skip(1) =~= x.skip(i + 1));
            assert(y.skip(i).skip(1) =~= y.skip(i + 1));
        }
    }
}

/// The key view of a vector of values.
pub open spec fn key_view(k: Seq<Value>) -> Seq<ValueModel> {
    k.map_values(|v: Value| v@)
}

/// Whether one row key precedes another.
pub fn key_lt_exec(a: &Vec<Value>, b: &Vec<Value>) -> (r: bool)
    ensures
        r == key_lt(key_view(a@), key_view(b@)),
{
    let la = a.len();
    let lb = b.len();
    let mut i: usize = 0;
    loop
        invariant
            la == a@.len() && lb == b@.len(),
            i <= la && i <= lb,
            forall|j: int| 0 <= j < i ==> key_view(a@)[j] == key_view(b@)[j],
        ensures
            key_lt(key_view(a@), key_view(b@)) == (if i < la && i < lb {
                value_lt(a@[i as int]@, b@[i as int]@)
            } else {
                i >= la && i < lb
            }),
        decreases la - i,
    {
        proof {
            lemma_key_helper_values(a@, b@, i as int);
        }
        if i >= la || i >= lb {
            break ;
        }
        if !(&a[i] == &b[i]) {
            proof {
                assert(key_view(a@)[i as int] == a@[i as int]@);
                assert(key_view(b@)[i as int] == b@[i as int]@);
            }
            break ;
        }
        proof {
            assert(key_view(a@)[i as int] == a@[i as int]@);
            assert(key_view(b@)[i as int] == b@[i as int]@);
        }
        i += 1;
    }
    if i < la && i < lb {
        value_lt_exec(&a[i], &b[i])
    } else {
        i >= la && i < lb
    }
}

/// Unfolds the key order at an agreed prefix.
proof fn lemma_key_helper_values(a: Seq<Value>, b: Seq<Value>, i: int)
    requires
        0 <= i <= a.len(),
        i <= b.len(),
        forall|j: int| 0 <= j < i ==> key_view(a)[j] == key_view(b)[j],
    ensures
        key_lt(key_view(a), key_view(b)) == (if i < a.len() && i < b.len() {
            if key_view(a)[i] != key_view(b)[i] {
                value_lt(key_view(a)[i], key_view(b)[i])
            } else {
                key_lt(key_view(a).skip(i + 1), key_view(b).skip(i + 1))
            }
        } else {
            i >= a.len() && i < b.len()
        }),
{
    let x = key_view(a);
    let y = key_view(b);
    lemma_key_lt_advance(x, y, i);
    if i < a.len() && i < b.len() {
        assert(x.skip(i)[0] == x[i]);
        assert(y.skip(i)[0] == y[i]);
        if x[i] == y[i] {
            assert(x.skip(i).skip(1) =~= x.skip(i + 1));
            assert(y.skip(i).skip(1) =~= y.skip(i + 1));
        }
    }
}

/// Whether two row keys are equal part for part.
pub fn key_eq_exec(a: &Vec<Value>, b: &Vec<Value>) -> (r: bool)
    ensures
        r == (key_view(a@) == key_view(b@)),
{
    if a.len() != b.len() {
        proof {
            assert(key_view(a@).len() != key_view(b@).len());
        }
        return false;
    }
    let n = a.len();
    let mut i: usize = 0;
    while i < n
        invariant
            n == a@.len() && n == b@.len(),
            i <= n,
            forall|j: int| 0 <= j < i ==> key_view(a@)[j] == key_view(b@)[j],
        decreases n - i,
    {
        if !(&a[i] == &b[i]) {
            proof {
                assert(key_view(a@)[i as int] == a@[i as int]@);
                assert(key_view(b@)[i as int] == b@[i as int]@);
            }
            return false;
        }
        proof {
            assert(key_view(a@)[i as int] == a@[i as int]@);
            assert(key_view(b@)[i as int] == b@[i as int]@);
        }
        i += 1;
    }
    proof {
        assert(key_view(a@) =~= key_view(b@));
    }
    true
}

} // verus!
