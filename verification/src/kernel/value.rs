//! Primitive committed values: the atoms facts are built from. Real quantities are fixed-point
//! integers, so committed state carries no floating-point nondeterminism.

use crate::kernel::identity::EntityId;
use vstd::prelude::*;

verus! {

/// A primitive committed value.
#[derive(Clone, Copy, PartialEq, Eq, PartialOrd, Ord, Hash, Debug, Structural)]
pub enum Value {
    /// A 64-bit signed integer (fixed-point under the owning domain's scale).
    Int(i64),
    /// A boolean flag.
    Bool(bool),
    /// A reference to another entity.
    Entity(EntityId),
}

/// The position of a value's variant in the value order: integers, then flags, then entities.
pub open spec fn value_rank(v: Value) -> int {
    match v {
        Value::Int(_) => 0,
        Value::Bool(_) => 1,
        Value::Entity(_) => 2,
    }
}

/// The strict total order on values: by variant, then by payload.
pub open spec fn value_lt(a: Value, b: Value) -> bool {
    match (a, b) {
        (Value::Int(x), Value::Int(y)) => x < y,
        (Value::Bool(x), Value::Bool(y)) => !x && y,
        (Value::Entity(x), Value::Entity(y)) => x.0 < y.0,
        _ => value_rank(a) < value_rank(b),
    }
}

/// The little-endian byte `k` (0..8) of a 64-bit word.
pub open spec fn le_byte(x: u64, k: u64) -> u8 {
    ((x >> (8 * k)) & 0xff) as u8
}

/// The eight little-endian bytes of a 64-bit word.
pub open spec fn le_bytes_u64(x: u64) -> Seq<u8> {
    seq![
        le_byte(x, 0),
        le_byte(x, 1),
        le_byte(x, 2),
        le_byte(x, 3),
        le_byte(x, 4),
        le_byte(x, 5),
        le_byte(x, 6),
        le_byte(x, 7),
    ]
}

/// The two's-complement bit pattern of a signed 64-bit integer.
pub open spec fn i64_bits(v: i64) -> u64 {
    if v >= 0 {
        v as u64
    } else {
        (v + 0x1_0000_0000_0000_0000int) as u64
    }
}

/// The canonical fixed-width encoding of a value: a one-byte variant tag, then eight bytes.
pub open spec fn canonical_bytes_of(v: Value) -> Seq<u8> {
    match v {
        Value::Int(n) => seq![0u8] + le_bytes_u64(i64_bits(n)),
        Value::Bool(b) => seq![1u8, if b { 1u8 } else { 0u8 }, 0u8, 0u8, 0u8, 0u8, 0u8, 0u8, 0u8],
        Value::Entity(e) => seq![2u8] + le_bytes_u64(e.0),
    }
}

/// The little-endian byte `k` of a 64-bit word.
pub fn word_byte(x: u64, k: u64) -> (b: u8)
    requires
        k < 8,
    ensures
        b == le_byte(x, k),
{
    ((x >> (8 * k)) & 0xff) as u8
}

/// The two's-complement bit pattern of a signed 64-bit integer.
pub fn signed_bits(v: i64) -> (r: u64)
    ensures
        r == i64_bits(v),
{
    if v >= 0 {
        v as u64
    } else {
        let m: u64 = (-(v + 1)) as u64;
        let r: u64 = u64::MAX - m;
        r
    }
}

impl Value {
    /// The `i64` inside, if this is an integer value.
    pub fn as_int(&self) -> (r: Option<i64>)
        ensures
            r == (match *self {
                Value::Int(n) => Some(n),
                _ => None::<i64>,
            }),
    {
        match self {
            Value::Int(v) => Some(*v),
            _ => None,
        }
    }

    /// The entity inside, if this is an entity reference.
    pub fn as_entity(&self) -> (r: Option<EntityId>)
        ensures
            r == (match *self {
                Value::Entity(e) => Some(e),
                _ => None::<EntityId>,
            }),
    {
        match self {
            Value::Entity(e) => Some(*e),
            _ => None,
        }
    }

    /// Canonical, fixed-width little-endian bytes for hashing and persistence: a one-byte
    /// tag keeps values of different variants from colliding.
    pub fn canonical_bytes(&self) -> (out: [u8; 9])
        ensures
            out@ == canonical_bytes_of(*self),
    {
        match self {
            Value::Int(v) => {
                let x = signed_bits(*v);
                let out = [
                    0u8,
                    word_byte(x, 0),
                    word_byte(x, 1),
                    word_byte(x, 2),
                    word_byte(x, 3),
                    word_byte(x, 4),
                    word_byte(x, 5),
                    word_byte(x, 6),
                    word_byte(x, 7),
                ];
                assert(out@ =~= canonical_bytes_of(*self));
                out
            },
            Value::Bool(b) => {
                let flag: u8 = if *b {
                    1
                } else {
                    0
                };
                let out = [1u8, flag, 0u8, 0u8, 0u8, 0u8, 0u8, 0u8, 0u8];
                assert(out@ =~= canonical_bytes_of(*self));
                out
            },
            Value::Entity(id) => {
                let x = id.raw();
                let out = [
                    2u8,
                    word_byte(x, 0),
                    word_byte(x, 1),
                    word_byte(x, 2),
                    word_byte(x, 3),
                    word_byte(x, 4),
                    word_byte(x, 5),
                    word_byte(x, 6),
                    word_byte(x, 7),
                ];
                assert(out@ =~= canonical_bytes_of(*self));
                out
            },
        }
    }

    /// Compare two values in the value order.
    pub fn precedes(&self, other: &Value) -> (r: bool)
        ensures
            r == value_lt(*self, *other),
    {
        match (self, other) {
            (Value::Int(x), Value::Int(y)) => *x < *y,
            (Value::Bool(x), Value::Bool(y)) => !*x && *y,
            (Value::Entity(x), Value::Entity(y)) => x.0 < y.0,
            (Value::Int(_), _) => true,
            (Value::Bool(_), Value::Entity(_)) => true,
            _ => false,
        }
    }
}

/// The value order is a strict total order.
pub proof fn lemma_value_lt_total(a: Value, b: Value)
    ensures
        a == b || value_lt(a, b) || value_lt(b, a),
        !(value_lt(a, b) && value_lt(b, a)),
        !value_lt(a, a),
{
}

/// The value order is transitive (stated as an implication).
pub proof fn lemma_value_lt_transitive_opt(a: Value, b: Value, c: Value)
    ensures
        value_lt(a, b) && value_lt(b, c) ==> value_lt(a, c),
{
}

/// The value order is transitive.
pub proof fn lemma_value_lt_transitive(a: Value, b: Value, c: Value)
    requires
        value_lt(a, b),
        value_lt(b, c),
    ensures
        value_lt(a, c),
{
}

} // verus!
