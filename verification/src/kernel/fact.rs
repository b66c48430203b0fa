//! Facts and their provenance. The atom of committed reality is
//! `(entity, fact_type, value, provenance)`; provenance is never optional: every fact answers
//! who wrote it, when, and why.

use crate::kernel::identity::EntityId;
use crate::kernel::order::{bytes_lt, compare_bytes, Precedence};
use crate::kernel::value::Value;
use vstd::prelude::*;
use vstd::string::*;

verus! {

/// The type of a fact, namespaced by its owning domain (e.g. `"physical.env.temperature"`).
/// Two fact types are the same exactly when their names have the same bytes.
#[derive(Clone, Copy, PartialEq, Eq, PartialOrd, Ord, Hash, Debug)]
pub struct FactType(pub &'static str);

/// The name bytes that identify a fact type.
pub open spec fn type_bytes(t: FactType) -> Seq<u8> {
    t.0.spec_bytes()
}

impl FactType {
    /// Declare a fact type from its stable, domain-namespaced name.
    pub fn new(name: &'static str) -> (t: FactType)
        ensures
            t.0 == name,
    {
        FactType(name)
    }

    /// The fact type's stable name.
    pub fn name(&self) -> (r: &'static str)
        ensures
            r == self.0,
    {
        self.0
    }

    /// Whether two fact types are the same (their names have equal bytes).
    pub fn same(&self, other: &FactType) -> (r: bool)
        ensures
            r == (type_bytes(*self) == type_bytes(*other)),
    {
        compare_bytes(self.0.as_bytes(), other.0.as_bytes()) == Precedence::Same
    }

    /// Whether this fact type sorts strictly before `other` (lexicographic on names).
    pub fn precedes(&self, other: &FactType) -> (r: bool)
        ensures
            r == bytes_lt(type_bytes(*self), type_bytes(*other)),
    {
        compare_bytes(self.0.as_bytes(), other.0.as_bytes()) == Precedence::Before
    }
}

/// Whether `t` appears (by name) in `types`.
pub open spec fn type_listed(types: Seq<FactType>, t: FactType) -> bool {
    exists|i: int| 0 <= i < types.len() && type_bytes(#[trigger] types[i]) == type_bytes(t)
}

/// Whether `t` appears (by name) in `types`.
pub fn contains_type(types: &[FactType], t: &FactType) -> (r: bool)
    ensures
        r == type_listed(types@, *t),
{
    let mut i: usize = 0;
    while i < types.len()
        invariant
            i <= types.len(),
            forall|j: int| 0 <= j < i ==> type_bytes(types@[j]) != type_bytes(*t),
        decreases types.len() - i,
    {
        if types[i].same(t) {
            return true;
        }
        i = i + 1;
    }
    false
}

/// FNV-1a 32-bit offset basis.
pub open spec fn fnv32_offset() -> u32 {
    0x811c_9dc5u32
}

/// One FNV-1a 32-bit step.
pub open spec fn fnv32_step(h: u32, b: u8) -> u32 {
    vstd::wrapping::u32_specs::wrapping_mul(h ^ (b as u32), 0x0100_0193u32)
}

/// FNV-1a 32-bit over a byte string.
pub open spec fn fnv32(bytes: Seq<u8>) -> u32
    decreases bytes.len(),
{
    if bytes.len() == 0 {
        fnv32_offset()
    } else {
        fnv32_step(fnv32(bytes.drop_last()), bytes.last())
    }
}

/// The identity of a system, namespaced by its domain (e.g. `"physical.diurnal_cycle"`).
#[derive(Clone, Copy, PartialEq, Eq, PartialOrd, Ord, Hash, Debug)]
pub struct SystemId(pub &'static str);

/// The name bytes that identify a system.
pub open spec fn system_bytes(s: SystemId) -> Seq<u8> {
    s.0.spec_bytes()
}

impl SystemId {
    /// Declare a system id from its stable, domain-namespaced name.
    pub fn new(name: &'static str) -> (s: SystemId)
        ensures
            s.0 == name,
    {
        SystemId(name)
    }

    /// The system id's stable name.
    pub fn name(&self) -> (r: &'static str)
        ensures
            r == self.0,
    {
        self.0
    }

    /// Whether this system's name sorts strictly before `other`'s (lexicographic on bytes).
    pub fn precedes(&self, other: &SystemId) -> (r: bool)
        ensures
            r == bytes_lt(system_bytes(*self), system_bytes(*other)),
    {
        compare_bytes(self.0.as_bytes(), other.0.as_bytes()) == Precedence::Before
    }

    /// A stable numeric hash of the name, for seeding random substreams: FNV-1a 32-bit over
    /// the name bytes, identical across runs and platforms.
    pub fn code(&self) -> (h: u32)
        ensures
            h == fnv32(system_bytes(*self)),
    {
        let bytes = self.0.as_bytes();
        let mut h: u32 = 0x811c_9dc5;
        let mut i: usize = 0;
        while i < bytes.len()
            invariant
                i <= bytes@.len(),
                bytes@ == system_bytes(*self),
                h == fnv32(bytes@.take(i as int)),
            decreases bytes.len() - i,
        {
            assert(bytes@.take(i + 1).drop_last() =~= bytes@.take(i as int));
            h = (h ^ (bytes[i] as u32)).wrapping_mul(0x0100_0193);
            i = i + 1;
        }
        assert(bytes@.take(i as int) =~= bytes@);
        h
    }
}

/// The event a proposal asserts it participates in: no proposal, no cause; no cause, no commit.
#[derive(Clone, Copy, PartialEq, Eq, PartialOrd, Ord, Hash, Debug)]
pub struct Cause(pub &'static str);

impl Cause {
    /// Name the event kind this proposal participates in (e.g. `"diurnal_shift"`).
    pub fn new(event: &'static str) -> (c: Cause)
        ensures
            c.0 == event,
    {
        Cause(event)
    }

    /// The event kind's stable name.
    pub fn event(&self) -> (r: &'static str)
        ensures
            r == self.0,
    {
        self.0
    }
}

/// Who wrote a fact, when, and why.
#[derive(Clone, Copy, PartialEq, Eq, Debug)]
pub struct Provenance {
    /// The system whose proposal produced this fact.
    pub system: SystemId,
    /// The tick at which it was committed.
    pub tick: u64,
    /// The event the producing proposal asserted.
    pub cause: Cause,
}

impl Provenance {
    /// Assemble provenance from its three answers: who, when, why.
    pub fn new(system: SystemId, tick: u64, cause: Cause) -> (p: Provenance)
        ensures
            p == (Provenance { system, tick, cause }),
    {
        Provenance { system, tick, cause }
    }
}

/// The address of a single fact: an entity and a fact type.
#[derive(Clone, Copy, PartialEq, Eq, PartialOrd, Ord, Hash, Debug)]
pub struct FactKey {
    /// The entity the fact is about.
    pub entity: EntityId,
    /// The kind of fact.
    pub fact_type: FactType,
}

/// The identity of a fact key: the entity's raw id and the fact type's name bytes.
pub open spec fn key_id(k: FactKey) -> (u64, Seq<u8>) {
    (k.entity.0, type_bytes(k.fact_type))
}

/// The deterministic order on fact keys: by entity, then by fact-type name.
pub open spec fn key_lt(a: FactKey, b: FactKey) -> bool {
    a.entity.0 < b.entity.0 || (a.entity.0 == b.entity.0 && bytes_lt(
        type_bytes(a.fact_type),
        type_bytes(b.fact_type),
    ))
}

impl FactKey {
    /// Address a fact by its entity and type.
    pub fn new(entity: EntityId, fact_type: FactType) -> (k: FactKey)
        ensures
            k == (FactKey { entity, fact_type }),
    {
        FactKey { entity, fact_type }
    }

    /// Whether two keys address the same fact.
    pub fn same(&self, other: &FactKey) -> (r: bool)
        ensures
            r == (key_id(*self) == key_id(*other)),
    {
        self.entity.0 == other.entity.0 && self.fact_type.same(&other.fact_type)
    }

    /// Whether this key sorts strictly before `other`.
    pub fn precedes(&self, other: &FactKey) -> (r: bool)
        ensures
            r == key_lt(*self, *other),
    {
        self.entity.0 < other.entity.0 || (self.entity.0 == other.entity.0
            && self.fact_type.precedes(&other.fact_type))
    }
}

/// The key order is a strict total order on key identities.
pub proof fn lemma_key_lt_total(a: FactKey, b: FactKey)
    ensures
        key_id(a) == key_id(b) || key_lt(a, b) || key_lt(b, a),
        !(key_lt(a, b) && key_lt(b, a)),
        !key_lt(a, a),
        key_lt(a, b) ==> key_id(a) != key_id(b),
{
    crate::kernel::order::lemma_bytes_lt_total(type_bytes(a.fact_type), type_bytes(b.fact_type));
    crate::kernel::order::lemma_bytes_lt_irreflexive(type_bytes(a.fact_type));
    crate::kernel::order::lemma_bytes_lt_irreflexive(type_bytes(b.fact_type));
    if bytes_lt(type_bytes(a.fact_type), type_bytes(b.fact_type)) {
        crate::kernel::order::lemma_bytes_lt_asymmetric(
            type_bytes(a.fact_type),
            type_bytes(b.fact_type),
        );
    }
}

/// The key order is transitive.
pub proof fn lemma_key_lt_transitive(a: FactKey, b: FactKey, c: FactKey)
    requires
        key_lt(a, b),
        key_lt(b, c),
    ensures
        key_lt(a, c),
{
    if a.entity.0 == b.entity.0 && b.entity.0 == c.entity.0 {
        crate::kernel::order::lemma_bytes_lt_transitive(
            type_bytes(a.fact_type),
            type_bytes(b.fact_type),
            type_bytes(c.fact_type),
        );
    }
}

/// A committed fact's value together with its provenance.
#[derive(Clone, Copy, PartialEq, Eq, Debug)]
pub struct Fact {
    /// The committed value.
    pub value: Value,
    /// Who wrote it, when, and why.
    pub provenance: Provenance,
}

impl Fact {
    /// Pair a value with its provenance.
    pub fn new(value: Value, provenance: Provenance) -> (f: Fact)
        ensures
            f == (Fact { value, provenance }),
    {
        Fact { value, provenance }
    }
}

/// How many values a fact type holds per entity.
#[derive(Clone, Copy, PartialEq, Eq, Debug, Structural)]
pub enum Cardinality {
    /// At most one value per entity; a write replaces it.
    One,
    /// A set of values per entity; changes add and remove members.
    Many,
}

} // verus!
