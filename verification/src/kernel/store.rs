//! The reality store: the single source of committed truth.
//!
//! Its defining law: `apply` is the only mutation path during simulation. Systems read
//! committed state and propose; only a committed tick applies. [`MemoryStore`] is the
//! reference profile of the fact/triple model: a canonical listing of triples, so a fact type
//! may be cardinality-one or cardinality-many without changing the contract, together with a
//! running digest kept per change so the per-tick state hash is O(1) to produce and always
//! equals a from-scratch rescan.

use crate::kernel::fact::{key_id, type_bytes, Fact, FactKey, FactType, Provenance};
use crate::kernel::hash::{
    absorb, finish_bytes, fnv128, lemma_absorb_all_insert, lemma_absorb_all_remove, release,
    StateHash, StateHasher,
};
use crate::kernel::identity::EntityId;
use crate::kernel::system::CommittedView;
use crate::kernel::triples::{
    first_at, cleared, digests, entities_of_type, facts_about, facts_at, lemma_cleared_sorted,
    lemma_facts_at_append, lemma_facts_at_sorted, lemma_seeded_digests, lemma_seeded_shape,
    lemma_seeded_sorted, lemma_cleared_step, lemma_facts_at_step, lemma_entities_step, lemma_facts_about_step, fact_of, lemma_clear_step_keep, lemma_clear_step_release, rescan, seed_index, seeded, slot, sorted, triple_bytes_of, triple_lt,
    Triple, seed_replaces, values_at, lemma_values_at_members, lemma_entities_members,
};
use crate::kernel::value::{canonical_bytes_of, le_bytes_u64, value_lt, word_byte, Value};
use vstd::prelude::*;

verus! {

/// One resolved outcome for a single fact key, ready to commit.
#[derive(Clone, PartialEq, Eq, Debug)]
pub enum Resolution {
    /// Replace the single value at this key (a cardinality-one fact).
    One {
        /// The fact key being written.
        key: FactKey,
        /// The resolved value and its provenance.
        fact: Fact,
    },
    /// Replace the entire value set at this key (a cardinality-many fact). An empty set
    /// removes the fact.
    Many {
        /// The fact key being written.
        key: FactKey,
        /// The resolved set of values, each with provenance.
        facts: Vec<Fact>,
    },
    /// Remove all values at this key (tombstone the fact).
    Clear {
        /// The fact key being removed.
        key: FactKey,
    },
}

/// A batch of resolved, validated outcomes: the only thing [`RealityStore::apply`] accepts.
#[derive(Clone, PartialEq, Eq, Debug)]
pub struct CommitBatch {
    /// The tick this batch commits.
    pub tick: u64,
    /// The per-key resolutions to apply, in order.
    pub resolutions: Vec<Resolution>,
}

impl CommitBatch {
    /// An empty batch for `tick`.
    pub fn new(tick: u64) -> (b: CommitBatch)
        ensures
            b.tick == tick,
            b.resolutions@ == Seq::<Resolution>::empty(),
    {
        CommitBatch { tick, resolutions: Vec::new() }
    }
}

/// The triple committing `fact` at `key`.
pub open spec fn triple_for(key: FactKey, fact: Fact) -> Triple {
    Triple { key, value: fact.value, provenance: fact.provenance }
}

/// Commit each of `facts` at `key`, in order.
pub open spec fn seed_all(s: Seq<Triple>, key: FactKey, facts: Seq<Fact>) -> Seq<Triple>
    decreases facts.len(),
{
    if facts.len() == 0 {
        s
    } else {
        seeded(seed_all(s, key, facts.drop_last()), triple_for(key, facts.last()))
    }
}

/// The listing after applying one resolution.
pub open spec fn apply_one(s: Seq<Triple>, r: Resolution) -> Seq<Triple> {
    match r {
        Resolution::One { key, fact } => seeded(cleared(s, key_id(key)), triple_for(key, fact)),
        Resolution::Many { key, facts } => seed_all(cleared(s, key_id(key)), key, facts@),
        Resolution::Clear { key } => cleared(s, key_id(key)),
    }
}

/// The listing after applying resolutions in order.
pub open spec fn applied(s: Seq<Triple>, rs: Seq<Resolution>) -> Seq<Triple>
    decreases rs.len(),
{
    if rs.len() == 0 {
        s
    } else {
        apply_one(applied(s, rs.drop_last()), rs.last())
    }
}

/// The committed reality store, behind its contract. [`CommittedView`] supplies the read
/// surface systems get; this adds the query slice, the single mutation path, and the digest.
pub trait RealityStore: CommittedView {
    /// Every committed fact whose entity matches, in deterministic order. Cardinality-many
    /// facts contribute one entry per value.
    fn facts_of(&self, entity: EntityId) -> (r: Vec<(FactKey, Fact)>)
        ensures
            r@ == facts_about(self.committed(), entity.0),
    ;

    /// Apply a resolved, validated batch: the only mutation path.
    fn apply(&mut self, batch: CommitBatch)
        ensures
            final(self).committed() == applied(old(self).committed(), batch.resolutions@),
    ;

    /// The canonical, order-independent digest of committed reality.
    fn state_hash(&self) -> (r: StateHash)
        ensures
            r.0@ == finish_bytes(rescan(self.committed())),
    ;
}

/// The reference store: a canonical listing of triples with an incrementally maintained
/// digest.
#[derive(Debug)]
pub struct MemoryStore {
    triples: Vec<Triple>,
    hasher: StateHasher,
}

/// The canonical triple encoding fed to the state hasher.
pub fn triple_bytes(t: &Triple) -> (out: Vec<u8>)
    ensures
        out@ == triple_bytes_of(*t),
{
    let mut out: Vec<u8> = Vec::new();
    let e = t.key.entity.0;
    let mut k: u64 = 0;
    while k < 8
        invariant
            k <= 8,
            out@ == le_bytes_u64(e).take(k as int),
            e == t.key.entity.0,
        decreases 8 - k,
    {
        out.push(word_byte(e, k));
        assert(le_bytes_u64(e).take(k + 1) =~= le_bytes_u64(e).take(k as int).push(
            crate::kernel::value::le_byte(e, k),
        ));
        k = k + 1;
    }
    assert(le_bytes_u64(e).take(8) =~= le_bytes_u64(e));
    let name = t.key.fact_type.0.as_bytes();
    let mut i: usize = 0;
    while i < name.len()
        invariant
            i <= name@.len(),
            name@ == type_bytes(t.key.fact_type),
            out@ == le_bytes_u64(e) + name@.take(i as int),
        decreases name.len() - i,
    {
        out.push(name[i]);
        assert(name@.take(i + 1) =~= name@.take(i as int).push(name@[i as int]));
        assert(out@ =~= le_bytes_u64(e) + name@.take(i + 1));
        i = i + 1;
    }
    assert(name@.take(i as int) =~= name@);
    let v = t.value.canonical_bytes();
    let mut j: usize = 0;
    while j < 9
        invariant
            j <= 9,
            v@ == canonical_bytes_of(t.value),
            out@ == le_bytes_u64(e) + type_bytes(t.key.fact_type) + v@.take(j as int),
        decreases 9 - j,
    {
        out.push(v[j]);
        assert(v@.take(j + 1) =~= v@.take(j as int).push(v@[j as int]));
        assert(out@ =~= le_bytes_u64(e) + type_bytes(t.key.fact_type) + v@.take(j + 1));
        j = j + 1;
    }
    assert(v@.take(9) =~= v@);
    out
}

impl Triple {
    /// Whether this triple sorts strictly before `other` in the canonical order.
    pub fn precedes(&self, other: &Triple) -> (r: bool)
        ensures
            r == triple_lt(*self, *other),
    {
        self.key.precedes(&other.key) || (self.key.same(&other.key) && self.value.precedes(
            &other.value,
        ))
    }

    /// Whether two triples occupy the same slot (same key, same value).
    pub fn same_slot(&self, other: &Triple) -> (r: bool)
        ensures
            r == (slot(*self) == slot(*other)),
    {
        self.key.same(&other.key) && self.value == other.value
    }
}

impl MemoryStore {
    /// The store is canonical and its running digest equals a from-scratch rescan.
    #[verifier::type_invariant]
    closed spec fn wf(&self) -> bool {
        &&& sorted(self.triples@)
        &&& self.hasher@ == rescan(self.triples@)
    }

    /// An empty world.
    pub fn new() -> (s: MemoryStore)
        ensures
            s.committed() == Seq::<Triple>::empty(),
    {
        let s = MemoryStore { triples: Vec::new(), hasher: StateHasher::new() };
        assert(digests(s.triples@) =~= Seq::<u128>::empty());
        s
    }

    /// Seed a value at world construction, before tick 1: world-package loading, not
    /// simulation. Values accumulate, so seeding a cardinality-many fact means calling this
    /// once per value; re-seeding a present value only refreshes its provenance.
    pub fn seed(&mut self, key: FactKey, fact: Fact)
        ensures
            final(self).committed() == seeded(old(self).committed(), triple_for(key, fact)),
    {
        let t = triple_for_exec(key, fact);
        let mut taken = MemoryStore::new();
        std::mem::swap(self, &mut taken);
        proof {
            use_type_invariant(&taken);
        }
        let MemoryStore { triples: mut triples, hasher: mut hasher } = taken;
        let ghost s = triples@;
        let mut i: usize = 0;
        while i < triples.len() && triples[i].precedes(&t)
            invariant
                i <= triples.len(),
                triples@ == s,
                forall|j: int| 0 <= j < i ==> triple_lt(#[trigger] s[j], t),
            decreases triples.len() - i,
        {
            i = i + 1;
        }
        proof {
            lemma_seeded_shape(s, t);
            lemma_seeded_sorted(s, t);
            lemma_seeded_digests(s, t);
            let si = seed_index(s, t);
            if (i as int) < si {
                assert(triple_lt(s[i as int], t));
            }
            if si < (i as int) {
                assert(triple_lt(s[si], t));
            }
        }
        if i < triples.len() && triples[i].same_slot(&t) {
            triples.set(i, t);
        } else {
            triples.insert(i, t);
            hasher.add_fact(triple_bytes(&t).as_slice());
            proof {
                lemma_absorb_all_insert(
                    crate::kernel::hash::empty_accumulator(),
                    digests(s),
                    i as int,
                    fnv128(triple_bytes_of(t)),
                );
            }
        }
        *self = MemoryStore { triples, hasher };
    }

    /// Drop every value at `key`, unfolding each from the digest: the shared removal path for
    /// tombstones and whole-set replacement.
    fn clear_key(&mut self, key: FactKey)
        ensures
            final(self).committed() == cleared(old(self).committed(), key_id(key)),
    {
        let mut taken = MemoryStore::new();
        std::mem::swap(self, &mut taken);
        proof {
            use_type_invariant(&taken);
        }
        let MemoryStore { triples, hasher: mut hasher } = taken;
        let ghost s = triples@;
        let ghost k = key_id(key);
        let mut kept: Vec<Triple> = Vec::new();
        proof {
            assert(s.take(0) =~= Seq::<Triple>::empty());
            assert(kept@ + s.skip(0) =~= s);
        }
        let mut i: usize = 0;
        while i < triples.len()
            invariant
                i <= triples.len(),
                triples@ == s,
                k == key_id(key),
                kept@ == cleared(s.take(i as int), k),
                hasher@ == rescan(kept@ + s.skip(i as int)),
            decreases triples.len() - i,
        {
            let t = triples[i];
            proof {
                lemma_cleared_step(s, i as int, k);
            }
            if t.key.same(&key) {
                proof {
                    lemma_clear_step_release(kept@, s, i as int);
                }
                hasher.remove_fact(triple_bytes(&t).as_slice());
            } else {
                proof {
                    lemma_clear_step_keep(kept@, s, i as int);
                }
                kept.push(t);
            }
            i = i + 1;
        }
        proof {
            assert(s.take(i as int) =~= s);
            assert(kept@ + s.skip(i as int) =~= kept@);
            lemma_cleared_sorted(s, k);
        }
        let cleared_store = MemoryStore { triples: kept, hasher };
        *self = cleared_store;
    }

    /// The total number of committed values (triples) across all facts.
    pub fn len(&self) -> (n: usize)
        ensures
            n == self.committed().len(),
    {
        self.triples.len()
    }

    /// Whether the world holds no committed values.
    pub fn is_empty(&self) -> (b: bool)
        ensures
            b == (self.committed().len() == 0),
    {
        self.triples.len() == 0
    }
}

/// The triple committing `fact` at `key`.
fn triple_for_exec(key: FactKey, fact: Fact) -> (t: Triple)
    ensures
        t == triple_for(key, fact),
{
    Triple { key, value: fact.value, provenance: fact.provenance }
}

impl CommittedView for MemoryStore {
    closed spec fn committed(&self) -> Seq<Triple> {
        self.triples@
    }

    fn read(&self, key: FactKey) -> (r: Option<Fact>) {
        let ghost s = self.triples@;
        let ghost k = key_id(key);
        let mut i: usize = 0;
        while i < self.triples.len()
            invariant
                i <= s.len(),
                s == self.triples@,
                k == key_id(key),
                facts_at(s.take(i as int), k) == Seq::<Fact>::empty(),
            decreases self.triples.len() - i,
        {
            let t = self.triples[i];
            proof {
                lemma_facts_at_step(s, i as int, k);
            }
            if t.key.same(&key) {
                proof {
                    assert(s =~= s.take(i + 1) + s.skip(i + 1));
                    lemma_facts_at_append(s.take(i + 1), s.skip(i + 1), k);
                    assert(facts_at(s.take(i + 1), k) =~= seq![fact_of(s[i as int])]);
                }
                return Some(Fact::new(t.value, t.provenance));
            }
            i = i + 1;
        }
        assert(s.take(i as int) =~= s);
        None
    }

    fn read_all(&self, key: FactKey) -> (r: Vec<Fact>) {
        let ghost s = self.triples@;
        let ghost k = key_id(key);
        let mut out: Vec<Fact> = Vec::new();
        let mut i: usize = 0;
        while i < self.triples.len()
            invariant
                i <= s.len(),
                s == self.triples@,
                k == key_id(key),
                out@ == facts_at(s.take(i as int), k),
            decreases self.triples.len() - i,
        {
            let t = self.triples[i];
            proof {
                lemma_facts_at_step(s, i as int, k);
            }
            if t.key.same(&key) {
                out.push(Fact::new(t.value, t.provenance));
            }
            i = i + 1;
        }
        assert(s.take(i as int) =~= s);
        out
    }

    fn entities_with(&self, fact_type: FactType) -> (r: Vec<EntityId>) {
        let ghost s = self.triples@;
        let ghost ft = type_bytes(fact_type);
        let mut out: Vec<EntityId> = Vec::new();
        let mut i: usize = 0;
        while i < self.triples.len()
            invariant
                i <= s.len(),
                s == self.triples@,
                ft == type_bytes(fact_type),
                out@ == entities_of_type(s.take(i as int), ft),
            decreases self.triples.len() - i,
        {
            let t = self.triples[i];
            proof {
                lemma_entities_step(s, i as int, ft);
            }
            if t.key.fact_type.same(&fact_type) && (out.len() == 0 || out[out.len() - 1]
                != t.key.entity) {
                out.push(t.key.entity);
            }
            i = i + 1;
        }
        assert(s.take(i as int) =~= s);
        out
    }
}

impl RealityStore for MemoryStore {
    fn facts_of(&self, entity: EntityId) -> (r: Vec<(FactKey, Fact)>) {
        let ghost s = self.triples@;
        let mut out: Vec<(FactKey, Fact)> = Vec::new();
        let mut i: usize = 0;
        while i < self.triples.len()
            invariant
                i <= s.len(),
                s == self.triples@,
                out@ == facts_about(s.take(i as int), entity.0),
            decreases self.triples.len() - i,
        {
            let t = self.triples[i];
            proof {
                lemma_facts_about_step(s, i as int, entity.0);
            }
            if t.key.entity.0 == entity.0 {
                out.push((t.key, Fact::new(t.value, t.provenance)));
            }
            i = i + 1;
        }
        assert(s.take(i as int) =~= s);
        out
    }

    fn apply(&mut self, batch: CommitBatch) {
        let ghost start = self.committed();
        let rs = &batch.resolutions;
        let mut i: usize = 0;
        while i < rs.len()
            invariant
                i <= rs.len(),
                *rs == batch.resolutions,
                self.committed() == applied(start, rs@.take(i as int)),
            decreases rs.len() - i,
        {
            assert(rs@.take(i + 1).drop_last() =~= rs@.take(i as int));
            match &rs[i] {
                Resolution::One { key, fact } => {
                    self.clear_key(*key);
                    self.seed(*key, *fact);
                },
                Resolution::Many { key, facts } => {
                    self.clear_key(*key);
                    let ghost base = self.committed();
                    let mut j: usize = 0;
                    while j < facts.len()
                        invariant
                            j <= facts.len(),
                            self.committed() == seed_all(base, *key, facts@.take(j as int)),
                        decreases facts.len() - j,
                    {
                        assert(facts@.take(j + 1).drop_last() =~= facts@.take(j as int));
                        self.seed(*key, facts[j]);
                        j = j + 1;
                    }
                    assert(facts@.take(j as int) =~= facts@);
                },
                Resolution::Clear { key } => {
                    self.clear_key(*key);
                },
            }
            i = i + 1;
        }
        assert(rs@.take(i as int) =~= rs@);
    }

    fn state_hash(&self) -> (r: StateHash) {
        proof {
            use_type_invariant(self);
        }
        self.hasher.finish()
    }
}

impl MemoryStore {
    /// Every value read back at `key` is in strictly increasing value order, and the
    /// entities bearing any fact type come back strictly ascending.
    pub fn read_all_sorted(&self, key: FactKey) -> (r: Vec<Fact>)
        ensures
            r@ == facts_at(self.committed(), key_id(key)),
            forall|i: int, j: int|
                0 <= i < j < r@.len() ==> value_lt(#[trigger] r@[i].value, #[trigger] r@[j].value),
    {
        proof {
            use_type_invariant(self);
            lemma_facts_at_sorted(self.triples@, key_id(key));
        }
        self.read_all(key)
    }
}

/// The key a resolution writes.
pub open spec fn resolution_key(r: Resolution) -> FactKey {
    match r {
        Resolution::One { key, .. } => key,
        Resolution::Many { key, .. } => key,
        Resolution::Clear { key } => key,
    }
}

/// Read-after-write: once a cardinality-one write commits, reading its key gives back
/// exactly the written fact, whatever the key held before.
pub proof fn law_read_after_write(s: Seq<Triple>, key: FactKey, fact: Fact)
    ensures
        facts_at(apply_one(s, Resolution::One { key, fact }), key_id(key)) == seq![fact],
        first_at(apply_one(s, Resolution::One { key, fact }), key_id(key)) == Some(fact),
{
    crate::kernel::triples::lemma_cleared_reads_empty(s, key_id(key));
    crate::kernel::triples::lemma_seeded_reads_back(cleared(s, key_id(key)), triple_for(key, fact));
}

/// Read-after-removal: once a tombstone commits, its key reads as absent.
pub proof fn law_read_after_clear(s: Seq<Triple>, key: FactKey)
    ensures
        facts_at(apply_one(s, Resolution::Clear { key }), key_id(key)) == Seq::<Fact>::empty(),
        first_at(apply_one(s, Resolution::Clear { key }), key_id(key)) is None,
{
    crate::kernel::triples::lemma_cleared_reads_empty(s, key_id(key));
}

/// The frame rule: a committed resolution changes only the key it names; every other key
/// reads exactly as before.
pub proof fn law_other_keys_untouched(s: Seq<Triple>, r: Resolution, other: FactKey)
    requires
        key_id(other) != key_id(resolution_key(r)),
    ensures
        facts_at(apply_one(s, r), key_id(other)) == facts_at(s, key_id(other)),
{
    let k = key_id(resolution_key(r));
    crate::kernel::triples::lemma_cleared_frame(s, k, key_id(other));
    match r {
        Resolution::One { key, fact } => {
            crate::kernel::triples::lemma_seeded_frame(cleared(s, k), triple_for(key, fact), key_id(other));
        },
        Resolution::Many { key, facts } => {
            lemma_seed_all_frame(cleared(s, k), key, facts@, key_id(other));
        },
        Resolution::Clear { .. } => {},
    }
}

/// Committing any number of values at one key leaves every other key as it was.
proof fn lemma_seed_all_frame(s: Seq<Triple>, key: FactKey, facts: Seq<Fact>, other: (u64, Seq<u8>))
    requires
        key_id(key) != other,
    ensures
        facts_at(seed_all(s, key, facts), other) == facts_at(s, other),
    decreases facts.len(),
{
    if facts.len() > 0 {
        lemma_seed_all_frame(s, key, facts.drop_last(), other);
        crate::kernel::triples::lemma_seeded_frame(
            seed_all(s, key, facts.drop_last()),
            triple_for(key, facts.last()),
            other,
        );
    }
}


/// Seeding one value: the value joins its key's values and the seeded fact is read back
/// there; its entity is listed for its fact type; a value already present only has its
/// provenance refreshed, so the listing keeps its length and its digest, while a new value
/// lengthens the listing by one; and every other key reads as before.
pub proof fn law_seed_adds_one_value(s: Seq<Triple>, key: FactKey, fact: Fact, other: FactKey)
    requires
        sorted(s),
    ensures
        forall|x: Value|
            #[trigger] values_at(seeded(s, triple_for(key, fact)), key_id(key)).contains(x) == (
            values_at(s, key_id(key)).contains(x) || x == fact.value),
        facts_at(seeded(s, triple_for(key, fact)), key_id(key)).contains(fact),
        values_at(s, key_id(key)).contains(fact.value) ==> seeded(s, triple_for(key, fact)).len()
            == s.len() && rescan(seeded(s, triple_for(key, fact))) == rescan(s),
        !values_at(s, key_id(key)).contains(fact.value) ==> seeded(s, triple_for(key, fact)).len()
            == s.len() + 1,
        entities_of_type(seeded(s, triple_for(key, fact)), type_bytes(key.fact_type)).contains(
            key.entity,
        ),
        key_id(other) != key_id(key) ==> facts_at(seeded(s, triple_for(key, fact)), key_id(other))
            == facts_at(s, key_id(other)),
{
    let t = triple_for(key, fact);
    let k = key_id(key);
    let a = seeded(s, t);
    let idx = seed_index(s, t);
    lemma_seeded_shape(s, t);
    lemma_seeded_digests(s, t);
    lemma_values_at_members(s, k);
    lemma_values_at_members(a, k);
    lemma_entities_members(a, type_bytes(key.fact_type));
    if key_id(other) != k {
        crate::kernel::triples::lemma_seeded_frame(s, t, key_id(other));
    }
    assert(a[idx] == t);
    assert(slot(a[idx]) == (k, fact.value));
    assert(fact_of(t) == fact);
    assert(a[idx].key.entity == key.entity && type_bytes(a[idx].key.fact_type) == type_bytes(key.fact_type));
    // A value already present sits exactly where the seed lands.
    if values_at(s, k).contains(fact.value) {
        let j = choose|j: int| 0 <= j < s.len() && #[trigger] slot(s[j]) == (k, fact.value);
        crate::kernel::triples::lemma_triple_lt_total(s[j], t);
        if j > idx {
            assert(triple_lt(s[idx], s[j]));
            assert(triple_lt(s[idx], t));
        }
        assert(j == idx);
        assert(seed_replaces(s, t));
    }
    assert forall|x: Value| #[trigger] values_at(a, k).contains(x) == (values_at(s, k).contains(x)
        || x == fact.value) by {
        if values_at(a, k).contains(x) {
            let i = choose|i: int| 0 <= i < a.len() && #[trigger] slot(a[i]) == (k, x);
            if i != idx {
                if seed_replaces(s, t) {
                    assert(a[i] == s[i]);
                    assert(slot(s[i]) == (k, x));
                } else if i < idx {
                    assert(a[i] == s[i]);
                    assert(slot(s[i]) == (k, x));
                } else {
                    assert(a[i] == s[i - 1]);
                    assert(slot(s[i - 1]) == (k, x));
                }
            }
        }
        if values_at(s, k).contains(x) {
            let i = choose|i: int| 0 <= i < s.len() && #[trigger] slot(s[i]) == (k, x);
            if seed_replaces(s, t) {
                if i == idx {
                    assert(slot(a[idx]) == slot(s[idx]));
                } else {
                    assert(a[i] == s[i]);
                }
                assert(slot(a[i]) == (k, x));
            } else if i < idx {
                assert(a[i] == s[i]);
                assert(slot(a[i]) == (k, x));
            } else {
                assert(a[i + 1] == s[i]);
                assert(slot(a[i + 1]) == (k, x));
            }
        }
    }
}


/// Seeding values one after another keeps the listing canonical and adds exactly those
/// values at the key.
proof fn lemma_seed_all_values(s: Seq<Triple>, key: FactKey, facts: Seq<Fact>)
    requires
        sorted(s),
    ensures
        sorted(seed_all(s, key, facts)),
        forall|x: Value|
            #[trigger] values_at(seed_all(s, key, facts), key_id(key)).contains(x) == (values_at(
                s,
                key_id(key),
            ).contains(x) || facts.map_values(|f: Fact| f.value).contains(x)),
    decreases facts.len(),
{
    if facts.len() == 0 {
        assert(facts.map_values(|f: Fact| f.value) =~= Seq::<Value>::empty());
        assert(seed_all(s, key, facts) == s);
    } else {
        let rest = facts.drop_last();
        let prev = seed_all(s, key, rest);
        lemma_seed_all_values(s, key, rest);
        crate::kernel::triples::lemma_seeded_sorted(prev, triple_for(key, facts.last()));
        law_seed_adds_one_value(prev, key, facts.last(), key);
        let vs = facts.map_values(|f: Fact| f.value);
        let ws = rest.map_values(|f: Fact| f.value);
        assert(vs =~= ws.push(facts.last().value));
        assert forall|x: Value| #[trigger] values_at(seed_all(s, key, facts), key_id(key)).contains(x)
            == (values_at(s, key_id(key)).contains(x) || vs.contains(x)) by {
            if vs.contains(x) {
                let j = choose|j: int| 0 <= j < vs.len() && vs[j] == x;
                if j < ws.len() {
                    assert(ws[j] == x);
                }
            }
            if ws.contains(x) {
                let j = choose|j: int| 0 <= j < ws.len() && ws[j] == x;
                assert(vs[j] == x);
            }
            if x == facts.last().value {
                assert(vs[vs.len() - 1] == x);
            }
        }
    }
}

/// Read-after-set-write: once a cardinality-many write commits, its key holds exactly the
/// written values, whatever it held before.
pub proof fn law_read_after_set_write(s: Seq<Triple>, key: FactKey, facts: Vec<Fact>)
    requires
        sorted(s),
    ensures
        forall|x: Value|
            #[trigger] values_at(apply_one(s, Resolution::Many { key, facts }), key_id(key)).contains(x)
                == facts@.map_values(|f: Fact| f.value).contains(x),
{
    let k = key_id(key);
    crate::kernel::triples::lemma_cleared_reads_empty(s, k);
    lemma_cleared_sorted(s, k);
    lemma_seed_all_values(cleared(s, k), key, facts@);
    assert(values_at(cleared(s, k), k) =~= Seq::<Value>::empty());
}

/// The index of the last resolution in `rs` that writes key `k`, if any.
pub open spec fn last_write(rs: Seq<Resolution>, k: (u64, Seq<u8>)) -> Option<int>
    decreases rs.len(),
{
    if rs.len() == 0 {
        None
    } else if key_id(resolution_key(rs.last())) == k {
        Some(rs.len() - 1)
    } else {
        last_write(rs.drop_last(), k)
    }
}

/// The last write wins: after a batch, a key reads as the last resolution that wrote it left
/// it, or as before the batch if none did.
pub proof fn law_last_write_wins(s: Seq<Triple>, rs: Seq<Resolution>, key: FactKey)
    ensures
        facts_at(applied(s, rs), key_id(key)) == match last_write(rs, key_id(key)) {
            None => facts_at(s, key_id(key)),
            Some(j) => facts_at(apply_one(applied(s, rs.take(j)), rs[j]), key_id(key)),
        },
        last_write(rs, key_id(key)) matches Some(j) ==> 0 <= j < rs.len() && key_id(
            resolution_key(rs[j]),
        ) == key_id(key),
    decreases rs.len(),
{
    if rs.len() > 0 {
        let rest = rs.drop_last();
        if key_id(resolution_key(rs.last())) == key_id(key) {
            assert(rs.take(rs.len() - 1) =~= rest);
        } else {
            law_last_write_wins(s, rest, key);
            law_other_keys_untouched(applied(s, rest), rs.last(), key);
            if let Some(j) = last_write(rest, key_id(key)) {
                assert(rest.take(j) =~= rs.take(j));
                assert(rest[j] == rs[j]);
            }
        }
    }
}

} // verus!
