//! The fact/triple model of committed reality.
//!
//! Committed reality is a set of `(key, value, provenance)` triples in which each
//! `(key, value)` slot appears at most once. It is listed in one canonical order — by entity,
//! then fact-type name, then value — so every query over it is deterministic. A
//! cardinality-one fact holds at most one value per key; a cardinality-many fact holds a set.

use crate::kernel::fact::{key_id, key_lt, type_bytes, Fact, FactKey};
use crate::kernel::hash::{absorb_all, empty_accumulator, fnv128, Accumulator};
use crate::kernel::identity::EntityId;
use crate::kernel::order::{
    lemma_bytes_lt_asymmetric, lemma_bytes_lt_irreflexive, lemma_bytes_lt_total,
    lemma_bytes_lt_transitive,
};
use crate::kernel::value::{canonical_bytes_of, le_bytes_u64, lemma_value_lt_total, value_lt, Value};
use crate::kernel::fact::Provenance;
use vstd::prelude::*;

verus! {

/// One committed value at one fact key, with its provenance.
#[derive(Clone, Copy, PartialEq, Eq, Debug)]
pub struct Triple {
    /// The fact key.
    pub key: FactKey,
    /// The committed value.
    pub value: Value,
    /// Who wrote it, when, and why.
    pub provenance: Provenance,
}

/// The slot a triple occupies: its key identity and its value.
pub open spec fn slot(t: Triple) -> ((u64, Seq<u8>), Value) {
    (key_id(t.key), t.value)
}

/// The canonical order on triples: by key, then by value.
pub open spec fn triple_lt(a: Triple, b: Triple) -> bool {
    key_lt(a.key, b.key) || (key_id(a.key) == key_id(b.key) && value_lt(a.value, b.value))
}

/// A listing is canonical: strictly increasing, so no slot appears twice.
pub open spec fn sorted(s: Seq<Triple>) -> bool {
    forall|i: int, j: int| 0 <= i < j < s.len() ==> triple_lt(#[trigger] s[i], #[trigger] s[j])
}

/// The fact a triple records.
pub open spec fn fact_of(t: Triple) -> Fact {
    Fact { value: t.value, provenance: t.provenance }
}

/// Every committed value at key `k`, in listing order.
pub open spec fn facts_at(s: Seq<Triple>, k: (u64, Seq<u8>)) -> Seq<Fact>
    decreases s.len(),
{
    if s.len() == 0 {
        Seq::empty()
    } else {
        let r = facts_at(s.drop_last(), k);
        if key_id(s.last().key) == k {
            r.push(fact_of(s.last()))
        } else {
            r
        }
    }
}

/// The first committed value at key `k` (the least, in a canonical listing).
pub open spec fn first_at(s: Seq<Triple>, k: (u64, Seq<u8>)) -> Option<Fact> {
    if facts_at(s, k).len() > 0 {
        Some(facts_at(s, k)[0])
    } else {
        None
    }
}

/// The entities bearing fact type `t`, each listed once, in listing order.
pub open spec fn entities_of_type(s: Seq<Triple>, t: Seq<u8>) -> Seq<EntityId>
    decreases s.len(),
{
    if s.len() == 0 {
        Seq::empty()
    } else {
        let r = entities_of_type(s.drop_last(), t);
        let last = s.last();
        if type_bytes(last.key.fact_type) == t && (r.len() == 0 || r.last() != last.key.entity) {
            r.push(last.key.entity)
        } else {
            r
        }
    }
}

/// Every committed fact about entity `e`, as `(key, fact)`, in listing order.
pub open spec fn facts_about(s: Seq<Triple>, e: u64) -> Seq<(FactKey, Fact)>
    decreases s.len(),
{
    if s.len() == 0 {
        Seq::empty()
    } else {
        let r = facts_about(s.drop_last(), e);
        if s.last().key.entity.0 == e {
            r.push((s.last().key, fact_of(s.last())))
        } else {
            r
        }
    }
}

/// The listing after committing triple `t`: it takes its place in the order, replacing the
/// provenance if its slot is already present.
pub open spec fn seeded(s: Seq<Triple>, t: Triple) -> Seq<Triple>
    decreases s.len(),
{
    if s.len() == 0 {
        seq![t]
    } else if triple_lt(s[0], t) {
        seq![s[0]] + seeded(s.drop_first(), t)
    } else if slot(s[0]) == slot(t) {
        s.update(0, t)
    } else {
        seq![t] + s
    }
}

/// The listing after removing every value at key `k`.
pub open spec fn cleared(s: Seq<Triple>, k: (u64, Seq<u8>)) -> Seq<Triple>
    decreases s.len(),
{
    if s.len() == 0 {
        s
    } else {
        let r = cleared(s.drop_last(), k);
        if key_id(s.last().key) == k {
            r
        } else {
            r.push(s.last())
        }
    }
}

/// The canonical bytes of a triple fed to the state digest: entity id (8 bytes LE), fact
/// type name, value (9 fixed bytes). Provenance is excluded.
pub open spec fn triple_bytes_of(t: Triple) -> Seq<u8> {
    le_bytes_u64(t.key.entity.0) + type_bytes(t.key.fact_type) + canonical_bytes_of(t.value)
}

/// The per-triple digests of a listing.
pub open spec fn digests(s: Seq<Triple>) -> Seq<u128> {
    s.map_values(|t: Triple| fnv128(triple_bytes_of(t)))
}

/// The digest accumulator of a listing, computed from scratch.
pub open spec fn rescan(s: Seq<Triple>) -> Accumulator {
    absorb_all(empty_accumulator(), digests(s))
}

/// One more step of a left-to-right scan.
pub proof fn lemma_take_step(s: Seq<Triple>, i: int)
    requires
        0 <= i < s.len(),
    ensures
        s.take(i + 1).drop_last() == s.take(i),
        s.take(i + 1).last() == s[i],
        s.take(i + 1).len() == i + 1,
{
    assert(s.take(i + 1).drop_last() =~= s.take(i));
}

/// Reading one more triple of a scan.
pub proof fn lemma_facts_at_step(s: Seq<Triple>, i: int, k: (u64, Seq<u8>))
    requires
        0 <= i < s.len(),
    ensures
        facts_at(s.take(i + 1), k) == (if key_id(s[i].key) == k {
            facts_at(s.take(i), k).push(fact_of(s[i]))
        } else {
            facts_at(s.take(i), k)
        }),
{
    lemma_take_step(s, i);
}

/// Listing entities over one more triple of a scan.
pub proof fn lemma_entities_step(s: Seq<Triple>, i: int, t: Seq<u8>)
    requires
        0 <= i < s.len(),
    ensures
        entities_of_type(s.take(i + 1), t) == ({
            let r = entities_of_type(s.take(i), t);
            if type_bytes(s[i].key.fact_type) == t && (r.len() == 0 || r.last() != s[i].key.entity) {
                r.push(s[i].key.entity)
            } else {
                r
            }
        }),
{
    lemma_take_step(s, i);
}

/// Collecting the facts about an entity over one more triple of a scan.
pub proof fn lemma_facts_about_step(s: Seq<Triple>, i: int, e: u64)
    requires
        0 <= i < s.len(),
    ensures
        facts_about(s.take(i + 1), e) == (if s[i].key.entity.0 == e {
            facts_about(s.take(i), e).push((s[i].key, fact_of(s[i])))
        } else {
            facts_about(s.take(i), e)
        }),
{
    lemma_take_step(s, i);
}

/// Clearing over one more triple of a scan.
pub proof fn lemma_cleared_step(s: Seq<Triple>, i: int, k: (u64, Seq<u8>))
    requires
        0 <= i < s.len(),
    ensures
        cleared(s.take(i + 1), k) == (if key_id(s[i].key) == k {
            cleared(s.take(i), k)
        } else {
            cleared(s.take(i), k).push(s[i])
        }),
{
    lemma_take_step(s, i);
}

/// Clearing one more triple of a scan: a matching triple is released from the digest.
pub proof fn lemma_clear_step_release(kept: Seq<Triple>, s: Seq<Triple>, i: int)
    requires
        0 <= i < s.len(),
    ensures
        rescan(kept + s.skip(i + 1)) == crate::kernel::hash::release(
            rescan(kept + s.skip(i)),
            fnv128(triple_bytes_of(s[i])),
        ),
{
    let whole = kept + s.skip(i);
    let p = kept.len() as int;
    assert(whole[p] == s[i]);
    assert(whole.remove(p) =~= kept + s.skip(i + 1));
    assert(digests(whole.remove(p)) =~= digests(whole).remove(p));
    crate::kernel::hash::lemma_absorb_all_remove(empty_accumulator(), digests(whole), p);
}

/// Keeping one more triple of a scan leaves the scanned whole unchanged.
pub proof fn lemma_clear_step_keep(kept: Seq<Triple>, s: Seq<Triple>, i: int)
    requires
        0 <= i < s.len(),
    ensures
        kept.push(s[i]) + s.skip(i + 1) == kept + s.skip(i),
{
    assert(kept.push(s[i]) + s.skip(i + 1) =~= kept + s.skip(i));
}

// ---- order facts ---------------------------------------------------------------------

/// The triple order is a strict total order on slots.
pub proof fn lemma_triple_lt_total(a: Triple, b: Triple)
    ensures
        slot(a) == slot(b) || triple_lt(a, b) || triple_lt(b, a),
        !(triple_lt(a, b) && triple_lt(b, a)),
        !triple_lt(a, a),
        triple_lt(a, b) ==> slot(a) != slot(b),
{
    lemma_bytes_lt_total(type_bytes(a.key.fact_type), type_bytes(b.key.fact_type));
    lemma_bytes_lt_irreflexive(type_bytes(a.key.fact_type));
    lemma_bytes_lt_irreflexive(type_bytes(b.key.fact_type));
    lemma_value_lt_total(a.value, b.value);
    if bytes_lt_pair(a, b) {
        lemma_bytes_lt_asymmetric(type_bytes(a.key.fact_type), type_bytes(b.key.fact_type));
    }
}

spec fn bytes_lt_pair(a: Triple, b: Triple) -> bool {
    crate::kernel::order::bytes_lt(type_bytes(a.key.fact_type), type_bytes(b.key.fact_type))
}

/// The triple order is transitive.
pub proof fn lemma_triple_lt_transitive(a: Triple, b: Triple, c: Triple)
    requires
        triple_lt(a, b),
        triple_lt(b, c),
    ensures
        triple_lt(a, c),
{
    let ta = type_bytes(a.key.fact_type);
    let tb = type_bytes(b.key.fact_type);
    let tc = type_bytes(c.key.fact_type);
    if a.key.entity.0 == b.key.entity.0 && b.key.entity.0 == c.key.entity.0 {
        if crate::kernel::order::bytes_lt(ta, tb) && crate::kernel::order::bytes_lt(tb, tc) {
            lemma_bytes_lt_transitive(ta, tb, tc);
        }
        crate::kernel::value::lemma_value_lt_transitive_opt(a.value, b.value, c.value);
    }
}

// ---- reads -----------------------------------------------------------------------------

/// Reading a concatenation reads each part.
pub proof fn lemma_facts_at_append(a: Seq<Triple>, b: Seq<Triple>, k: (u64, Seq<u8>))
    ensures
        facts_at(a + b, k) == facts_at(a, k) + facts_at(b, k),
    decreases b.len(),
{
    if b.len() == 0 {
        assert(a + b =~= a);
        assert(facts_at(a, k) + facts_at(b, k) =~= facts_at(a, k));
    } else {
        lemma_facts_at_append(a, b.drop_last(), k);
        assert((a + b).drop_last() =~= a + b.drop_last());
        assert((a + b).last() == b.last());
        if key_id(b.last().key) == k {
            assert(facts_at(a, k) + facts_at(b, k) =~= (facts_at(a, k) + facts_at(
                b.drop_last(),
                k,
            )).push(fact_of(b.last())));
        }
    }
}

/// Every fact read at `k` comes from some triple at `k`.
pub proof fn lemma_facts_at_source(s: Seq<Triple>, k: (u64, Seq<u8>), n: int)
    requires
        0 <= n < facts_at(s, k).len(),
    ensures
        exists|i: int|
            0 <= i < s.len() && key_id(s[i].key) == k && fact_of(#[trigger] s[i]) == facts_at(
                s,
                k,
            )[n],
    decreases s.len(),
{
    let r = facts_at(s.drop_last(), k);
    if n < r.len() {
        lemma_facts_at_source(s.drop_last(), k, n);
        let i = choose|i: int|
            0 <= i < s.drop_last().len() && key_id(s.drop_last()[i].key) == k && fact_of(
                #[trigger] s.drop_last()[i],
            ) == r[n];
        assert(s[i] == s.drop_last()[i]);
    } else {
        assert(s[s.len() - 1] == s.last());
    }
}

/// In a canonical listing the values read at one key are strictly increasing.
pub proof fn lemma_facts_at_sorted(s: Seq<Triple>, k: (u64, Seq<u8>))
    requires
        sorted(s),
    ensures
        forall|i: int, j: int|
            0 <= i < j < facts_at(s, k).len() ==> value_lt(
                #[trigger] facts_at(s, k)[i].value,
                #[trigger] facts_at(s, k)[j].value,
            ),
    decreases s.len(),
{
    if s.len() > 0 {
        let p = s.drop_last();
        assert(sorted(p));
        lemma_facts_at_sorted(p, k);
        let r = facts_at(p, k);
        if key_id(s.last().key) == k {
            assert forall|i: int| 0 <= i < r.len() implies value_lt(
                r[i].value,
                s.last().value,
            ) by {
                lemma_facts_at_source(p, k, i);
                let m = choose|m: int|
                    0 <= m < p.len() && key_id(p[m].key) == k && fact_of(#[trigger] p[m]) == r[i];
                assert(triple_lt(s[m], s[s.len() - 1]));
                lemma_triple_lt_total(s[m], s[s.len() - 1]);
                crate::kernel::order::lemma_bytes_lt_irreflexive(k.1);
            }
        }
    }
}

/// In a canonical listing the entities bearing a type are strictly increasing.
pub proof fn lemma_entities_sorted(s: Seq<Triple>, t: Seq<u8>)
    requires
        sorted(s),
    ensures
        forall|i: int, j: int|
            0 <= i < j < entities_of_type(s, t).len() ==> (#[trigger] entities_of_type(s, t)[i]).0
                < (#[trigger] entities_of_type(s, t)[j]).0,
        entities_of_type(s, t).len() > 0 && s.len() > 0 ==> entities_of_type(s, t).last().0
            <= s.last().key.entity.0,
    decreases s.len(),
{
    if s.len() > 0 {
        let p = s.drop_last();
        assert(sorted(p));
        lemma_entities_sorted(p, t);
        let r = entities_of_type(p, t);
        if r.len() > 0 {
            assert(triple_lt(s[p.len() - 1], s[s.len() - 1]));
            assert(p.last() == s[p.len() - 1]);
        }
    }
}

/// Reading a key the listing never mentions gives nothing.
pub proof fn lemma_facts_at_absent(s: Seq<Triple>, k: (u64, Seq<u8>))
    requires
        forall|i: int| 0 <= i < s.len() ==> key_id(#[trigger] s[i].key) != k,
    ensures
        facts_at(s, k) == Seq::<Fact>::empty(),
    decreases s.len(),
{
    if s.len() > 0 {
        lemma_facts_at_absent(s.drop_last(), k);
    }
}

// ---- commits ---------------------------------------------------------------------------

/// Committing `t` past a prefix that precedes it leaves the prefix in place.
pub proof fn lemma_seeded_prefix(s: Seq<Triple>, t: Triple, i: int)
    requires
        0 <= i <= s.len(),
        forall|j: int| 0 <= j < i ==> triple_lt(#[trigger] s[j], t),
    ensures
        seeded(s, t) == s.take(i) + seeded(s.skip(i), t),
    decreases i,
{
    if i == 0 {
        assert(s.take(0) + seeded(s.skip(0), t) =~= seeded(s, t)) by {
            assert(s.skip(0) =~= s);
        }
    } else {
        let d = s.drop_first();
        assert forall|j: int| 0 <= j < i - 1 implies triple_lt(#[trigger] d[j], t) by {
            assert(d[j] == s[j + 1]);
        }
        lemma_seeded_prefix(d, t, i - 1);
        assert(d.skip(i - 1) =~= s.skip(i));
        assert(seq![s[0]] + d.take(i - 1) =~= s.take(i));
        assert(seq![s[0]] + (d.take(i - 1) + seeded(s.skip(i), t)) =~= s.take(i) + seeded(
            s.skip(i),
            t,
        ));
    }
}

/// Committing into a canonical listing keeps it canonical.
pub proof fn lemma_seeded_sorted(s: Seq<Triple>, t: Triple)
    requires
        sorted(s),
    ensures
        sorted(seeded(s, t)),
        seeded(s, t).len() >= 1,
        forall|x: Triple| #[trigger] seeded(s, t).contains(x) ==> x == t || s.contains(x),
    decreases s.len(),
{
    if s.len() == 0 {
    } else if triple_lt(s[0], t) {
        let d = s.drop_first();
        assert(sorted(d));
        lemma_seeded_sorted(d, t);
        let r = seeded(d, t);
        let n = seq![s[0]] + r;
        assert forall|x: Triple| r.contains(x) implies triple_lt(s[0], x) by {
            if x == t {
            } else {
                let m = choose|m: int| 0 <= m < d.len() && d[m] == x;
                assert(s[m + 1] == x);
            }
        }
        assert forall|i: int, j: int| 0 <= i < j < n.len() implies triple_lt(
            #[trigger] n[i],
            #[trigger] n[j],
        ) by {
            if i == 0 {
                assert(r.contains(n[j])) by {
                    assert(r[j - 1] == n[j]);
                }
            } else {
                assert(n[i] == r[i - 1] && n[j] == r[j - 1]);
            }
        }
        assert forall|x: Triple| n.contains(x) implies x == t || s.contains(x) by {
            let m = choose|m: int| 0 <= m < n.len() && n[m] == x;
            if m == 0 {
                assert(s[0] == x);
            } else {
                assert(r[m - 1] == x);
                assert(r.contains(x));
                if x != t {
                    let q = choose|q: int| 0 <= q < d.len() && d[q] == x;
                    assert(s[q + 1] == x);
                }
            }
        }
    } else if slot(s[0]) == slot(t) {
        let n = s.update(0, t);
        assert forall|i: int, j: int| 0 <= i < j < n.len() implies triple_lt(
            #[trigger] n[i],
            #[trigger] n[j],
        ) by {
            assert(triple_lt(s[i], s[j]));
        }
        assert forall|x: Triple| n.contains(x) implies x == t || s.contains(x) by {
            let m = choose|m: int| 0 <= m < n.len() && n[m] == x;
            if m > 0 {
                assert(s[m] == x);
            }
        }
    } else {
        let n = seq![t] + s;
        lemma_triple_lt_total(s[0], t);
        assert forall|i: int, j: int| 0 <= i < j < n.len() implies triple_lt(
            #[trigger] n[i],
            #[trigger] n[j],
        ) by {
            if i == 0 {
                if j > 1 {
                    assert(triple_lt(s[0], s[j - 1]));
                    lemma_triple_lt_transitive(t, s[0], s[j - 1]);
                }
            } else {
                assert(n[i] == s[i - 1] && n[j] == s[j - 1]);
            }
        }
        assert forall|x: Triple| n.contains(x) implies x == t || s.contains(x) by {
            let m = choose|m: int| 0 <= m < n.len() && n[m] == x;
            if m > 0 {
                assert(s[m - 1] == x);
            }
        }
    }
}

/// Every triple left after a clear was already present.
pub proof fn lemma_cleared_subset(s: Seq<Triple>, k: (u64, Seq<u8>))
    ensures
        forall|x: Triple| #[trigger] cleared(s, k).contains(x) ==> s.contains(x) && key_id(x.key) != k,
        cleared(s, k).len() <= s.len(),
    decreases s.len(),
{
    if s.len() > 0 {
        let p = s.drop_last();
        lemma_cleared_subset(p, k);
        let r = cleared(p, k);
        assert forall|x: Triple| cleared(s, k).contains(x) implies s.contains(x) && key_id(x.key)
            != k by {
            let m = choose|m: int| 0 <= m < cleared(s, k).len() && cleared(s, k)[m] == x;
            if m < r.len() {
                assert(r[m] == x);
                assert(r.contains(x));
                let q = choose|q: int| 0 <= q < p.len() && p[q] == x;
                assert(s[q] == x);
            } else {
                assert(s[s.len() - 1] == x);
            }
        }
    }
}

/// Clearing a canonical listing keeps it canonical.
pub proof fn lemma_cleared_sorted(s: Seq<Triple>, k: (u64, Seq<u8>))
    requires
        sorted(s),
    ensures
        sorted(cleared(s, k)),
    decreases s.len(),
{
    if s.len() > 0 {
        let p = s.drop_last();
        assert(sorted(p));
        lemma_cleared_sorted(p, k);
        lemma_cleared_subset(p, k);
        let r = cleared(p, k);
        if key_id(s.last().key) != k {
            let n = r.push(s.last());
            assert forall|i: int, j: int| 0 <= i < j < n.len() implies triple_lt(
                #[trigger] n[i],
                #[trigger] n[j],
            ) by {
                if j == r.len() {
                    assert(r.contains(r[i]));
                    let q = choose|q: int| 0 <= q < p.len() && p[q] == r[i];
                    assert(triple_lt(s[q], s[s.len() - 1]));
                } else {
                    assert(n[i] == r[i] && n[j] == r[j]);
                }
            }
        }
    }
}

/// Nothing remains at a cleared key.
pub proof fn lemma_cleared_reads_empty(s: Seq<Triple>, k: (u64, Seq<u8>))
    ensures
        facts_at(cleared(s, k), k) == Seq::<Fact>::empty(),
{
    lemma_cleared_subset(s, k);
    let c = cleared(s, k);
    assert forall|i: int| 0 <= i < c.len() implies key_id(#[trigger] c[i].key) != k by {
        assert(c.contains(c[i]));
    }
    lemma_facts_at_absent(c, k);
}

/// Reading a one-triple listing.
pub proof fn lemma_facts_at_single(x: Triple, k: (u64, Seq<u8>))
    ensures
        facts_at(seq![x], k) == (if key_id(x.key) == k {
            seq![fact_of(x)]
        } else {
            Seq::<Fact>::empty()
        }),
{
    assert(seq![x].drop_last() =~= Seq::<Triple>::empty());
    assert(seq![x].last() == x);
    assert(facts_at(Seq::<Triple>::empty(), k) =~= Seq::<Fact>::empty());
    if key_id(x.key) == k {
        assert(Seq::<Fact>::empty().push(fact_of(x)) =~= seq![fact_of(x)]);
    }
}

/// Committing `t` into a listing with nothing at its key leaves exactly `t` there: a read
/// gives back what a cardinality-one write wrote.
pub proof fn lemma_seeded_reads_back(s: Seq<Triple>, t: Triple)
    requires
        facts_at(s, key_id(t.key)) == Seq::<Fact>::empty(),
    ensures
        facts_at(seeded(s, t), key_id(t.key)) == seq![fact_of(t)],
    decreases s.len(),
{
    let k = key_id(t.key);
    lemma_facts_at_single(t, k);
    if s.len() == 0 {
        assert(seeded(s, t) =~= seq![t]);
    } else {
        lemma_no_key_anywhere(s, k);
        assert(key_id(s[0].key) != k);
        if triple_lt(s[0], t) {
            let d = s.drop_first();
            assert(facts_at(d, k) == Seq::<Fact>::empty()) by {
                assert forall|i: int| 0 <= i < d.len() implies key_id(#[trigger] d[i].key)
                    != k by {
                    assert(d[i] == s[i + 1]);
                }
                lemma_facts_at_absent(d, k);
            }
            lemma_seeded_reads_back(d, t);
            lemma_facts_at_append(seq![s[0]], seeded(d, t), k);
            lemma_facts_at_single(s[0], k);
            assert(Seq::<Fact>::empty() + seq![fact_of(t)] =~= seq![fact_of(t)]);
        } else {
            assert(slot(s[0]) != slot(t));
            lemma_facts_at_append(seq![t], s, k);
            assert(seq![fact_of(t)] + Seq::<Fact>::empty() =~= seq![fact_of(t)]);
        }
    }
}

/// A listing with nothing read at `k` mentions `k` nowhere.
pub proof fn lemma_no_key_anywhere(s: Seq<Triple>, k: (u64, Seq<u8>))
    requires
        facts_at(s, k) == Seq::<Fact>::empty(),
    ensures
        forall|i: int| 0 <= i < s.len() ==> key_id(#[trigger] s[i].key) != k,
    decreases s.len(),
{
    if s.len() > 0 {
        let p = s.drop_last();
        if key_id(s.last().key) == k {
            assert(facts_at(s, k).len() == facts_at(p, k).len() + 1);
        }
        lemma_no_key_anywhere(p, k);
        assert forall|i: int| 0 <= i < s.len() implies key_id(#[trigger] s[i].key) != k by {
            if i < p.len() {
                assert(s[i] == p[i]);
            }
        }
    }
}

// ---- the digest ------------------------------------------------------------------------

/// Where committing `t` places it: past every triple that precedes it.
pub open spec fn seed_index(s: Seq<Triple>, t: Triple) -> int
    decreases s.len(),
{
    if s.len() == 0 {
        0
    } else if triple_lt(s[0], t) {
        1 + seed_index(s.drop_first(), t)
    } else {
        0
    }
}

/// Whether committing `t` only replaces the provenance of a slot already present.
pub open spec fn seed_replaces(s: Seq<Triple>, t: Triple) -> bool {
    seed_index(s, t) < s.len() && slot(s[seed_index(s, t)]) == slot(t)
}

/// Committing `t` either replaces the triple at its slot or inserts it at its place.
pub proof fn lemma_seeded_shape(s: Seq<Triple>, t: Triple)
    ensures
        0 <= seed_index(s, t) <= s.len(),
        forall|j: int| 0 <= j < seed_index(s, t) ==> triple_lt(#[trigger] s[j], t),
        seed_index(s, t) < s.len() ==> !triple_lt(s[seed_index(s, t)], t),
        seeded(s, t) == (if seed_replaces(s, t) {
            s.update(seed_index(s, t), t)
        } else {
            s.insert(seed_index(s, t), t)
        }),
    decreases s.len(),
{
    if s.len() == 0 {
        assert(seq![t] =~= s.insert(0, t));
    } else if triple_lt(s[0], t) {
        let d = s.drop_first();
        lemma_seeded_shape(d, t);
        let i = seed_index(d, t);
        assert forall|j: int| 0 <= j < seed_index(s, t) implies triple_lt(#[trigger] s[j], t) by {
            if j > 0 {
                assert(s[j] == d[j - 1]);
            }
        }
        if seed_replaces(d, t) {
            assert(seq![s[0]] + d.update(i, t) =~= s.update(i + 1, t));
        } else {
            assert(seq![s[0]] + d.insert(i, t) =~= s.insert(i + 1, t));
        }
    } else if slot(s[0]) == slot(t) {
    } else {
        assert(seq![t] + s =~= s.insert(0, t));
    }
}

/// Committing `t` changes the digests by one insertion, or not at all when only the
/// provenance of an existing slot changes.
pub proof fn lemma_seeded_digests(s: Seq<Triple>, t: Triple)
    ensures
        digests(seeded(s, t)) == (if seed_replaces(s, t) {
            digests(s)
        } else {
            digests(s).insert(seed_index(s, t), fnv128(triple_bytes_of(t)))
        }),
{
    lemma_seeded_shape(s, t);
    let i = seed_index(s, t);
    if seed_replaces(s, t) {
        assert(triple_bytes_of(s[i]) == triple_bytes_of(t));
        assert(digests(s.update(i, t)) =~= digests(s));
    } else {
        assert(digests(s.insert(i, t)) =~= digests(s).insert(i, fnv128(triple_bytes_of(t))));
    }
}

// ---- the frame -------------------------------------------------------------------------

/// Clearing one key leaves every other key's values as they were.
pub proof fn lemma_cleared_frame(s: Seq<Triple>, k: (u64, Seq<u8>), other: (u64, Seq<u8>))
    requires
        other != k,
    ensures
        facts_at(cleared(s, k), other) == facts_at(s, other),
    decreases s.len(),
{
    if s.len() > 0 {
        lemma_cleared_frame(s.drop_last(), k, other);
        let r = cleared(s.drop_last(), k);
        if key_id(s.last().key) != k {
            assert(r.push(s.last()).drop_last() =~= r);
        }
    }
}

/// Committing a triple at one key leaves every other key's values as they were.
pub proof fn lemma_seeded_frame(s: Seq<Triple>, t: Triple, other: (u64, Seq<u8>))
    requires
        key_id(t.key) != other,
    ensures
        facts_at(seeded(s, t), other) == facts_at(s, other),
    decreases s.len(),
{
    lemma_facts_at_single(t, other);
    if s.len() == 0 {
        assert(facts_at(s, other) =~= Seq::<Fact>::empty());
    } else if triple_lt(s[0], t) {
        let d = s.drop_first();
        lemma_seeded_frame(d, t, other);
        lemma_facts_at_append(seq![s[0]], seeded(d, t), other);
        assert(s =~= seq![s[0]] + d);
        lemma_facts_at_append(seq![s[0]], d, other);
    } else if slot(s[0]) == slot(t) {
        let d = s.drop_first();
        assert(s =~= seq![s[0]] + d);
        assert(s.update(0, t) =~= seq![t] + d);
        lemma_facts_at_append(seq![s[0]], d, other);
        lemma_facts_at_append(seq![t], d, other);
        lemma_facts_at_single(s[0], other);
    } else {
        lemma_facts_at_append(seq![t], s, other);
        assert(Seq::<Fact>::empty() + facts_at(s, other) =~= facts_at(s, other));
    }
}


// ---- membership ------------------------------------------------------------------------

/// The values committed at key `k`, in listing order.
pub open spec fn values_at(s: Seq<Triple>, k: (u64, Seq<u8>)) -> Seq<Value> {
    facts_at(s, k).map_values(|f: Fact| f.value)
}

/// A value is committed at a key exactly when some triple of the listing holds that slot,
/// and every triple at the key is read there.
pub proof fn lemma_values_at_members(s: Seq<Triple>, k: (u64, Seq<u8>))
    ensures
        forall|x: Value|
            values_at(s, k).contains(x) <==> exists|i: int| 0 <= i < s.len() && #[trigger] slot(s[i]) == (k, x),
        forall|i: int|
            0 <= i < s.len() && key_id(s[i].key) == k ==> facts_at(s, k).contains(fact_of(#[trigger] s[i])),
    decreases s.len(),
{
    if s.len() > 0 {
        let p = s.drop_last();
        lemma_values_at_members(p, k);
        let fp = facts_at(p, k);
        let last = s.last();
        assert forall|x: Value| values_at(s, k).contains(x) <==> exists|i: int|
            0 <= i < s.len() && #[trigger] slot(s[i]) == (k, x) by {
            if key_id(last.key) == k {
                assert(values_at(s, k) =~= values_at(p, k).push(last.value));
            } else {
                assert(values_at(s, k) =~= values_at(p, k));
            }
            if values_at(s, k).contains(x) {
                let vs = values_at(s, k);
                let j = choose|j: int| 0 <= j < vs.len() && vs[j] == x;
                if j < values_at(p, k).len() {
                    assert(values_at(p, k)[j] == x);
                    assert(values_at(p, k).contains(x));
                    let i = choose|i: int| 0 <= i < p.len() && #[trigger] slot(p[i]) == (k, x);
                    assert(s[i] == p[i]);
                    assert(slot(s[i]) == (k, x));
                } else {
                    assert(key_id(last.key) == k);
                    assert(last.value == x);
                    assert(s[s.len() - 1] == last);
                    assert(slot(s[s.len() - 1]) == (k, x));
                }
            }
            if exists|i: int| 0 <= i < s.len() && #[trigger] slot(s[i]) == (k, x) {
                let i = choose|i: int| 0 <= i < s.len() && #[trigger] slot(s[i]) == (k, x);
                if i < p.len() {
                    assert(s[i] == p[i]);
                    assert(slot(p[i]) == (k, x));
                    assert(values_at(p, k).contains(x));
                    let j = choose|j: int| 0 <= j < values_at(p, k).len() && values_at(p, k)[j] == x;
                    assert(values_at(s, k)[j] == x);
                } else {
                    assert(s[i] == last);
                    let vs = values_at(s, k);
                    assert(vs[vs.len() - 1] == x);
                }
                assert(values_at(s, k).contains(x));
            }
        }
        assert forall|i: int| 0 <= i < s.len() && key_id(s[i].key) == k implies facts_at(
            s,
            k,
        ).contains(fact_of(#[trigger] s[i])) by {
            if i < p.len() {
                assert(s[i] == p[i]);
                assert(fp.contains(fact_of(p[i])));
                let j = choose|j: int| 0 <= j < fp.len() && fp[j] == fact_of(p[i]);
                assert(facts_at(s, k) =~= fp.push(fact_of(last)) || facts_at(s, k) =~= fp);
                assert(facts_at(s, k)[j] == fp[j]);
            } else {
                assert(facts_at(s, k) =~= fp.push(fact_of(last)));
                assert(facts_at(s, k)[fp.len() as int] == fact_of(last));
            }
        }
    }
}

/// An entity is listed for a fact type exactly when some triple of that type belongs to it.
pub proof fn lemma_entities_members(s: Seq<Triple>, t: Seq<u8>)
    ensures
        forall|e: EntityId|
            entities_of_type(s, t).contains(e) <==> exists|i: int|
                0 <= i < s.len() && type_bytes(s[i].key.fact_type) == t && #[trigger] s[i].key.entity == e,
    decreases s.len(),
{
    if s.len() > 0 {
        let p = s.drop_last();
        lemma_entities_members(p, t);
        let r = entities_of_type(p, t);
        let last = s.last();
        assert forall|e: EntityId| entities_of_type(s, t).contains(e) <==> exists|i: int|
            0 <= i < s.len() && type_bytes(s[i].key.fact_type) == t && #[trigger] s[i].key.entity == e by {
            if type_bytes(last.key.fact_type) == t && (r.len() == 0 || r.last() != last.key.entity) {
                assert(entities_of_type(s, t) =~= r.push(last.key.entity));
            } else {
                assert(entities_of_type(s, t) =~= r);
            }
            if entities_of_type(s, t).contains(e) {
                if r.contains(e) {
                    let i = choose|i: int|
                        0 <= i < p.len() && type_bytes(p[i].key.fact_type) == t && #[trigger] p[i].key.entity == e;
                    assert(s[i] == p[i]);
                } else {
                    assert(s[s.len() - 1] == last);
                }
            }
            if exists|i: int| 0 <= i < s.len() && type_bytes(s[i].key.fact_type) == t && #[trigger] s[i].key.entity == e {
                let i = choose|i: int|
                    0 <= i < s.len() && type_bytes(s[i].key.fact_type) == t && #[trigger] s[i].key.entity == e;
                if i < p.len() {
                    assert(p[i] == s[i]);
                    assert(r.contains(e));
                    if type_bytes(last.key.fact_type) == t && (r.len() == 0 || r.last() != last.key.entity) {
                        let j = choose|j: int| 0 <= j < r.len() && r[j] == e;
                        assert(r.push(last.key.entity)[j] == e);
                    }
                } else {
                    if type_bytes(last.key.fact_type) == t && (r.len() == 0 || r.last() != last.key.entity) {
                        assert(r.push(last.key.entity)[r.len() as int] == e);
                    } else {
                        assert(r[r.len() - 1] == e);
                    }
                }
            }
        }
    }
}

} // verus!
