//! Material queries: what an object is made of, and what that composition implies.
//!
//! Materials are representation-independent, exactly as space is: a consumer asks a
//! question (is this flammable, how strong is it, what is it made of) and gets an answer
//! without depending on how composition is stored or which properties a material happens to
//! expose. A material is an entity carrying property facts (density and friends); an object
//! references its materials through a cardinality-many link, because composites are the
//! rule, not the exception.
//!
//! The property-over-names discipline lives here: nothing in this module, or anywhere in
//! the engine, knows "oak" or "steel". It knows density, hardness, flammability. A
//! composite's behaviour is derived from its constituents' properties, and only for
//! aggregates that are well-defined without knowing each material's proportion: a structure
//! is only as strong as its weakest material, and burns or poisons as readily as its worst
//! one. Proportion-weighted aggregates (bulk density, total thermal mass) await a
//! per-constituent proportion fact and are deliberately not offered yet.

use crate::kernel::fact::{type_bytes, FactKey, FactType};
use crate::kernel::identity::EntityId;
use crate::kernel::system::CommittedView;
use crate::kernel::triples::{first_at, Triple};
use crate::kernel::value::Value;
use crate::physical::schema::{
    made_of, material_conductivity, material_density, material_flammability, material_hardness,
    material_thermal_capacity, material_toxicity,
};
use crate::physical::space::{entities_in, refs_of};
use vstd::prelude::*;

verus! {

/// The integer property `ft` of entity `m`, if it exposes one.
pub open spec fn property_spec(s: Seq<Triple>, m: EntityId, ft: FactType) -> Option<i64> {
    match first_at(s, (m.0, type_bytes(ft))) {
        Some(f) => match f.value {
            Value::Int(n) => Some(n),
            _ => None,
        },
        None => None,
    }
}

/// The property `ft` of each material of `mats` that exposes it, in order.
pub open spec fn properties_of(s: Seq<Triple>, mats: Seq<EntityId>, ft: FactType) -> Seq<i64>
    decreases mats.len(),
{
    if mats.len() == 0 {
        Seq::empty()
    } else {
        let r = properties_of(s, mats.drop_last(), ft);
        match property_spec(s, mats.last(), ft) {
            Some(n) => r.push(n),
            None => r,
        }
    }
}

/// The least of a list of integers, if there is any.
pub open spec fn least(xs: Seq<i64>) -> Option<i64>
    decreases xs.len(),
{
    if xs.len() == 0 {
        None
    } else {
        match least(xs.drop_last()) {
            None => Some(xs.last()),
            Some(m) => Some(if xs.last() < m { xs.last() } else { m }),
        }
    }
}

/// The greatest of a list of integers, if there is any.
pub open spec fn greatest(xs: Seq<i64>) -> Option<i64>
    decreases xs.len(),
{
    if xs.len() == 0 {
        None
    } else {
        match greatest(xs.drop_last()) {
            None => Some(xs.last()),
            Some(m) => Some(if xs.last() > m { xs.last() } else { m }),
        }
    }
}

/// The greatest of some values is one of them and no smaller than any; there is none
/// exactly when there are no values.
pub proof fn law_greatest_is_the_maximum(xs: Seq<i64>)
    ensures
        greatest(xs) is None <==> xs.len() == 0,
        greatest(xs) matches Some(m) ==> xs.contains(m) && forall|i: int|
            0 <= i < xs.len() ==> #[trigger] xs[i] <= m,
    decreases xs.len(),
{
    if xs.len() > 0 {
        let rest = xs.drop_last();
        law_greatest_is_the_maximum(rest);
        let m = greatest(xs)->Some_0;
        assert forall|i: int| 0 <= i < xs.len() implies #[trigger] xs[i] <= m by {
            if i < rest.len() {
                assert(xs[i] == rest[i]);
            }
        }
        if m == xs.last() {
            assert(xs[xs.len() - 1] == m);
        } else {
            let j = choose|j: int| 0 <= j < rest.len() && rest[j] == m;
            assert(xs[j] == m);
        }
    }
}

/// The materials `object` is composed of, in the committed (ascending) order.
pub open spec fn materials_spec(s: Seq<Triple>, object: EntityId) -> Seq<EntityId> {
    refs_of(s, object, made_of())
}

/// The materials `object` is composed of, in deterministic order. Empty if the object
/// declares no composition. Each returned entity carries the property facts the accessors
/// below read.
pub fn materials_of<V: CommittedView + ?Sized>(view: &V, object: EntityId) -> (r: Vec<EntityId>)
    ensures
        r@ == materials_spec(view.committed(), object),
{
    let facts = view.read_all(FactKey::new(object, made_of()));
    entities_in(facts.as_slice())
}

/// One integer property of a single material entity, or `None` if the material does not
/// expose it. The generic accessor behind the typed ones below: a material exposes only the
/// characteristics it has.
pub fn property<V: CommittedView + ?Sized>(view: &V, material: EntityId, fact_type: FactType) -> (r:
    Option<i64>)
    ensures
        r == property_spec(view.committed(), material, fact_type),
{
    match view.read(FactKey::new(material, fact_type)) {
        Some(f) => match f.value {
            Value::Int(n) => Some(n),
            _ => None,
        },
        None => None,
    }
}

/// A material's density, in kg/m³.
pub fn density<V: CommittedView + ?Sized>(view: &V, material: EntityId) -> (r: Option<i64>)
    ensures
        r == property_spec(view.committed(), material, material_density()),
{
    property(view, material, material_density())
}

/// A material's hardness, its structural strength, 0..=10000.
pub fn hardness<V: CommittedView + ?Sized>(view: &V, material: EntityId) -> (r: Option<i64>)
    ensures
        r == property_spec(view.committed(), material, material_hardness()),
{
    property(view, material, material_hardness())
}

/// A material's specific heat capacity, J/(kg·K).
pub fn thermal_capacity<V: CommittedView + ?Sized>(view: &V, material: EntityId) -> (r: Option<i64>)
    ensures
        r == property_spec(view.committed(), material, material_thermal_capacity()),
{
    property(view, material, material_thermal_capacity())
}

/// A material's flammability, 0..=10000.
pub fn flammability<V: CommittedView + ?Sized>(view: &V, material: EntityId) -> (r: Option<i64>)
    ensures
        r == property_spec(view.committed(), material, material_flammability()),
{
    property(view, material, material_flammability())
}

/// A material's conductivity, 0..=10000.
pub fn conductivity<V: CommittedView + ?Sized>(view: &V, material: EntityId) -> (r: Option<i64>)
    ensures
        r == property_spec(view.committed(), material, material_conductivity()),
{
    property(view, material, material_conductivity())
}

/// A material's toxicity, 0..=10000.
pub fn toxicity<V: CommittedView + ?Sized>(view: &V, material: EntityId) -> (r: Option<i64>)
    ensures
        r == property_spec(view.committed(), material, material_toxicity()),
{
    property(view, material, material_toxicity())
}

/// The property `ft` of every material of `object` that exposes it, in order.
fn constituent_properties<V: CommittedView + ?Sized>(view: &V, object: EntityId, ft: FactType) -> (r:
    Vec<i64>)
    ensures
        r@ == properties_of(view.committed(), materials_spec(view.committed(), object), ft),
{
    let mats = materials_of(view, object);
    let mut r: Vec<i64> = Vec::new();
    let mut i: usize = 0;
    while i < mats.len()
        invariant
            i <= mats.len(),
            mats@ == materials_spec(view.committed(), object),
            r@ == properties_of(view.committed(), mats@.take(i as int), ft),
        decreases mats.len() - i,
    {
        assert(mats@.take(i + 1).drop_last() =~= mats@.take(i as int));
        assert(mats@.take(i + 1).last() == mats@[i as int]);
        match property(view, mats[i], ft) {
            Some(n) => {
                r.push(n);
            },
            None => {},
        }
        i = i + 1;
    }
    assert(mats@.take(i as int) =~= mats@);
    r
}

/// The least of `xs`, if any.
fn least_of(xs: &Vec<i64>) -> (r: Option<i64>)
    ensures
        r == least(xs@),
{
    let mut best: Option<i64> = None;
    let mut i: usize = 0;
    while i < xs.len()
        invariant
            i <= xs.len(),
            best == least(xs@.take(i as int)),
        decreases xs.len() - i,
    {
        assert(xs@.take(i + 1).drop_last() =~= xs@.take(i as int));
        assert(xs@.take(i + 1).last() == xs@[i as int]);
        best = match best {
            None => Some(xs[i]),
            Some(m) => Some(if xs[i] < m { xs[i] } else { m }),
        };
        i = i + 1;
    }
    assert(xs@.take(i as int) =~= xs@);
    best
}

/// The greatest of `xs`, if any.
fn greatest_of(xs: &Vec<i64>) -> (r: Option<i64>)
    ensures
        r == greatest(xs@),
{
    let mut best: Option<i64> = None;
    let mut i: usize = 0;
    while i < xs.len()
        invariant
            i <= xs.len(),
            best == greatest(xs@.take(i as int)),
        decreases xs.len() - i,
    {
        assert(xs@.take(i + 1).drop_last() =~= xs@.take(i as int));
        assert(xs@.take(i + 1).last() == xs@[i as int]);
        best = match best {
            None => Some(xs[i]),
            Some(m) => Some(if xs[i] > m { xs[i] } else { m }),
        };
        i = i + 1;
    }
    assert(xs@.take(i as int) =~= xs@);
    best
}

/// The structural hardness of a composite `object`: the minimum hardness across its
/// materials. A structure fails at its weakest material, whatever it is named. `None` if the
/// object has no materials, or none of them expose a hardness.
pub fn structural_hardness<V: CommittedView + ?Sized>(view: &V, object: EntityId) -> (r: Option<i64>)
    ensures
        r == least(
            properties_of(
                view.committed(),
                materials_spec(view.committed(), object),
                material_hardness(),
            ),
        ),
{
    let xs = constituent_properties(view, object, material_hardness());
    least_of(&xs)
}

/// The flammability of a composite `object`: the maximum flammability across its materials.
/// Fire spreads where the most flammable constituent satisfies ignition conditions. `None`
/// if the object has no materials that expose a flammability.
pub fn flammability_of<V: CommittedView + ?Sized>(view: &V, object: EntityId) -> (r: Option<i64>)
    ensures
        r == greatest(
            properties_of(
                view.committed(),
                materials_spec(view.committed(), object),
                material_flammability(),
            ),
        ),
{
    let xs = constituent_properties(view, object, material_flammability());
    greatest_of(&xs)
}

/// Whether a composite `object` can burn at all: some constituent has a nonzero
/// flammability. The threshold for how readily it ignites is a consumer's rule, not an engine
/// number; this only answers "is it combustible".
pub fn is_flammable<V: CommittedView + ?Sized>(view: &V, object: EntityId) -> (r: bool)
    ensures
        r == match greatest(
            properties_of(
                view.committed(),
                materials_spec(view.committed(), object),
                material_flammability(),
            ),
        ) {
            Some(f) => f > 0,
            None => false,
        },
{
    match flammability_of(view, object) {
        Some(f) => f > 0,
        None => false,
    }
}

/// The toxicity of a composite `object`: the maximum toxicity across its materials. A
/// composite is as hazardous as its most toxic part. `None` if no constituent exposes a
/// toxicity.
pub fn toxicity_of<V: CommittedView + ?Sized>(view: &V, object: EntityId) -> (r: Option<i64>)
    ensures
        r == greatest(
            properties_of(
                view.committed(),
                materials_spec(view.committed(), object),
                material_toxicity(),
            ),
        ),
{
    let xs = constituent_properties(view, object, material_toxicity());
    greatest_of(&xs)
}

/// The thermal capacity of a composite `object`: the maximum specific heat across its
/// materials, J/(kg·K), a proportion-free estimate of the object's thermal inertia. `None` if
/// no material exposes a thermal capacity; the environment's temperature systems read this to
/// damp a region's swing.
pub fn thermal_capacity_of<V: CommittedView + ?Sized>(view: &V, object: EntityId) -> (r: Option<i64>)
    ensures
        r == greatest(
            properties_of(
                view.committed(),
                materials_spec(view.committed(), object),
                material_thermal_capacity(),
            ),
        ),
{
    let xs = constituent_properties(view, object, material_thermal_capacity());
    greatest_of(&xs)
}

/// The least of a list bounds every member from below and is one of them.
pub proof fn lemma_least_is_minimum(xs: Seq<i64>)
    ensures
        least(xs) matches Some(m) ==> xs.contains(m) && forall|i: int|
            0 <= i < xs.len() ==> m <= #[trigger] xs[i],
        least(xs) is None <==> xs.len() == 0,
    decreases xs.len(),
{
    if xs.len() > 0 {
        let p = xs.drop_last();
        lemma_least_is_minimum(p);
        if let Some(m) = least(p) {
            let k = choose|k: int| 0 <= k < p.len() && p[k] == m;
            assert(xs[k] == m);
            assert forall|i: int| 0 <= i < xs.len() implies least(xs)->Some_0 <= #[trigger] xs[i] by {
                if i < p.len() {
                    assert(xs[i] == p[i]);
                }
            }
        }
        assert(xs[xs.len() - 1] == xs.last());
    }
}

/// The greatest of a list bounds every member from above and is one of them.
pub proof fn lemma_greatest_is_maximum(xs: Seq<i64>)
    ensures
        greatest(xs) matches Some(m) ==> xs.contains(m) && forall|i: int|
            0 <= i < xs.len() ==> #[trigger] xs[i] <= m,
        greatest(xs) is None <==> xs.len() == 0,
    decreases xs.len(),
{
    if xs.len() > 0 {
        let p = xs.drop_last();
        lemma_greatest_is_maximum(p);
        if let Some(m) = greatest(p) {
            let k = choose|k: int| 0 <= k < p.len() && p[k] == m;
            assert(xs[k] == m);
            assert forall|i: int| 0 <= i < xs.len() implies #[trigger] xs[i] <= greatest(xs)->Some_0 by {
                if i < p.len() {
                    assert(xs[i] == p[i]);
                }
            }
        }
        assert(xs[xs.len() - 1] == xs.last());
    }
}

} // verus!
