//! Physical composition of competing proposals, and material queries: what an object is
//! made of, and what that composition implies.

use cardinal::kernel::domain::Resolved;
use cardinal::kernel::fact::{Cause, Fact, FactKey, FactType, Provenance, SystemId};
use cardinal::kernel::identity::EntityId;
use cardinal::kernel::proposal::Change;
use cardinal::kernel::store::MemoryStore;
use cardinal::kernel::value::Value;
use cardinal::physical::composition::{compose_additive, compose_bounded, compose_entity_ref};
use cardinal::physical::materials::{
    flammability_of, is_flammable, materials_of, structural_hardness, thermal_capacity_of,
    toxicity_of,
};
use cardinal::physical::schema::{
    made_of, material_flammability, material_hardness, material_thermal_capacity,
    material_toxicity,
};

#[test]
fn additive_sums_deltas_onto_current() {
    let r = compose_additive(Some(Value::Int(2000)), &[Change::Delta(30), Change::Delta(-12)])
        .unwrap();
    assert_eq!(r, Resolved::Write(Value::Int(2018)));
}

#[test]
fn additive_set_then_deltas() {
    let r = compose_additive(
        Some(Value::Int(2000)),
        &[Change::Assign(Value::Int(500)), Change::Delta(25)],
    )
    .unwrap();
    assert_eq!(r, Resolved::Write(Value::Int(525)));
}

#[test]
fn additive_two_sets_conflict() {
    assert!(compose_additive(
        None,
        &[Change::Assign(Value::Int(1)), Change::Assign(Value::Int(2))]
    )
    .is_err());
}

#[test]
fn bounded_clamps_into_range() {
    let hi = compose_bounded(Some(Value::Int(9900)), &[Change::Delta(500)], 0, 10000).unwrap();
    assert_eq!(hi, Resolved::Write(Value::Int(10000)));
    let lo = compose_bounded(Some(Value::Int(100)), &[Change::Delta(-500)], 0, 10000).unwrap();
    assert_eq!(lo, Resolved::Write(Value::Int(0)));
}

#[test]
fn entity_ref_sets_the_reference() {
    let region = Value::Entity(EntityId::from_raw(7));
    let r = compose_entity_ref(None, &[Change::Create(region)]).unwrap();
    assert_eq!(r, Resolved::Write(region));
}

#[test]
fn entity_ref_rejects_a_numeric_delta() {
    assert!(compose_entity_ref(None, &[Change::Delta(1)]).is_err());
}

fn prov() -> Provenance {
    Provenance::new(SystemId::new("worldgen"), 0, Cause::new("seed"))
}

fn seed_int(store: &mut MemoryStore, e: EntityId, ft: FactType, v: i64) {
    store.seed(FactKey::new(e, ft), Fact::new(Value::Int(v), prov()));
}

fn link(store: &mut MemoryStore, object: EntityId, material: EntityId) {
    store.seed(FactKey::new(object, made_of()), Fact::new(Value::Entity(material), prov()));
}

// A door of oak (soft, very flammable) reinforced with an iron band (hard, inert).
fn oak_and_iron_door() -> (MemoryStore, EntityId) {
    let door = EntityId::from_raw(1);
    let oak = EntityId::from_raw(100);
    let iron = EntityId::from_raw(101);
    let mut store = MemoryStore::new();
    seed_int(&mut store, oak, material_hardness(), 3000);
    seed_int(&mut store, oak, material_flammability(), 7000);
    seed_int(&mut store, iron, material_hardness(), 9000);
    seed_int(&mut store, iron, material_flammability(), 0);
    seed_int(&mut store, iron, material_toxicity(), 200);
    link(&mut store, door, oak);
    link(&mut store, door, iron);
    (store, door)
}

#[test]
fn materials_of_lists_every_constituent() {
    let (store, door) = oak_and_iron_door();
    let mats: Vec<u64> = materials_of(&store, door).iter().map(|e| e.raw()).collect();
    assert_eq!(mats, vec![100, 101]);
}

#[test]
fn structure_is_only_as_strong_as_its_weakest_material() {
    let (store, door) = oak_and_iron_door();
    assert_eq!(structural_hardness(&store, door), Some(3000));
}

#[test]
fn a_composite_burns_as_readily_as_its_most_flammable_part() {
    let (store, door) = oak_and_iron_door();
    assert_eq!(flammability_of(&store, door), Some(7000));
    assert!(is_flammable(&store, door));
}

#[test]
fn an_all_inert_object_does_not_burn() {
    let slab = EntityId::from_raw(1);
    let stone = EntityId::from_raw(200);
    let mut store = MemoryStore::new();
    seed_int(&mut store, stone, material_flammability(), 0);
    seed_int(&mut store, stone, material_hardness(), 8000);
    link(&mut store, slab, stone);
    assert!(!is_flammable(&store, slab));
    assert_eq!(structural_hardness(&store, slab), Some(8000));
}

#[test]
fn thermal_capacity_takes_the_most_massive_constituent() {
    let wall = EntityId::from_raw(1);
    let stone = EntityId::from_raw(300);
    let timber = EntityId::from_raw(301);
    let mut store = MemoryStore::new();
    seed_int(&mut store, stone, material_thermal_capacity(), 900);
    seed_int(&mut store, timber, material_thermal_capacity(), 1700);
    link(&mut store, wall, stone);
    link(&mut store, wall, timber);
    assert_eq!(thermal_capacity_of(&store, wall), Some(1700));
    assert_eq!(thermal_capacity_of(&store, EntityId::from_raw(999)), None);
}

#[test]
fn toxicity_takes_the_worst_constituent_and_missing_properties_are_absent() {
    let (store, door) = oak_and_iron_door();
    assert_eq!(toxicity_of(&store, door), Some(200));
    let nothing = EntityId::from_raw(999);
    assert!(materials_of(&store, nothing).is_empty());
    assert_eq!(structural_hardness(&store, nothing), None);
    assert!(!is_flammable(&store, nothing));
}
