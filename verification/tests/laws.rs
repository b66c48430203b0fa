//! The library's laws on concrete values: reads give back writes, containment and
//! reachability relations, domain separation, and composition of set-valued facts.

use cardinal::kernel::domain::Domain;
use cardinal::kernel::fact::{Cause, Fact, FactKey, FactType, Provenance, SystemId};
use cardinal::kernel::hierarchy::lowest_common_ancestor;
use cardinal::kernel::identity::EntityId;
use cardinal::kernel::proposal::Change;
use cardinal::kernel::store::{CommitBatch, MemoryStore, RealityStore, Resolution};
use cardinal::kernel::system::CommittedView;
use cardinal::kernel::tick::compose_set;
use cardinal::kernel::value::Value;
use cardinal::living::schema::body_heat;
use cardinal::physical::schema::{contained_in, has_portal, leads_to, temperature};
use cardinal::physical::space::{can_reach, reachable_regions};
use cardinal::physical::{PhysicalConfig, PhysicalDomain};

const HEAT: FactType = FactType("test.heat");
const LINK: FactType = FactType("test.parent");

fn e(id: u64) -> EntityId {
    EntityId::from_raw(id)
}

fn fact(v: Value) -> Fact {
    Fact::new(v, Provenance::new(SystemId::new("t"), 0, Cause::new("seed")))
}

#[test]
fn a_write_reads_back_and_leaves_other_keys_alone() {
    let mut store = MemoryStore::new();
    store.seed(FactKey::new(e(1), HEAT), fact(Value::Int(10)));
    store.seed(FactKey::new(e(2), HEAT), fact(Value::Int(20)));
    let mut batch = CommitBatch::new(1);
    batch.resolutions.push(Resolution::One { key: FactKey::new(e(1), HEAT), fact: fact(Value::Int(11)) });
    store.apply(batch);
    assert_eq!(store.read(FactKey::new(e(1), HEAT)).unwrap().value, Value::Int(11));
    assert_eq!(store.read(FactKey::new(e(2), HEAT)).unwrap().value, Value::Int(20));

    let mut clear = CommitBatch::new(2);
    clear.resolutions.push(Resolution::Clear { key: FactKey::new(e(1), HEAT) });
    store.apply(clear);
    assert!(store.read(FactKey::new(e(1), HEAT)).is_none());
    assert_eq!(store.read_all(FactKey::new(e(2), HEAT)).len(), 1);
}

#[test]
fn the_lowest_common_ancestor_is_symmetric() {
    let mut store = MemoryStore::new();
    for (child, parent) in [(10, 2), (11, 2), (2, 1), (20, 3), (3, 1)] {
        store.seed(FactKey::new(e(child), LINK), fact(Value::Entity(e(parent))));
    }
    for (a, b) in [(10, 20), (10, 11), (2, 20), (10, 99), (1, 10)] {
        assert_eq!(
            lowest_common_ancestor(&store, e(a), e(b), LINK),
            lowest_common_ancestor(&store, e(b), e(a), LINK)
        );
    }
    assert_eq!(lowest_common_ancestor(&store, e(1), e(10), LINK), Some(e(1)));
}

#[test]
fn reachability_is_reflexive_and_transitive() {
    let mut store = MemoryStore::new();
    let portal = |s: &mut MemoryStore, id: u64, host: u64, dest: u64| {
        s.seed(FactKey::new(e(id), contained_in()), fact(Value::Entity(e(host))));
        s.seed(FactKey::new(e(id), leads_to()), fact(Value::Entity(e(dest))));
        s.seed(FactKey::new(e(host), has_portal()), fact(Value::Entity(e(id))));
    };
    portal(&mut store, 100, 1, 2);
    portal(&mut store, 101, 2, 3);
    assert!(can_reach(&store, e(7), e(7)));
    assert!(can_reach(&store, e(1), e(2)) && can_reach(&store, e(2), e(3)));
    assert!(can_reach(&store, e(1), e(3)));
    assert!(!can_reach(&store, e(3), e(1)));
    assert_eq!(reachable_regions(&store, e(1)), vec![e(1), e(2), e(3)]);
}

#[test]
fn living_writes_nothing_the_physical_domain_owns() {
    let config = PhysicalConfig {
        ticks_per_day: 24,
        diurnal_amplitude_centi_c: 500,
        weather_max_swing_centi_c: 50,
        illumination_peak: 10000,
        humidity_baseline: 6000,
        humidity_swing: 100,
        humidity_drying_divisor: 8,
        pressure_sea_level: 10130,
        pressure_elevation_factor: 1,
        pressure_weather_swing: 20,
        pressure_settle_divisor: 8,
        wind_gradient_divisor: 10,
        fall_danger_per_meter: 1500,
        thermal_mass_reference: 0,
    };
    let physical = PhysicalDomain::new(Vec::new(), config);
    assert!(!physical.owns(body_heat()));
    assert!(physical.owns(temperature()));
}

#[test]
fn set_changes_compose_as_a_set() {
    let current = [Value::Int(5)];
    let added = compose_set(&current, &[Change::Add(Value::Int(20)), Change::Add(Value::Int(10)), Change::Add(Value::Int(20))])
        .unwrap();
    assert_eq!(added, vec![Value::Int(5), Value::Int(10), Value::Int(20)]);
    let removed = compose_set(&current, &[Change::Add(Value::Int(7)), Change::Remove(Value::Int(5))]).unwrap();
    assert_eq!(removed, vec![Value::Int(7)]);
    assert!(compose_set(&current, &[Change::Delta(1)]).is_err());
}
