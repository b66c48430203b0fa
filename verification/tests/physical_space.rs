//! Relative position across a nested containment hierarchy, thermal mass damping the
//! day/night swing, and wind following pressure gradients across the topology.

use cardinal::kernel::domain::Domain;
use cardinal::kernel::events::ChronicleEntry;
use cardinal::kernel::fact::{Cause, Fact, FactKey, FactType, Provenance, SystemId};
use cardinal::kernel::identity::EntityId;
use cardinal::kernel::store::MemoryStore;
use cardinal::kernel::system::{CommittedView, System};
use cardinal::kernel::tick::run_tick;
use cardinal::kernel::value::Value;
use cardinal::physical::schema::{
    adjacent_to, contained_in, elevation, made_of, material_thermal_capacity, position_x,
    position_y, position_z, temperature, wind_speed, wind_toward,
};
use cardinal::physical::space::{distance, position_in, relative_position};
use cardinal::physical::{PhysicalConfig, PhysicalDomain};

fn e(id: u64) -> EntityId {
    EntityId::from_raw(id)
}

fn prov() -> Provenance {
    Provenance::new(SystemId::new("worldgen"), 0, Cause::new("seed"))
}

fn seed(store: &mut MemoryStore, entity: u64, fact_type: FactType, v: Value) {
    store.seed(FactKey::new(e(entity), fact_type), Fact::new(v, prov()));
}

/// Place `entity` inside `container` at local position (x, y, z) centimetres.
fn place(store: &mut MemoryStore, entity: u64, container: u64, x: i64, y: i64, z: i64) {
    seed(store, entity, contained_in(), Value::Entity(e(container)));
    seed(store, entity, position_x(), Value::Int(x));
    seed(store, entity, position_y(), Value::Int(y));
    seed(store, entity, position_z(), Value::Int(z));
}

/// A city holding a house and a shed; the house holding a bedroom and a kitchen; people in
/// the rooms. Distances in centimetres.
fn world() -> MemoryStore {
    let mut s = MemoryStore::new();
    place(&mut s, 1, 100, 0, 0, 0);
    place(&mut s, 4, 100, 2000, 0, 0);
    place(&mut s, 2, 1, 0, 0, 0);
    place(&mut s, 3, 1, 500, 0, 0);
    place(&mut s, 10, 2, 100, 100, 0);
    place(&mut s, 40, 2, 100, 300, 0);
    place(&mut s, 20, 3, 50, 50, 0);
    place(&mut s, 30, 4, 10, 10, 0);
    s
}

#[test]
fn same_room_relative_position() {
    let s = world();
    assert_eq!(relative_position(&s, e(10), e(40)), Some([0, 200, 0]));
    assert_eq!(distance(&s, e(10), e(40)), Some(200));
}

#[test]
fn across_rooms_via_the_house_frame() {
    let s = world();
    assert_eq!(relative_position(&s, e(10), e(20)), Some([450, -50, 0]));
    assert_eq!(distance(&s, e(10), e(20)), Some(452));
}

#[test]
fn zoomed_out_via_the_city_frame() {
    let s = world();
    assert_eq!(relative_position(&s, e(10), e(30)), Some([1910, -90, 0]));
    assert_eq!(distance(&s, e(10), e(30)), Some(1912));
}

#[test]
fn position_in_an_ancestor_frame() {
    let s = world();
    assert_eq!(position_in(&s, e(10), e(1)), Some([100, 100, 0]));
    assert_eq!(position_in(&s, e(10), e(100)), Some([100, 100, 0]));
    assert_eq!(position_in(&s, e(3), e(1)), Some([500, 0, 0]));
}

#[test]
fn relative_position_is_antisymmetric() {
    let s = world();
    let ab = relative_position(&s, e(10), e(20)).unwrap();
    let ba = relative_position(&s, e(20), e(10)).unwrap();
    assert_eq!(ba, [-ab[0], -ab[1], -ab[2]]);
}

#[test]
fn entities_in_unconnected_hierarchies_have_no_relative_position() {
    let mut s = world();
    place(&mut s, 50, 500, 0, 0, 0);
    assert_eq!(relative_position(&s, e(10), e(50)), None);
    assert_eq!(distance(&s, e(10), e(50)), None);
}

const BARE: EntityId = EntityId(1);
const HEAVY: EntityId = EntityId(2);
const STONE: EntityId = EntityId(700);
const SEED_TEMP: i64 = 2000;

fn mass_config() -> PhysicalConfig {
    PhysicalConfig {
        ticks_per_day: 24,
        diurnal_amplitude_centi_c: 1000,
        weather_max_swing_centi_c: 0,
        illumination_peak: 10000,
        humidity_baseline: 6000,
        humidity_swing: 100,
        humidity_drying_divisor: 8,
        pressure_sea_level: 10130,
        pressure_elevation_factor: 1,
        pressure_weather_swing: 20,
        pressure_settle_divisor: 8,
        wind_gradient_divisor: 10,
        fall_danger_per_meter: 1500,
        thermal_mass_reference: 1000,
    }
}

fn run_tick_ok(
    store: &mut MemoryStore,
    domains: &[&dyn Domain],
    systems: &[Box<dyn System>],
    tick: u64,
    chronicle: &mut Vec<ChronicleEntry>,
) {
    run_tick(store, domains, systems, tick, 7, chronicle).expect("tick commits");
}

fn deviation_at_midday() -> (i64, i64) {
    let mut store = MemoryStore::new();
    store.seed(FactKey::new(BARE, temperature()), Fact::new(Value::Int(SEED_TEMP), prov()));
    store.seed(FactKey::new(HEAVY, temperature()), Fact::new(Value::Int(SEED_TEMP), prov()));
    store.seed(
        FactKey::new(STONE, material_thermal_capacity()),
        Fact::new(Value::Int(3000), prov()),
    );
    store.seed(FactKey::new(HEAVY, made_of()), Fact::new(Value::Entity(STONE), prov()));

    let domain = PhysicalDomain::new(Vec::new(), mass_config());
    let domains: [&dyn Domain; 1] = [&domain];
    let systems = domain.systems();
    let mut chronicle: Vec<ChronicleEntry> = Vec::new();

    for t in 1..=12 {
        run_tick_ok(&mut store, &domains, &systems, t, &mut chronicle);
    }

    let temp = |x: EntityId| store.read(FactKey::new(x, temperature())).unwrap().value.as_int().unwrap();
    (temp(BARE) - SEED_TEMP, temp(HEAVY) - SEED_TEMP)
}

#[test]
fn a_heavy_region_swings_less_than_a_bare_one() {
    let (bare_dev, heavy_dev) = deviation_at_midday();
    assert_eq!(bare_dev, 1000, "bare region should take the full swing");
    assert!(heavy_dev > 0, "the heavy region still warms somewhat");
    assert!(
        heavy_dev < bare_dev,
        "thermal mass must damp the swing: heavy {heavy_dev} vs bare {bare_dev}"
    );
    assert!(
        (200..=300).contains(&heavy_dev),
        "heavy region should keep ~1/4 of the swing, got {heavy_dev}"
    );
}

const ALPINE: EntityId = EntityId(1);
const LOWLAND: EntityId = EntityId(2);

fn wind_config() -> PhysicalConfig {
    PhysicalConfig {
        ticks_per_day: 24,
        diurnal_amplitude_centi_c: 500,
        weather_max_swing_centi_c: 50,
        illumination_peak: 10000,
        humidity_baseline: 6000,
        humidity_swing: 100,
        humidity_drying_divisor: 8,
        pressure_sea_level: 10130,
        pressure_elevation_factor: 1,
        pressure_weather_swing: 20,
        pressure_settle_divisor: 8,
        wind_gradient_divisor: 10,
        fall_danger_per_meter: 1500,
        thermal_mass_reference: 1000,
    }
}

fn wind_world() -> MemoryStore {
    let mut store = MemoryStore::new();
    let p = prov();
    store.seed(FactKey::new(ALPINE, temperature()), Fact::new(Value::Int(500), p));
    store.seed(FactKey::new(LOWLAND, temperature()), Fact::new(Value::Int(1500), p));
    store.seed(FactKey::new(ALPINE, elevation()), Fact::new(Value::Int(240000), p));
    store.seed(FactKey::new(LOWLAND, elevation()), Fact::new(Value::Int(10000), p));
    store.seed(FactKey::new(ALPINE, adjacent_to()), Fact::new(Value::Entity(LOWLAND), p));
    store.seed(FactKey::new(LOWLAND, adjacent_to()), Fact::new(Value::Entity(ALPINE), p));
    store
}

fn run_wind(store: &mut MemoryStore, ticks: u64, seed: u64) {
    let domain = PhysicalDomain::new(Vec::new(), wind_config());
    let domains: [&dyn Domain; 1] = [&domain];
    let systems = domain.systems();
    let mut chronicle: Vec<ChronicleEntry> = Vec::new();
    for t in 1..=ticks {
        run_tick(store, &domains, &systems, t, seed, &mut chronicle).expect("tick commits");
    }
}

fn speed_of(store: &MemoryStore, region: EntityId) -> i64 {
    store.read(FactKey::new(region, wind_speed())).and_then(|f| f.value.as_int()).unwrap_or(0)
}

fn toward_of(store: &MemoryStore, region: EntityId) -> Option<u64> {
    match store.read(FactKey::new(region, wind_toward())).map(|f| f.value) {
        Some(Value::Entity(x)) => Some(x.raw()),
        _ => None,
    }
}

#[test]
fn wind_blows_from_high_pressure_to_low() {
    let mut store = wind_world();
    run_wind(&mut store, 60, 42);
    assert_eq!(toward_of(&store, LOWLAND), Some(ALPINE.raw()));
    assert!(speed_of(&store, LOWLAND) > 0, "lowland should have wind");
    assert_eq!(speed_of(&store, ALPINE), 0);
    assert_eq!(toward_of(&store, ALPINE), None);
}

#[test]
fn wind_is_deterministic() {
    fn final_speed(seed: u64) -> i64 {
        let mut store = wind_world();
        run_wind(&mut store, 60, seed);
        speed_of(&store, LOWLAND)
    }
    assert_eq!(final_speed(42), final_speed(42));
}
