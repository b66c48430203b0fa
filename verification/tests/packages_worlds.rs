//! Whole worlds loaded from world files and run: engine ranges and domain selection,
//! seeded committed state, cross-domain interaction, nested positions, materials, exposure
//! and portal connectivity.

use cardinal::kernel::events::ChronicleEntry;
use cardinal::kernel::fact::FactKey;
use cardinal::kernel::identity::EntityId;
use cardinal::kernel::store::RealityStore;
use cardinal::kernel::system::CommittedView;
use cardinal::kernel::value::Value;
use cardinal::living::schema::body_heat;
use cardinal::packages::{engine_version, load, parse_world, LoadError, LoadedWorld, Version, WorldPackage};
use cardinal::physical::materials::{flammability_of, is_flammable, materials_of, structural_hardness};
use cardinal::physical::schema::{
    adjacent_to, contained_in, illumination, temperature, wind_speed, wind_toward,
};
use cardinal::physical::space::{can_reach, destinations, distance, reachable_regions, relative_position};
use std::collections::BTreeSet;

const RULES: &str = "\
[rules.physical]
ticks_per_day = 24
diurnal_amplitude_centi_c = 500
weather_max_swing_centi_c = 50
illumination_peak = 10000
humidity_baseline = 6000
humidity_swing = 100
humidity_drying_divisor = 8
pressure_sea_level = 10130
pressure_elevation_factor = 1
pressure_weather_swing = 20
pressure_settle_divisor = 8
wind_gradient_divisor = 10
fall_danger_per_meter = 1500
";

fn wilderness() -> String {
    format!(
        "[manifest]\nid = world.wilderness\nversion = 0.1.0\nengine = >=0.0, <1.0\ndomains = physical\n\n{RULES}\n[regions]\n1 = 1500\n2 = 1800\n3 = 1200, 80000\n"
    )
}

fn menagerie() -> String {
    format!(
        "[manifest]\nid = world.menagerie\nversion = 0.1.0\nengine = >=0.0, <1.0\ndomains = physical, living\n\n{RULES}\n\
[rules.living]\nset_point_centi_c = 3700\nwarm_response = 6\ncold_response = 3\n\n\
[regions]\n1 = -800, 240000   # alpine\n2 = 2600, 10000    # lowland\n\n\
[organisms]\n10 = 1, 3700\n20 = 2, 3700\n\n\
[containment]\n1 = 1000\n2 = 1000\n\n\
[adjacency]\n1 = 2\n"
    )
}

fn house() -> String {
    format!(
        "[manifest]\nid = world.house\nversion = 0.1.0\nengine = >=0.0, <1.0\ndomains = physical\n\n{RULES}\n\
[regions]\n100 = 1500\n\n\
[containment]\n1 = 100\n4 = 100\n2 = 1\n3 = 1\n10 = 2\n40 = 2\n20 = 3\n30 = 4\n50 = 2\n51 = 2\n\n\
[positions]\n1 = 0, 0, 0\n4 = 2000, 0, 0\n2 = 0, 0, 0\n3 = 500, 0, 0\n10 = 100, 100, 0\n40 = 100, 300, 0\n20 = 50, 50, 0\n30 = 10, 10, 0\n\n\
[materials]\n700 = density:700, hardness:3000, flammability:7000\n702 = density:7800, hardness:9000, flammability:0\n703 = density:2500, hardness:5500, flammability:0\n\n\
[made_of]\n50 = 700, 702\n51 = 703\n"
    )
}

fn manor() -> String {
    format!(
        "[manifest]\nid = world.manor\nversion = 0.1.0\nengine = >=0.0, <1.0\ndomains = physical\n\n{RULES}\n\
[regions]\n1 = 1500\n2 = 1900\n3 = 1400\n4 = 1900\n5 = 1200\n\n\
[portals]\n1000 = 2, 1, 300, 0\n1001 = 1, 2, 0, 0\n1002 = 3, 2, 100, 0\n1003 = 2, 3, 100, 0\n1004 = 4, 2, 200, 0\n1005 = 2, 4, 200, 0\n"
    )
}

fn cavern() -> String {
    format!(
        "[manifest]\nid = world.cavern\nversion = 0.1.0\nengine = >=0.0, <1.0\ndomains = physical\n\n{RULES}\n\
[regions]\n1 = 1500\n2 = 1300\n3 = 1000\n4 = 1800\n\n\
[exposure]\n2 = 4000\n3 = 0\n4 = 800\n"
    )
}

fn e(id: u64) -> EntityId {
    EntityId::from_raw(id)
}

fn loaded(text: &str) -> LoadedWorld {
    let pkg = parse_world(text).unwrap();
    load(&pkg, engine_version()).unwrap()
}

fn run(world: &mut LoadedWorld, ticks: u64, seed: u64) {
    let mut chronicle: Vec<ChronicleEntry> = Vec::new();
    for t in 1..=ticks {
        world.tick(t, seed, &mut chronicle).expect("tick commits");
    }
}

fn int_at(world: &LoadedWorld, entity: u64, ft: cardinal::kernel::fact::FactType) -> Option<i64> {
    world.store().read(FactKey::new(e(entity), ft)).and_then(|f| f.value.as_int())
}

#[test]
fn loads_and_seeds_committed_state() {
    let pkg = parse_world(&wilderness()).unwrap();
    let world = load(&pkg, engine_version()).expect("loads");
    let t2 = world
        .store()
        .read(FactKey::new(EntityId::from_raw(2), temperature()))
        .expect("region 2 seeded")
        .value
        .as_int()
        .unwrap();
    assert_eq!(t2, 1800);
}

#[test]
fn loaded_world_ticks_deterministically() {
    fn hashes(seed: u64) -> Vec<[u8; 32]> {
        let pkg = parse_world(&wilderness()).unwrap();
        let mut world = load(&pkg, engine_version()).unwrap();
        let mut chronicle: Vec<ChronicleEntry> = Vec::new();
        let mut seq = vec![*world.store().state_hash().as_bytes()];
        for t in 1..=120 {
            world.tick(t, seed, &mut chronicle).expect("tick commits");
            seq.push(*world.store().state_hash().as_bytes());
        }
        seq
    }
    assert_eq!(hashes(42), hashes(42));
    assert_ne!(hashes(42), hashes(7));
}

#[test]
fn rejects_engine_out_of_range() {
    let pkg = parse_world(&wilderness()).unwrap();
    let err = load(&pkg, Version::new(2, 0, 0)).unwrap_err();
    assert!(matches!(err, LoadError::EngineMismatch { .. }));
}

#[test]
fn an_engine_mismatch_names_the_range_and_the_engine() {
    let pkg = parse_world(&wilderness()).unwrap();
    match load(&pkg, Version::new(2, 0, 0)) {
        Err(LoadError::EngineMismatch { required, engine }) => {
            assert_eq!(required, ">=0.0.0, <1.0.0");
            assert_eq!(engine, Version::new(2, 0, 0));
        }
        other => panic!("expected an engine mismatch, got {other:?}"),
    }
    assert_eq!(engine_version(), Version::new(0, 1, 0));
}

#[test]
fn rejects_world_without_physical() {
    let text = "[manifest]\nid = world.void\nversion = 0.1.0\nengine = >=0.0, <1.0\ndomains =\n\n[rules.physical]\nticks_per_day = 24\ndiurnal_amplitude_centi_c = 500\nweather_max_swing_centi_c = 50\nillumination_peak = 10000\nhumidity_baseline = 6000\nhumidity_swing = 100\nhumidity_drying_divisor = 8\npressure_sea_level = 10130\npressure_elevation_factor = 1\npressure_weather_swing = 20\npressure_settle_divisor = 8\nwind_gradient_divisor = 10\nfall_danger_per_meter = 1500\nthermal_mass_reference = 1500\n";
    let pkg = parse_world(text).unwrap();
    let err = load(&pkg, engine_version()).unwrap_err();
    assert!(matches!(err, LoadError::PhysicalNotSelected));
}

#[test]
fn unknown_domains_and_missing_living_rules_are_refused() {
    let mut pkg = parse_world(&wilderness()).unwrap();
    pkg.manifest.domains = vec!["physical".to_string(), "magic".to_string()];
    assert_eq!(load(&pkg, engine_version()).unwrap_err(), LoadError::UnsupportedDomain("magic".to_string()));
    pkg.manifest.domains = vec!["physical".to_string(), "living".to_string()];
    assert_eq!(load(&pkg, engine_version()).unwrap_err(), LoadError::LivingRulesMissing);
    assert_eq!(
        LoadError::LivingRulesMissing.describe(),
        "`living` domain selected but no [rules.living] provided"
    );
}

#[test]
fn exposure_gradient_shapes_light_and_temperature() {
    let mut world = loaded(&cavern());
    run(&mut world, 12, 42);
    assert_eq!(int_at(&world, 1, illumination()).unwrap_or(0), 10000, "open meadow gets full midday sun");
    assert_eq!(int_at(&world, 2, illumination()).unwrap_or(0), 4000, "cave mouth gets 40%");
    assert_eq!(int_at(&world, 3, illumination()).unwrap_or(0), 0, "sealed chamber is dark");
    assert_eq!(int_at(&world, 4, illumination()).unwrap_or(0), 800, "cabin gets a little window light");
    assert_eq!(int_at(&world, 3, temperature()).unwrap_or(0), 1000, "sealed chamber is thermally stable");
    assert_ne!(int_at(&world, 1, temperature()).unwrap_or(0), 1500, "open meadow's temperature moved");
}

#[test]
fn body_heat_tracks_the_region_temperature() {
    let mut world = loaded(&menagerie());
    run(&mut world, 300, 42);
    let frigid = int_at(&world, 10, body_heat()).expect("organism has body heat");
    let warm = int_at(&world, 20, body_heat()).expect("organism has body heat");
    assert!(frigid < warm, "frigid={frigid} should be < warm={warm}");
    assert!(warm < 3700);
}

#[test]
fn cross_domain_world_is_deterministic() {
    fn hashes(seed: u64) -> Vec<[u8; 32]> {
        let pkg = parse_world(&menagerie()).unwrap();
        let mut world = load(&pkg, engine_version()).unwrap();
        let mut chronicle: Vec<ChronicleEntry> = Vec::new();
        let mut seq = vec![*world.store().state_hash().as_bytes()];
        for t in 1..=150 {
            world.tick(t, seed, &mut chronicle).unwrap();
            seq.push(*world.store().state_hash().as_bytes());
        }
        seq
    }
    assert_eq!(hashes(42), hashes(42));
    assert_ne!(hashes(42), hashes(7));
}

#[test]
fn living_does_not_perturb_physical() {
    fn temp_trajectory(pkg: &WorldPackage, seed: u64) -> Vec<(i64, i64)> {
        let mut world = load(pkg, engine_version()).unwrap();
        let mut chronicle: Vec<ChronicleEntry> = Vec::new();
        let mut traj = Vec::new();
        for t in 1..=120 {
            world.tick(t, seed, &mut chronicle).unwrap();
            traj.push((int_at(&world, 1, temperature()).unwrap(), int_at(&world, 2, temperature()).unwrap()));
        }
        traj
    }

    let combined = parse_world(&menagerie()).unwrap();
    let mut physical_only = combined.clone();
    physical_only.manifest.domains = vec!["physical".to_string()];
    physical_only.living_rules = None;
    physical_only.organisms = Vec::new();

    assert_eq!(temp_trajectory(&combined, 42), temp_trajectory(&physical_only, 42));
}

#[test]
fn containment_hierarchy_is_seeded() {
    let world = loaded(&menagerie());
    let org_in = world
        .store()
        .read(FactKey::new(EntityId::from_raw(10), contained_in()))
        .expect("organism containment seeded")
        .value;
    assert_eq!(org_in, Value::Entity(EntityId::from_raw(1)));
    let region_in = world
        .store()
        .read(FactKey::new(EntityId::from_raw(1), contained_in()))
        .expect("region containment seeded")
        .value;
    assert_eq!(region_in, Value::Entity(EntityId::from_raw(1000)));
}

#[test]
fn regions_are_adjacent_in_the_loaded_world() {
    let world = loaded(&menagerie());
    fn neighbours(world: &LoadedWorld, region: u64) -> Vec<u64> {
        world
            .store()
            .read_all(FactKey::new(EntityId::from_raw(region), adjacent_to()))
            .into_iter()
            .filter_map(|f| match f.value {
                Value::Entity(x) => Some(x.raw()),
                _ => None,
            })
            .collect()
    }
    assert!(neighbours(&world, 1).contains(&2));
    assert!(neighbours(&world, 2).contains(&1));
}

#[test]
fn wind_develops_between_adjacent_regions_in_the_loaded_world() {
    let mut world = loaded(&menagerie());
    run(&mut world, 60, 42);
    let toward = match world.store().read(FactKey::new(EntityId::from_raw(2), wind_toward())).map(|f| f.value) {
        Some(Value::Entity(x)) => Some(x.raw()),
        _ => None,
    };
    let speed = int_at(&world, 2, wind_speed()).unwrap_or(0);
    assert_eq!(toward, Some(1), "lowland wind should blow toward the alpine region");
    assert!(speed > 0, "lowland should have a nonzero wind speed");
}

#[test]
fn people_have_relative_positions_from_the_world_file() {
    let w = loaded(&house());
    let s = w.store();
    assert_eq!(relative_position(s, e(10), e(40)), Some([0, 200, 0]));
    assert_eq!(relative_position(s, e(10), e(20)), Some([450, -50, 0]));
    assert_eq!(distance(s, e(10), e(20)), Some(452));
    assert_eq!(relative_position(s, e(10), e(30)), Some([1910, -90, 0]));
    assert_eq!(distance(s, e(10), e(30)), Some(1912));
}

#[test]
fn materials_load_and_compose_from_the_world_file() {
    let w = loaded(&house());
    let s = w.store();
    assert_eq!(materials_of(s, e(50)).iter().map(|m| m.raw()).collect::<Vec<_>>(), vec![700, 702]);
    assert_eq!(structural_hardness(s, e(50)), Some(3000));
    assert_eq!(flammability_of(s, e(50)), Some(7000));
    assert!(is_flammable(s, e(50)));
    assert!(!is_flammable(s, e(51)));
    assert_eq!(structural_hardness(s, e(51)), Some(5500));
}

#[test]
fn the_basement_reaches_the_yard_only_through_the_ground_floor() {
    let w = loaded(&manor());
    let s = w.store();
    assert_eq!(destinations(s, e(3)), vec![e(2)]);
    assert!(can_reach(s, e(3), e(1)));
    let reachable: BTreeSet<u64> = reachable_regions(s, e(3)).iter().map(|x| x.raw()).collect();
    assert_eq!(reachable, BTreeSet::from([1, 2, 3, 4]));
}

#[test]
fn the_sealed_vault_is_cut_off() {
    let w = loaded(&manor());
    let s = w.store();
    let reach: BTreeSet<EntityId> = reachable_regions(s, e(5)).into_iter().collect();
    assert_eq!(reach, BTreeSet::from([e(5)]));
    assert!(!can_reach(s, e(3), e(5)));
    assert!(!can_reach(s, e(5), e(1)));
}
