//! Reading world files: sections, rules, content lines, materials, and every refusal the
//! format makes, with the line it was found on.

use cardinal::packages::model::MaterialProperty;
use cardinal::packages::version::{EngineReq, Version};
use cardinal::packages::parse_world;

const HEADER: &str = "\
[manifest]
id = world.test
version = 0.1.0
engine = >=0.0, <1.0
domains = physical
[rules.physical]
ticks_per_day = 24
diurnal_amplitude_centi_c = 400
weather_max_swing_centi_c = 40
illumination_peak = 10000
humidity_baseline = 5500
humidity_swing = 80
humidity_drying_divisor = 8
pressure_sea_level = 10130
pressure_elevation_factor = 1
pressure_weather_swing = 20
pressure_settle_divisor = 8
wind_gradient_divisor = 10
fall_danger_per_meter = 1500
[regions]
1 = 1500
";

const WILDERNESS: &str = "\
# A small temperate wilderness: three regions under one sky.
[manifest]
id = world.wilderness
version = 0.1.0
engine = >=0.0, <1.0
domains = physical

[rules.physical]
ticks_per_day = 24
diurnal_amplitude_centi_c = 500
weather_max_swing_centi_c = 50
illumination_peak = 10000
humidity_baseline = 6000
humidity_swing = 100
humidity_drying_divisor = 8
pressure_sea_level = 10130
pressure_elevation_factor = 1
pressure_weather_swing = 20
pressure_settle_divisor = 8
wind_gradient_divisor = 10
fall_danger_per_meter = 1500

[regions]
1 = 1500        # meadow
2 = 1800        # valley floor
3 = 1200, 80000 # ridge, 800 m up
";

#[test]
fn materials_and_composition_parse() {
    let text = format!(
        "{HEADER}\
[materials]
700 = density:700, hardness:3000, flammability:7000
[made_of]
1 = 700
"
    );
    let pkg = parse_world(&text).expect("parses");
    assert_eq!(pkg.materials.len(), 1);
    assert_eq!(pkg.materials[0].id, 700);
    assert_eq!(
        pkg.materials[0].properties,
        vec![
            (MaterialProperty::Density, 700),
            (MaterialProperty::Hardness, 3000),
            (MaterialProperty::Flammability, 7000),
        ]
    );
    assert_eq!(pkg.made_of.len(), 1);
    assert_eq!(pkg.made_of[0].object_id, 1);
    assert_eq!(pkg.made_of[0].material_id, 700);
}

#[test]
fn an_unknown_material_property_is_rejected() {
    let text = format!(
        "{HEADER}\
[materials]
700 = density:700, sparkliness:9000
"
    );
    let err = parse_world(&text).expect_err("must reject unknown property");
    assert!(
        err.reason.contains("sparkliness"),
        "error should name the offending property, got: {}",
        err.reason
    );
}

#[test]
fn parses_the_wilderness_world_file() {
    let pkg = parse_world(WILDERNESS).expect("world file parses");
    assert_eq!(pkg.manifest.id, "world.wilderness");
    assert_eq!(pkg.manifest.domains, vec!["physical".to_string()]);
    assert_eq!(pkg.physical_rules.ticks_per_day, 24);
    assert_eq!(pkg.physical_rules.weather_max_swing_centi_c, 50);
    assert_eq!(pkg.regions.len(), 3);
    assert_eq!(pkg.regions[0].temperature_centi_c, 1500);
}

#[test]
fn the_manifest_and_rules_read_back_exactly() {
    let pkg = parse_world(WILDERNESS).unwrap();
    assert_eq!(pkg.manifest.version, Version::new(0, 1, 0));
    assert_eq!(pkg.manifest.engine, EngineReq::new(Version::new(0, 0, 0), Version::new(1, 0, 0)));
    assert_eq!(pkg.physical_rules.diurnal_amplitude_centi_c, 500);
    assert_eq!(pkg.physical_rules.fall_danger_per_meter, 1500);
    assert_eq!(pkg.physical_rules.thermal_mass_reference, None);
    assert_eq!(pkg.living_rules, None);
    assert_eq!(pkg.regions[2].elevation, Some(80000));
    assert_eq!(pkg.regions[0].elevation, None);
}

#[test]
fn a_later_value_replaces_an_earlier_one() {
    let text = format!("{HEADER}[rules.physical]\nticks_per_day = 12\n");
    let pkg = parse_world(&text).unwrap();
    assert_eq!(pkg.physical_rules.ticks_per_day, 12);
}

#[test]
fn content_lines_read_in_order() {
    let text = format!(
        "{HEADER}\
[organisms]
10 = 1, 3700
[containment]
1 = 1000
[adjacency]
1 = 2
[exposure]
2 = 4000
[positions]
10 = 100, -50
11 = 1, 2, 3
[portals]
1000 = 2, 1, 300, 0
1001 = 1, 2, 0, 0, 250
[portal_danger]
1001 = 9000
[made_of]
50 = 700, 702
"
    );
    let pkg = parse_world(&text).unwrap();
    assert_eq!(pkg.organisms[0].region_id, 1);
    assert_eq!(pkg.organisms[0].body_heat_centi_c, 3700);
    assert_eq!(pkg.containment[0].parent_id, 1000);
    assert_eq!(pkg.adjacency[0].b, 2);
    assert_eq!(pkg.exposure[0].exposure, 4000);
    assert_eq!(pkg.positions[0].y, -50);
    assert_eq!(pkg.positions[0].z, None);
    assert_eq!(pkg.positions[1].z, Some(3));
    assert_eq!(pkg.portals[0].dest_region, 1);
    assert_eq!(pkg.portals[1].z, Some(250));
    assert_eq!(pkg.portal_danger[0].danger, 9000);
    assert_eq!(pkg.made_of.len(), 2);
    assert_eq!(pkg.made_of[1].material_id, 702);
}

#[test]
fn living_rules_are_all_or_nothing() {
    let full = format!(
        "{HEADER}[rules.living]\nset_point_centi_c = 3700\nwarm_response = 6\ncold_response = 3\n"
    );
    let rules = parse_world(&full).unwrap().living_rules.unwrap();
    assert_eq!(rules.set_point_centi_c, 3700);
    assert_eq!(rules.cold_response, 3);

    let partial = format!("{HEADER}[rules.living]\nset_point_centi_c = 3700\n");
    let err = parse_world(&partial).unwrap_err();
    assert_eq!(err.line, 0);
    assert_eq!(err.reason, "missing required field rules.living.warm_response");
}

#[test]
fn a_missing_manifest_field_is_named() {
    let text = HEADER.replace("id = world.test\n", "");
    let err = parse_world(&text).unwrap_err();
    assert_eq!(err.line, 0);
    assert_eq!(err.reason, "missing required field manifest.id");
}

#[test]
fn refusals_name_their_line() {
    let err = parse_world("ticks = 1\n").unwrap_err();
    assert_eq!(err.line, 1);
    assert_eq!(err.reason, "key/value appears before any [section]");

    let err = parse_world("# comment\n\n[weather]\nx = 1\n").unwrap_err();
    assert_eq!(err.line, 4);
    assert_eq!(err.reason, "unknown section \"weather\"");

    let err = parse_world("[manifest]\njust words\n").unwrap_err();
    assert_eq!(err.line, 2);
    assert_eq!(err.reason, "expected `key = value`");

    let err = parse_world("[manifest]\n = x\n").unwrap_err();
    assert_eq!(err.reason, "empty key");

    let err = parse_world("[manifest]\ncolour = red\n").unwrap_err();
    assert_eq!(err.reason, "unknown manifest key \"colour\"");

    let err = parse_world("[rules.physical]\nticks_per_day = many\n").unwrap_err();
    assert_eq!(err.reason, "expected a number, got \"many\"");

    let err = parse_world("[manifest]\nversion = 1.x\n").unwrap_err();
    assert_eq!(err.reason, "invalid version: \"1.x\"");

    let err = parse_world("[manifest]\nengine = >=0.0, <one\n").unwrap_err();
    assert_eq!(err.reason, "invalid version: \"one\"");

    let err = parse_world("[regions]\n1 = 1500, 10, 20\n").unwrap_err();
    assert_eq!(err.reason, "expected `temperature` or `temperature, elevation`");

    let err = parse_world("[organisms]\n10 = 1\n").unwrap_err();
    assert_eq!(err.reason, "expected `region_id, body_heat`");

    let err = parse_world("[portals]\n1000 = 2, 1, 300\n").unwrap_err();
    assert_eq!(err.reason, "expected `host, dest, x, y[, z]` (y)");

    let err = parse_world("[materials]\n700 = density\n").unwrap_err();
    assert_eq!(err.reason, "expected `property:value`");
}

#[test]
fn missing_required_rule_is_rejected_with_no_default() {
    let text = "[manifest]\nid = w\nversion = 0.1.0\nengine = >=0.0, <1.0\ndomains = physical\n\n[rules.physical]\nticks_per_day = 24\ndiurnal_amplitude_centi_c = 500\nillumination_peak = 10000\nhumidity_baseline = 6000\nhumidity_swing = 100\nhumidity_drying_divisor = 8\npressure_sea_level = 10130\npressure_elevation_factor = 1\npressure_weather_swing = 20\npressure_settle_divisor = 8\nwind_gradient_divisor = 10\nfall_danger_per_meter = 1500\nthermal_mass_reference = 1500\n";
    assert!(parse_world(text).is_err());
}

#[test]
fn errors_render_as_sentences() {
    let err = parse_world("[manifest]\ncolour = red\n").unwrap_err();
    assert_eq!(err.describe(), "world-file parse error (line 2): unknown manifest key \"colour\"");
    let bad = Version::parse("1.x").unwrap_err();
    assert_eq!(bad.text, "1.x");
    assert_eq!(bad.describe(), "invalid version: \"1.x\"");
}

#[test]
fn versions_parse_render_and_order() {
    assert_eq!(Version::parse("0.1").unwrap(), Version::new(0, 1, 0));
    assert_eq!(Version::parse(" 12.3.45 ").unwrap(), Version::new(12, 3, 45));
    assert!(Version::parse("1.2.3.4").is_err());
    assert!(Version::parse("4294967296.0").is_err());
    assert_eq!(Version::new(10, 0, 7).render(), "10.0.7");
    assert!(Version::new(0, 9, 9).precedes(&Version::new(1, 0, 0)));
    assert!(!Version::new(1, 0, 0).precedes(&Version::new(1, 0, 0)));
    let range = EngineReq::parse("<2.0, >=1.1").unwrap();
    assert_eq!(range, EngineReq::new(Version::new(1, 1, 0), Version::new(2, 0, 0)));
    assert!(range.accepts(Version::new(1, 5, 0)));
    assert!(!range.accepts(Version::new(2, 0, 0)));
    assert!(!range.accepts(Version::new(1, 0, 9)));
    assert_eq!(EngineReq::parse(">=1.0").unwrap_err().text, ">=1.0");
    assert_eq!(EngineReq::parse(">=1.0, ~2").unwrap_err().text, ">=1.0, ~2");
}

#[test]
fn a_rendered_version_parses_back() {
    for v in [Version::new(0, 0, 0), Version::new(3, 14, 159), Version::new(u32::MAX, 10, 9)] {
        assert_eq!(Version::parse(&v.render()).unwrap(), v);
    }
}

#[test]
fn unicode_whitespace_is_trimmed_like_ascii_whitespace() {
    let text = HEADER
        .replace("id = world.test", "id =\u{a0}world.test\u{3000}")
        .replace("ticks_per_day = 24", "\u{2003}ticks_per_day\u{205f}=\u{1680}24\u{85}");
    let pkg = parse_world(&text).expect("padded world file parses");
    assert_eq!(pkg.manifest.id, "world.test");
    assert_eq!(pkg.physical_rules.ticks_per_day, 24);
    let plain = parse_world(HEADER).unwrap();
    assert_eq!(pkg, plain);
}
