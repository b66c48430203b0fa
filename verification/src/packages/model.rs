//! The in-memory world-package model.
//!
//! A package is data: a manifest, the domains it selects, the rules each consumes, and the
//! initial content its world begins with. This model is the parsed, validated shape the
//! loader turns into a running world.

use crate::packages::version::{EngineReq, Version};
use vstd::prelude::*;

verus! {

/// A complete world-package definition.
#[derive(Clone, PartialEq, Eq, Debug)]
pub struct WorldPackage {
    /// Identity, version, and engine requirement.
    pub manifest: Manifest,
    /// Tunable rules for the physical domain.
    pub physical_rules: PhysicalRules,
    /// Tunable rules for the living domain, present only if the package gives them.
    pub living_rules: Option<LivingRules>,
    /// The regions the world begins with.
    pub regions: Vec<RegionSpec>,
    /// The organisms the world begins with (living domain), each placed in a region.
    pub organisms: Vec<OrganismSpec>,
    /// Extra containment links seeded at generation (e.g. a region within a continent),
    /// beyond the organism-in-region links implied by the organisms.
    pub containment: Vec<ContainmentSpec>,
    /// Undirected adjacency edges between regions, the world's topology, seeded as a
    /// cardinality-many physical fact in both directions.
    pub adjacency: Vec<AdjacencySpec>,
    /// Per-region exposure to the open sky. A region absent here is fully exposed.
    pub exposure: Vec<ExposureSpec>,
    /// Local positions of entities within their immediate containers.
    pub positions: Vec<PositionSpec>,
    /// Portals: located connections from a spot in one region to another.
    pub portals: Vec<PortalSpec>,
    /// World-pinned danger for specific portals. A portal absent here has its danger
    /// derived from height.
    pub portal_danger: Vec<PortalDangerSpec>,
    /// The materials the world defines, each an entity exposing property facts.
    pub materials: Vec<MaterialSpec>,
    /// Which materials each physical object is composed of, one entry per link.
    pub made_of: Vec<MadeOfSpec>,
}

/// A property a material may expose. Materials expose characteristics, never identities;
/// this is the closed set of characteristics the loader can seed.
#[derive(Clone, Copy, PartialEq, Eq, Debug, Structural)]
pub enum MaterialProperty {
    /// Density, in kg/m³.
    Density,
    /// Hardness, structural strength, 0..=10000.
    Hardness,
    /// Specific heat capacity, in J/(kg·K).
    ThermalCapacity,
    /// Flammability, 0..=10000.
    Flammability,
    /// Conductivity, 0..=10000.
    Conductivity,
    /// Toxicity, 0..=10000.
    Toxicity,
}

/// One material the world defines: a material entity and the properties it exposes. A
/// material exposes only the characteristics it has, so `properties` may be a partial set;
/// the loader seeds exactly what is declared, never a default.
#[derive(Clone, PartialEq, Eq, Debug)]
pub struct MaterialSpec {
    /// The material entity's raw id.
    pub id: u64,
    /// The properties this material exposes, each with its fixed-point value.
    pub properties: Vec<(MaterialProperty, i64)>,
}

/// A seeded composition link: object `object_id` is made, in part, of material
/// `material_id`. One object may have several such links (a composite).
#[derive(Clone, Copy, PartialEq, Eq, Debug, Structural)]
pub struct MadeOfSpec {
    /// The composed object's raw id.
    pub object_id: u64,
    /// The constituent material's raw id.
    pub material_id: u64,
}

/// The package manifest: identity, version, and the engine range it runs against.
#[derive(Clone, PartialEq, Eq, Debug)]
pub struct Manifest {
    /// A stable package id (e.g. `world.wilderness`).
    pub id: String,
    /// The package's own version.
    pub version: Version,
    /// The engine versions this package runs against.
    pub engine: EngineReq,
    /// The domains this world enables.
    pub domains: Vec<String>,
}

/// The tunable rules of the physical domain, as a package states them.
#[derive(Clone, Copy, PartialEq, Eq, Debug, Structural)]
pub struct PhysicalRules {
    /// Ticks in one day/night cycle.
    pub ticks_per_day: u64,
    /// Peak diurnal temperature swing, in centidegrees Celsius.
    pub diurnal_amplitude_centi_c: i64,
    /// Maximum per-tick temperature weather perturbation, in centidegrees Celsius.
    pub weather_max_swing_centi_c: i64,
    /// Illumination at midday, in hundredths of a percent.
    pub illumination_peak: i64,
    /// Humidity baseline the weather drifts toward, in hundredths of a percent.
    pub humidity_baseline: i64,
    /// Maximum per-tick humidity weather perturbation.
    pub humidity_swing: i64,
    /// How slowly humidity returns to its baseline.
    pub humidity_drying_divisor: i64,
    /// Baseline pressure at the datum, in decapascals.
    pub pressure_sea_level: i64,
    /// Decapascals dropped per metre of elevation.
    pub pressure_elevation_factor: i64,
    /// Maximum per-tick pressure weather perturbation.
    pub pressure_weather_swing: i64,
    /// How slowly pressure returns to its baseline.
    pub pressure_settle_divisor: i64,
    /// Pressure difference per unit of wind speed.
    pub wind_gradient_divisor: i64,
    /// Danger points per metre of a portal's height.
    pub fall_danger_per_meter: i64,
    /// The thermal capacity at which a region keeps half the diurnal swing, if the package
    /// damps temperature by thermal mass at all.
    pub thermal_mass_reference: Option<i64>,
}

/// The tunable rules of the living domain.
#[derive(Clone, Copy, PartialEq, Eq, Debug, Structural)]
pub struct LivingRules {
    /// The body heat organisms defend, in centidegrees Celsius.
    pub set_point_centi_c: i64,
    /// How slowly an organism returns to its set point.
    pub warm_response: i64,
    /// How slowly the environment drags body heat toward ambient.
    pub cold_response: i64,
}

/// A region the world begins with.
#[derive(Clone, Copy, PartialEq, Eq, Debug, Structural)]
pub struct RegionSpec {
    /// The region's raw id.
    pub id: u64,
    /// Its initial temperature, in centidegrees Celsius.
    pub temperature_centi_c: i64,
    /// Its elevation in centimetres, if given.
    pub elevation: Option<i64>,
}

/// An organism the world begins with, placed in a region.
#[derive(Clone, Copy, PartialEq, Eq, Debug, Structural)]
pub struct OrganismSpec {
    /// The organism's raw id.
    pub id: u64,
    /// The region it lives in.
    pub region_id: u64,
    /// Its initial body heat, in centidegrees Celsius.
    pub body_heat_centi_c: i64,
}

/// A containment link: `child_id` lies within `parent_id`.
#[derive(Clone, Copy, PartialEq, Eq, Debug, Structural)]
pub struct ContainmentSpec {
    /// The contained entity.
    pub child_id: u64,
    /// Its container.
    pub parent_id: u64,
}

/// An undirected adjacency edge between two regions.
#[derive(Clone, Copy, PartialEq, Eq, Debug, Structural)]
pub struct AdjacencySpec {
    /// One end.
    pub a: u64,
    /// The other end.
    pub b: u64,
}

/// A region's exposure to the open sky, in hundredths of a percent.
#[derive(Clone, Copy, PartialEq, Eq, Debug, Structural)]
pub struct ExposureSpec {
    /// The region.
    pub region_id: u64,
    /// Its exposure.
    pub exposure: i64,
}

/// An entity's local position within its container, in centimetres.
#[derive(Clone, Copy, PartialEq, Eq, Debug, Structural)]
pub struct PositionSpec {
    /// The positioned entity.
    pub entity_id: u64,
    /// Along X.
    pub x: i64,
    /// Along Y.
    pub y: i64,
    /// Along Z, if given.
    pub z: Option<i64>,
}

/// A portal: a located connection from a spot in its host region to a destination region.
#[derive(Clone, Copy, PartialEq, Eq, Debug, Structural)]
pub struct PortalSpec {
    /// The portal entity.
    pub portal_id: u64,
    /// The region it stands in.
    pub host_region: u64,
    /// The region it leads to.
    pub dest_region: u64,
    /// Its position in the host, along X.
    pub x: i64,
    /// Along Y.
    pub y: i64,
    /// Along Z, if given.
    pub z: Option<i64>,
}

/// A world-pinned danger for one portal.
#[derive(Clone, Copy, PartialEq, Eq, Debug, Structural)]
pub struct PortalDangerSpec {
    /// The portal.
    pub portal_id: u64,
    /// Its fixed danger, 0..=10000.
    pub danger: i64,
}

} // verus!
