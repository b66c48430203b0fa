//! Fact-type declarations owned by the Physical Reality domain.
//!
//! Physical Reality owns the stage: space (position, containment, elevation), connectivity,
//! and environmental state. Every fact type appears exactly once, in its owner's schema: one
//! fact, one owner. Values are fixed-point integers, never floats, so committed state carries
//! no floating-point nondeterminism; scales are this domain's convention. Consumers read
//! these facts freely, by id.
//!
//! Both cardinalities are represented here. Cardinality-one facts (immediate containment,
//! scalar fields) hold at most one value per entity; cardinality-many facts (a region's
//! several neighbours in a topology, [`adjacent_to`], and the several portals a region hosts,
//! [`has_portal`]) are set-valued, which the store and the owning domain's cardinality
//! declaration support directly.

use crate::kernel::fact::FactType;
use vstd::prelude::*;

verus! {

// ---- Space -----------------------------------------------------------------------------

/// An entity's immediate container — the region or container it exists *within*.
/// Single-valued: the innermost enclosing entity. Hierarchical
/// containment (planet ⊃ continent ⊃ region ⊃ …) is walked by following this link upward;
/// it is state, not immutable structure. Value is an entity ref.
#[verifier::allow_in_spec]
pub fn contained_in() -> FactType
    returns
        FactType("physical.space.contained_in"),
{
    FactType("physical.space.contained_in")
}

/// A location's elevation, as fixed-point centimetres above a world datum. May be negative (below the datum). A spatial property of place.
#[verifier::allow_in_spec]
pub fn elevation() -> FactType
    returns
        FactType("physical.space.elevation"),
{
    FactType("physical.space.elevation")
}

/// An entity's local position within its immediate container, as fixed-point centimetres
/// along each axis. Space is representation-independent
/// -- coordinates are one representation a world may choose; consumers ask spatial
/// questions rather than depending on this storage (see the space module). Positions compose up
/// the containment hierarchy to give the relative position of any two loaded entities.
/// Frames are assumed axis-aligned (no inter-frame rotation); orientation is a later fact.
#[verifier::allow_in_spec]
pub fn position_x() -> FactType
    returns
        FactType("physical.space.position_x"),
{
    FactType("physical.space.position_x")
}

/// Local position along the Y axis; see [`position_x`].
#[verifier::allow_in_spec]
pub fn position_y() -> FactType
    returns
        FactType("physical.space.position_y"),
{
    FactType("physical.space.position_y")
}

/// Local position along the Z axis (height); see [`position_x`].
#[verifier::allow_in_spec]
pub fn position_z() -> FactType
    returns
        FactType("physical.space.position_z"),
{
    FactType("physical.space.position_z")
}

/// The regions directly connected to this one in a topology. A
/// **cardinality-many** relationship: a region has several neighbours. Value is an entity
/// ref; seed both directions for an undirected edge. Distinct topologies (roads, rivers)
/// would be distinct fact types layered over the same regions, not a single graph.
#[verifier::allow_in_spec]
pub fn adjacent_to() -> FactType
    returns
        FactType("physical.space.adjacent_to"),
{
    FactType("physical.space.adjacent_to")
}

/// The destination a portal leads to -- the region on its far side. A portal is any located connection between
/// regions: a door, window, hatch, staircase, or a magical gate into a pocket region. The
/// portal is an entity, located in its host region (contained_in + position); this fact is
/// its far side. Single-valued and changeable -- a gangplank or a re-targetable gate just
/// Sets a new destination. This is CONNECTIVITY, distinct from adjacency: two rooms may
/// border yet be disconnected if no portal joins them.
#[verifier::allow_in_spec]
pub fn leads_to() -> FactType
    returns
        FactType("physical.space.leads_to"),
{
    FactType("physical.space.leads_to")
}

/// The set of portals a region hosts -- its exits. A **cardinality-many**
/// relationship: a region may have several portals (a room with two doors and a window). Each
/// value is a portal entity, itself located within the region and carrying a [`leads_to`]
/// destination.
#[verifier::allow_in_spec]
pub fn has_portal() -> FactType
    returns
        FactType("physical.space.has_portal"),
{
    FactType("physical.space.has_portal")
}

/// How dangerous it is to traverse a portal, 0..=10000. The *effective* danger, written every tick by the danger system: if a world
/// pins [`portal_danger_override`] the system echoes it; otherwise it derives danger from the
/// portal's height above the ground (a 3rd-storey window is perilous, a ground-floor door is
/// not) -- with room for weather to raise it later (a storm-lashed ledge). Consumers read
/// this fact.
#[verifier::allow_in_spec]
pub fn portal_danger() -> FactType
    returns
        FactType("physical.space.portal_danger"),
{
    FactType("physical.space.portal_danger")
}

/// A world-authored fixed danger for a portal, 0..=10000 (optional). When present it pins
/// [`portal_danger`] to this value regardless of height or weather -- a magically warded gate
/// that is always deadly, or a padded chute that never is.
#[verifier::allow_in_spec]
pub fn portal_danger_override() -> FactType
    returns
        FactType("physical.space.portal_danger_override"),
{
    FactType("physical.space.portal_danger_override")
}

/// How open a location is to the outside sky, in hundredths of a percent (0..=10000).
/// Full is open ground under
/// open sky; a forest floor or cave mouth is partial; a sealed chamber is 0. Surface-weather
/// systems scale their effect by this, so enclosed places get muted swings, no rain, and
/// darkness. A location with no exposure fact is treated as fully exposed.
#[verifier::allow_in_spec]
pub fn exposure() -> FactType
    returns
        FactType("physical.space.exposure"),
{
    FactType("physical.space.exposure")
}

// ---- Environmental state ------------------------------------------------------------

/// Ambient temperature of a location, as fixed-point centidegrees Celsius. Owned by Physical
/// Reality; consumed by Living Systems, Ecology, Economy. "A deer experiences
/// cold; the forest owns the temperature".
#[verifier::allow_in_spec]
pub fn temperature() -> FactType
    returns
        FactType("physical.environment.temperature"),
{
    FactType("physical.environment.temperature")
}

/// Illumination at a location, as fixed-point hundredths of a percent (0..=10000). A field
/// that moves across the landscape with the sun.
#[verifier::allow_in_spec]
pub fn illumination() -> FactType
    returns
        FactType("physical.environment.illumination"),
{
    FactType("physical.environment.illumination")
}

/// Relative humidity at a location, as fixed-point hundredths of a percent (0..=10000).
#[verifier::allow_in_spec]
pub fn humidity() -> FactType
    returns
        FactType("physical.environment.humidity"),
{
    FactType("physical.environment.humidity")
}

/// Atmospheric pressure at a location, in decapascals (hPa x 10) as fixed-point.
/// Falls with elevation and drifts with weather; the pressure
/// gradient between adjacent regions is what drives wind.
#[verifier::allow_in_spec]
pub fn pressure() -> FactType
    returns
        FactType("physical.environment.pressure"),
{
    FactType("physical.environment.pressure")
}

/// Wind speed at a location, in centimetres per second.
/// Magnitude only; direction is [`wind_toward`].
#[verifier::allow_in_spec]
pub fn wind_speed() -> FactType
    returns
        FactType("physical.environment.wind_speed"),
{
    FactType("physical.environment.wind_speed")
}

/// The neighbouring region the wind blows toward — wind's direction expressed *in the
/// graph* rather than as a compass bearing, since space is representation-independent.
/// An entity ref to the
/// downwind region; absent when the air is calm.
#[verifier::allow_in_spec]
pub fn wind_toward() -> FactType
    returns
        FactType("physical.environment.wind_toward"),
{
    FactType("physical.environment.wind_toward")
}

// ---- Materials ----------------------------------------------------------------------
//
// Materials describe what reality is *composed of*. Cardinal never prescribes a material
// catalogue: a material is an entity that exposes *properties*, not a name. A physical object references the materials it is made of
// through [`made_of`]; higher domains reason
// about the properties, never about "wood" or "steel". Composites are expected, not
// exceptional, so [`made_of`] is cardinality-many. Each property below is optional: a
// material exposes only the characteristics it has, and a consumer asks through
// the materials module rather than depending on which facts are present.

/// The materials a physical object is composed of. A **cardinality-many**
/// relationship: an object may be a composite of several materials (a house of timber, glass,
/// and steel). Each value is a material entity — itself carrying the property facts below.
#[verifier::allow_in_spec]
pub fn made_of() -> FactType
    returns
        FactType("physical.material.made_of"),
{
    FactType("physical.material.made_of")
}

/// A material's density, in kilograms per cubic metre. A property of the
/// material entity, read by consumers that reason about mass and buoyancy.
#[verifier::allow_in_spec]
pub fn material_density() -> FactType
    returns
        FactType("physical.material.density"),
{
    FactType("physical.material.density")
}

/// A material's hardness / structural strength, 0..=10000 (a normalized property, hundredths
/// of a percent). Governs whether it survives applied stress: a structure fails at its
/// weakest material, not because of what it is named.
#[verifier::allow_in_spec]
pub fn material_hardness() -> FactType
    returns
        FactType("physical.material.hardness"),
{
    FactType("physical.material.hardness")
}

/// A material's specific heat capacity, in joules per kilogram-kelvin.
/// How much energy it takes to change the material's temperature — its thermal inertia. Read
/// by environmental simulation; a high-capacity mass resists the diurnal swing.
#[verifier::allow_in_spec]
pub fn material_thermal_capacity() -> FactType
    returns
        FactType("physical.material.thermal_capacity"),
{
    FactType("physical.material.thermal_capacity")
}

/// A material's flammability, 0..=10000 (normalized). Zero is inert; higher ignites more
/// readily. Fire spreads where nearby materials satisfy ignition conditions, so a
/// composite's fire behaviour follows its most flammable constituent.
#[verifier::allow_in_spec]
pub fn material_flammability() -> FactType
    returns
        FactType("physical.material.flammability"),
{
    FactType("physical.material.flammability")
}

/// A material's conductivity, 0..=10000 (normalized) — thermal/electrical transport.
/// Read by consumers reasoning about heat flow or current.
#[verifier::allow_in_spec]
pub fn material_conductivity() -> FactType
    returns
        FactType("physical.material.conductivity"),
{
    FactType("physical.material.conductivity")
}

/// A material's toxicity, 0..=10000 (normalized). Zero is inert; higher is more hazardous to
/// living systems. A composite is as hazardous as its most toxic part.
#[verifier::allow_in_spec]
pub fn material_toxicity() -> FactType
    returns
        FactType("physical.material.toxicity"),
{
    FactType("physical.material.toxicity")
}

// ---- Physical constants (laws of the mechanism, not tunable world rules) ----------------

/// Absolute zero in centidegrees Celsius (−273.15 °C) — the floor below which temperature is
/// physically meaningless. The Validate stage rejects any resolved temperature beneath it.
pub const ABSOLUTE_ZERO_CENTI_C: i64 = -27315;

/// The maximum value of a percentage field (illumination, humidity): 100.00%.
pub const PERCENT_FULL: i64 = 10000;

/// Ceiling for atmospheric pressure (decapascals) — clamps the field to a sane range, well
/// above any real surface pressure (~1013 hPa = 10130 decapascals).
pub const MAX_PRESSURE: i64 = 20000;

/// Ceiling for wind speed (centimetres/second) — clamps the field well above any real wind.
pub const MAX_WIND: i64 = 100000;

/// Ceiling for a portal's danger value (0 = harmless, 10000 = as dangerous as the model goes).
pub const MAX_DANGER: i64 = 10000;

/// Ceiling for material density (kg/m³) — clamps the field well above any real or exotic
/// material.
pub const MAX_DENSITY: i64 = 1_000_000;

/// Ceiling for material specific heat capacity (J/(kg·K)) — clamps well above any real value
/// (water ≈ 4184, hydrogen ≈ 14 300).
pub const MAX_THERMAL_CAPACITY: i64 = 1_000_000;

} // verus!
