//! Hermetic transformations owned by the Physical Reality domain.
//!
//! Each system declares its read and write sets and cadence, reads committed reality, and
//! emits proposals, mutating nothing directly. These drive the environmental fields that vary
//! across space and time: temperature (a deterministic day/night swing plus stochastic
//! weather), illumination (the sun's position), humidity and pressure (weather), wind (the
//! pressure gradient across the topology), and the danger of crossing a portal. Implement
//! causes, never outcomes.
//!
//! Every weather system simulates the regions it was configured with together with every
//! region committed reality shows: each region carries a temperature fact, so the entities
//! bearing one are the region roster. A region that comes into being mid-simulation is
//! simulated the moment its facts commit; systems hold no state between ticks.

use crate::kernel::fact::{type_bytes, Cause, FactKey, FactType, SystemId};
use crate::kernel::hierarchy::{ancestry_path, is_ancestry, lemma_rooted_path, parent_of, rooted};
use crate::kernel::identity::EntityId;
use crate::kernel::proposal::{Change, Proposal};
use crate::kernel::rng::{below_spec, substream_state, SubstreamKey};
use crate::kernel::system::{
    basis_of, Cadence, CommittedView, FactTypeList, ProposalList, System, TickContext, TripleList,
};
use crate::kernel::triples::{entities_of_type, first_at, Triple};
use crate::kernel::value::Value;
use crate::physical::materials::{
    greatest, materials_spec, properties_of, property, property_spec, thermal_capacity_of,
};
use crate::physical::schema::{
    adjacent_to, contained_in, elevation, exposure, has_portal, humidity, illumination,
    made_of, material_thermal_capacity, portal_danger, portal_danger_override, position_z,
    pressure, temperature, wind_speed, wind_toward, MAX_DANGER, PERCENT_FULL,
};
use crate::physical::space::{
    axis_value, entities_in, ids_ascending, insert_entity, refs_of,
};
use crate::arith::{
    clamp64, div_toward_zero, max_i64, saturate64, tr64, trunc_div,
};
use vstd::prelude::*;

verus! {

// ---- arithmetic ----------------------------------------------------------------------------

/// An integer triangle wave in `0..=amp` over `period` (at least two ticks), peaking at
/// mid-period. The phase is the tick read as a signed word.
pub open spec fn wave_spec(phase: u64, period: u64, amp: i64) -> i64 {
    let p: int = if period < 2 {
        2
    } else {
        period as int
    };
    let r = tr64(phase) % p;
    let half = p / 2;
    let up = if r <= half {
        r
    } else {
        p - r
    };
    trunc_div(amp * up, half) as i64
}

/// `(-a) % p` from `a % p`, for positive `a` and `p`.
proof fn lemma_mod_negated(a: int, p: int)
    requires
        a > 0,
        p > 0,
    ensures
        (-a) % p == (if a % p == 0 {
            0
        } else {
            p - a % p
        }),
{
    vstd::arithmetic::div_mod::lemma_fundamental_div_mod(a, p);
    let q = a / p;
    let m = a % p;
    assert(0 <= m < p) by {
        vstd::arithmetic::div_mod::lemma_mod_bound(a, p);
    }
    if m == 0 {
        assert(-a == (-q) * p + 0) by (nonlinear_arith)
            requires
                a == p * q + m,
                m == 0,
        ;
        vstd::arithmetic::div_mod::lemma_fundamental_div_mod_converse(-a, p, -q, 0);
    } else {
        assert(-a == (-q - 1) * p + (p - m)) by (nonlinear_arith)
            requires
                a == p * q + m,
        ;
        vstd::arithmetic::div_mod::lemma_fundamental_div_mod_converse(-a, p, -q - 1, p - m);
    }
}

/// An integer triangle wave in `0..=amp` over `period`, peaking at mid-period.
///
/// Systems that drift a field propose the difference between consecutive levels so summed
/// deltas telescope and the field stays bounded; systems that set an absolute level (the
/// sun) use the level directly.
fn wave(phase: u64, period: u64, amp: i64) -> (r: i64)
    ensures
        r == wave_spec(phase, period, amp),
{
    let p: u128 = if period < 2 {
        2
    } else {
        period as u128
    };
    let ph: i64 = #[verifier::truncate] (phase as i64);
    proof {
        assert(ph as int == tr64(phase)) by (bit_vector)
            requires
                ph == phase as i64,
        ;
    }
    let r: u128 = if ph >= 0 {
        (ph as u128) % p
    } else {
        let a: u128 = (-(ph as i128)) as u128;
        let m = a % p;
        proof {
            lemma_mod_negated(a as int, p as int);
        }
        if m == 0 {
            0
        } else {
            p - m
        }
    };
    let half: u128 = p / 2;
    let up: u128 = if r <= half {
        r
    } else {
        p - r
    };
    let mag: u128 = if amp >= 0 {
        amp as u128
    } else {
        (-(amp as i128)) as u128
    };
    assert(mag * up <= 0x8000_0000_0000_0000 * 0x8000_0000_0000_0000) by (nonlinear_arith)
        requires
            mag <= 0x8000_0000_0000_0000,
            up <= 0x8000_0000_0000_0000,
    ;
    let q: u128 = (mag * up) / half;
    assert(q <= mag) by (nonlinear_arith)
        requires
            q as int == (mag as int * up as int) / (half as int),
            up <= half,
            half > 0,
    ;
    if amp >= 0 {
        q as i64
    } else {
        assert(amp * (up as int) == -((mag * up) as int)) by (nonlinear_arith)
            requires
                mag == -(amp as int),
        ;
        (-(q as i128)) as i64
    }
}

/// A surface-weather magnitude scaled by exposure: `value * exposure / 10000`, the product
/// saturating, the quotient rounded toward zero.
pub open spec fn attenuate_spec(value: i64, exposure: i64) -> i64 {
    trunc_div(clamp64(value * exposure) as int, PERCENT_FULL as int) as i64
}

/// Scale a surface-weather magnitude by exposure: `value * exposure / 10000`. Full exposure
/// passes it through unchanged; zero exposure (a sealed space) removes it entirely; a
/// partial value dampens it in proportion.
fn attenuate(value: i64, exposure: i64) -> (r: i64)
    ensures
        r == attenuate_spec(value, exposure),
{
    assert((value as int) * (exposure as int) <= 0x4000_0000_0000_0000_0000_0000_0000_0000) by (
    nonlinear_arith)
        requires
            i64::MIN <= value <= i64::MAX,
            i64::MIN <= exposure <= i64::MAX,
    ;
    assert((value as int) * (exposure as int) >= -0x4000_0000_0000_0000_0000_0000_0000_0000) by (
    nonlinear_arith)
        requires
            i64::MIN <= value <= i64::MAX,
            i64::MIN <= exposure <= i64::MAX,
    ;
    let product = saturate64((value as i128) * (exposure as i128));
    let q = div_toward_zero(product as i128, 10000);
    q as i64
}

/// A region's exposure to the open sky, in hundredths of a percent (0..=10000); a region
/// with no committed exposure is fully exposed.
pub open spec fn exposure_spec(s: Seq<Triple>, region: EntityId) -> i64 {
    match property_spec(s, region, exposure()) {
        Some(e) => if e < 0 {
            0
        } else if e > PERCENT_FULL {
            PERCENT_FULL
        } else {
            e
        },
        None => PERCENT_FULL,
    }
}

/// A region's exposure to the open sky, in hundredths of a percent (0..=10000). A region
/// with no committed exposure fact is treated as fully exposed, open ground under open sky,
/// so exposure only ever attenuates surface weather. A sealed chamber reads 0; a cave mouth
/// or forest floor is partial; a field is full.
fn exposure_of<V: CommittedView + ?Sized>(view: &V, region: EntityId) -> (r: i64)
    ensures
        r == exposure_spec(view.committed(), region),
{
    match property(view, region, exposure()) {
        Some(e) => if e < 0 {
            0
        } else if e > PERCENT_FULL {
            PERCENT_FULL
        } else {
            e
        },
        None => PERCENT_FULL,
    }
}

// ---- the region roster -----------------------------------------------------------------------

/// The regions to simulate: the configured ones and every entity carrying a committed
/// temperature, each once, ascending by id.
pub open spec fn roster_spec(s: Seq<Triple>, configured: Seq<EntityId>) -> Seq<EntityId> {
    choose|r: Seq<EntityId>|
        ids_ascending(r) && forall|x: EntityId|
            #[trigger] r.contains(x) == (configured.contains(x) || entities_of_type(
                s,
                type_bytes(temperature()),
            ).contains(x))
}

/// Two ascending lists with the same members are the same list.
pub proof fn lemma_ascending_unique(a: Seq<EntityId>, b: Seq<EntityId>)
    requires
        ids_ascending(a),
        ids_ascending(b),
        forall|x: EntityId| #[trigger] a.contains(x) == b.contains(x),
    ensures
        a == b,
    decreases a.len() + b.len(),
{
    if a.len() == 0 {
        if b.len() > 0 {
            assert(b.contains(b[0]));
            assert(a.contains(b[0]) == b.contains(b[0]));
        }
    } else if b.len() == 0 {
        assert(a.contains(a[0]));
        assert(a.contains(a[0]) == b.contains(a[0]));
    } else {
        let x0 = a[0];
        let y0 = b[0];
        assert(a.contains(x0));
        assert(b.contains(y0));
        assert(a.contains(x0) == b.contains(x0));
        assert(a.contains(y0) == b.contains(y0));
        let i = choose|i: int| 0 <= i < a.len() && a[i] == y0;
        let j = choose|j: int| 0 <= j < b.len() && b[j] == x0;
        if i > 0 {
            assert(a[0].0 < a[i].0);
            if j > 0 {
                assert(b[0].0 < b[j].0);
            }
        }
        if j > 0 {
            assert(b[0].0 < b[j].0);
        }
        assert(x0 == y0);
        let ta = a.drop_first();
        let tb = b.drop_first();
        assert forall|x: EntityId| #[trigger] ta.contains(x) == tb.contains(x) by {
            if ta.contains(x) {
                let k = choose|k: int| 0 <= k < ta.len() && ta[k] == x;
                assert(a[k + 1] == x);
                assert(a[0].0 < a[k + 1].0);
                assert(a.contains(x));
                assert(a.contains(x) == b.contains(x));
                let m = choose|m: int| 0 <= m < b.len() && b[m] == x;
                assert(m != 0);
                assert(tb[m - 1] == x);
            }
            if tb.contains(x) {
                let k = choose|k: int| 0 <= k < tb.len() && tb[k] == x;
                assert(b[k + 1] == x);
                assert(b[0].0 < b[k + 1].0);
                assert(b.contains(x));
                assert(a.contains(x) == b.contains(x));
                let m = choose|m: int| 0 <= m < a.len() && a[m] == x;
                assert(m != 0);
                assert(ta[m - 1] == x);
            }
        }
        assert(ids_ascending(ta));
        assert(ids_ascending(tb));
        lemma_ascending_unique(ta, tb);
        assert(a =~= seq![a[0]] + ta);
        assert(b =~= seq![b[0]] + tb);
    }
}

/// The regions to simulate this tick: the configured regions and every entity carrying a
/// committed temperature fact (reading it through the scoped view both discovers the
/// regions and declares the dependency the tick checks).
fn roster<V: CommittedView + ?Sized>(view: &V, configured: &Vec<EntityId>) -> (r: Vec<EntityId>)
    ensures
        r@ == roster_spec(view.committed(), configured@),
{
    let found = view.entities_with(temperature());
    let mut set: Vec<EntityId> = Vec::new();
    let mut i: usize = 0;
    while i < configured.len()
        invariant
            i <= configured.len(),
            ids_ascending(set@),
            forall|x: EntityId| #[trigger] set@.contains(x) == configured@.take(i as int).contains(x),
        decreases configured.len() - i,
    {
        insert_entity(&mut set, configured[i]);
        proof {
            let t = configured@.take(i as int);
            let c = configured@[i as int];
            assert(configured@.take(i + 1) =~= t.push(c));
            assert forall|y: EntityId| #[trigger] set@.contains(y) == t.push(c).contains(y) by {
                if t.contains(y) {
                    let m = choose|m: int| 0 <= m < t.len() && t[m] == y;
                    assert(t.push(c)[m] == y);
                }
                if y == c {
                    assert(t.push(c)[t.len() as int] == y);
                }
                if t.push(c).contains(y) {
                    let m = choose|m: int| 0 <= m < t.push(c).len() && t.push(c)[m] == y;
                    if m < t.len() {
                        assert(t[m] == y);
                    }
                }
            }
        }
        i = i + 1;
    }
    assert(configured@.take(i as int) =~= configured@);
    let mut j: usize = 0;
    while j < found.len()
        invariant
            j <= found.len(),
            i == configured.len(),
            ids_ascending(set@),
            found@ == entities_of_type(view.committed(), type_bytes(temperature())),
            forall|x: EntityId|
                #[trigger] set@.contains(x) == (configured@.contains(x) || found@.take(
                    j as int,
                ).contains(x)),
        decreases found.len() - j,
    {
        insert_entity(&mut set, found[j]);
        proof {
            let t = found@.take(j as int);
            let c = found@[j as int];
            assert(found@.take(j + 1) =~= t.push(c));
            assert forall|y: EntityId| #[trigger] set@.contains(y) == (configured@.contains(y)
                || t.push(c).contains(y)) by {
                if t.contains(y) {
                    let m = choose|m: int| 0 <= m < t.len() && t[m] == y;
                    assert(t.push(c)[m] == y);
                }
                if y == c {
                    assert(t.push(c)[t.len() as int] == y);
                }
                if t.push(c).contains(y) {
                    let m = choose|m: int| 0 <= m < t.push(c).len() && t.push(c)[m] == y;
                    if m < t.len() {
                        assert(t[m] == y);
                    }
                }
            }
        }
        j = j + 1;
    }
    assert(found@.take(j as int) =~= found@);
    proof {
        let s = view.committed();
        let c = configured@;
        assert(ids_ascending(set@) && forall|x: EntityId|
            #[trigger] set@.contains(x) == (c.contains(x) || entities_of_type(
                s,
                type_bytes(temperature()),
            ).contains(x)));
        let chosen = roster_spec(s, c);
        lemma_ascending_unique(set@, chosen);
    }
    set
}

/// The proposals a system emits over a roster: each region's, in roster order.
pub open spec fn per_region(roster: Seq<EntityId>, f: spec_fn(EntityId) -> Seq<Proposal>) -> Seq<
    Proposal,
>
    decreases roster.len(),
{
    if roster.len() == 0 {
        Seq::empty()
    } else {
        per_region(roster.drop_last(), f) + f(roster.last())
    }
}

/// A proposal of `system` at `key` computed on `tick` (so read at its basis).
pub open spec fn proposed(system: &'static str, key: FactKey, tick: u64, change: Change, cause: &'static str) -> Proposal {
    Proposal {
        system: SystemId(system),
        target: key,
        basis_tick: basis_of(tick),
        change,
        cause: Cause(cause),
    }
}

/// The random substream a system draws from for one region on one tick.
pub open spec fn region_stream(ctx: TickContext, region: EntityId) -> u64 {
    substream_state(ctx.seed, SubstreamKey { system: ctx.system_code, tick: ctx.tick, scope: region.0 })
}

/// A uniform perturbation in `-swing..=swing` drawn from a region's substream.
pub open spec fn noise_spec(ctx: TickContext, region: EntityId, swing: i64) -> i64 {
    let w = max_i64(swing, 0);
    (below_spec(region_stream(ctx, region), (w * 2 + 1) as u64) - w) as i64
}

/// Draw a uniform perturbation in `-swing..=swing` from a region's substream.
fn noise(ctx: &TickContext, region: EntityId, swing: i64) -> (r: i64)
    ensures
        r == noise_spec(*ctx, region, swing),
{
    let w: i64 = if swing >= 0 {
        swing
    } else {
        0
    };
    let span: u64 = (w as u64) * 2 + 1;
    let mut rng = ctx.rng(region.raw());
    let raw = rng.below(span);
    ((raw as i128) - (w as i128)) as i64
}

// ---- temperature -------------------------------------------------------------------------

/// The tick before `tick`, wrapping at zero.
pub open spec fn previous_tick(tick: u64) -> u64 {
    if tick == 0 {
        u64::MAX
    } else {
        (tick - 1) as u64
    }
}

/// A region's thermal capacity: the greatest specific heat among its materials, or 0.
pub open spec fn capacity_spec(s: Seq<Triple>, region: EntityId) -> i64 {
    match greatest(properties_of(s, materials_spec(s, region), material_thermal_capacity())) {
        Some(c) => c,
        None => 0,
    }
}

/// A swing damped by thermal mass: a region of capacity `capacity` keeps
/// `reference / (reference + capacity)` of it (rounded toward zero); a region with no
/// thermal mass, or a non-positive reference, keeps all of it.
pub open spec fn damp_spec(delta: i64, reference: i64, capacity: i64) -> i64 {
    if reference > 0 && capacity > 0 {
        trunc_div(delta * reference, reference + capacity) as i64
    } else {
        delta
    }
}

/// Damp a temperature swing by a region's thermal mass.
fn damp(delta: i64, reference: i64, capacity: i64) -> (r: i64)
    ensures
        r == damp_spec(delta, reference, capacity),
{
    if reference > 0 && capacity > 0 {
        assert(-0x4000_0000_0000_0000_0000_0000_0000_0000 <= (delta as int) * (reference as int)
            <= 0x4000_0000_0000_0000_0000_0000_0000_0000) by (nonlinear_arith)
            requires
                i64::MIN <= delta <= i64::MAX,
                0 < reference <= i64::MAX,
        ;
        let num: i128 = (delta as i128) * (reference as i128);
        let den: i128 = (reference as i128) + (capacity as i128);
        let q = div_toward_zero(num, den);
        proof {
            lemma_damped_fits(delta as int, reference as int, capacity as int);
        }
        q as i64
    } else {
        delta
    }
}

/// A damped swing is no larger than the swing.
proof fn lemma_damped_fits(delta: int, reference: int, capacity: int)
    requires
        reference > 0,
        capacity > 0,
        i64::MIN <= delta <= i64::MAX,
    ensures
        i64::MIN <= trunc_div(delta * reference, reference + capacity) <= i64::MAX,
{
    if delta >= 0 {
        assert((delta * reference) / (reference + capacity) <= delta) by (nonlinear_arith)
            requires
                delta >= 0,
                reference > 0,
                capacity > 0,
        ;
        assert((delta * reference) / (reference + capacity) >= 0) by (nonlinear_arith)
            requires
                delta >= 0,
                reference > 0,
                capacity > 0,
        ;
    } else {
        assert(((-delta) * reference) / (reference + capacity) <= -delta) by (nonlinear_arith)
            requires
                delta < 0,
                reference > 0,
                capacity > 0,
        ;
        assert(-(delta * reference) == (-delta) * reference) by (nonlinear_arith);
        assert(((-delta) * reference) / (reference + capacity) >= 0) by (nonlinear_arith)
            requires
                delta < 0,
                reference > 0,
                capacity > 0,
        ;
    }
}

/// A deterministic day/night temperature swing, damped by each region's thermal mass.
/// Proposes the per-tick delta of a triangle wave over the day, so the swing is bounded and
/// reproducible, for every region.
pub struct DiurnalCycle {
    /// The regions configured to be simulated (the roster adds every temperature bearer).
    pub regions: Vec<EntityId>,
    /// Ticks in one day.
    pub ticks_per_day: u64,
    /// Peak swing, in centidegrees Celsius.
    pub amplitude_centi_c: i64,
    /// The thermal capacity at which a region keeps half the swing.
    pub thermal_mass_reference: i64,
}

/// The temperature change the diurnal cycle proposes for `region`.
pub open spec fn diurnal_delta(sys: DiurnalCycle, s: Seq<Triple>, tick: u64, region: EntityId) -> i64 {
    let level = wave_spec(tick, sys.ticks_per_day, sys.amplitude_centi_c);
    let prev = wave_spec(previous_tick(tick), sys.ticks_per_day, sys.amplitude_centi_c);
    damp_spec(
        attenuate_spec(clamp64(level - prev), exposure_spec(s, region)),
        sys.thermal_mass_reference,
        capacity_spec(s, region),
    )
}

/// What the diurnal cycle proposes for each region.
pub open spec fn diurnal_for(sys: DiurnalCycle, s: Seq<Triple>, tick: u64) -> spec_fn(EntityId) -> Seq<
    Proposal,
> {
    |region: EntityId|
        seq![
            proposed(
                "physical.diurnal_cycle",
                FactKey { entity: region, fact_type: temperature() },
                tick,
                Change::Delta(diurnal_delta(sys, s, tick, region)),
                "diurnal_shift",
            ),
        ]
}

impl DiurnalCycle {
    /// Drive every region with a swing of `amplitude_centi_c` over `ticks_per_day` ticks,
    /// damped by thermal mass relative to `thermal_mass_reference`.
    pub fn new(
        regions: Vec<EntityId>,
        ticks_per_day: u64,
        amplitude_centi_c: i64,
        thermal_mass_reference: i64,
    ) -> (r: DiurnalCycle)
        ensures
            r == (DiurnalCycle { regions, ticks_per_day, amplitude_centi_c, thermal_mass_reference }),
    {
        DiurnalCycle { regions, ticks_per_day, amplitude_centi_c, thermal_mass_reference }
    }
}

impl System for DiurnalCycle {
    open spec fn declared_id(&self) -> SystemId {
        SystemId("physical.diurnal_cycle")
    }

    fn id(&self) -> (r: SystemId)
        ensures
            r == SystemId("physical.diurnal_cycle"),
    {
        SystemId::new("physical.diurnal_cycle")
    }

    open spec fn declared_reads(&self) -> FactTypeList {
        seq![temperature(), exposure(), made_of(), material_thermal_capacity()]
    }

    fn reads(&self) -> (r: Vec<FactType>)
        ensures
            r@ == seq![temperature(), exposure(), made_of(), material_thermal_capacity()],
    {
        let mut r: Vec<FactType> = Vec::new();
        r.push(temperature());
        r.push(exposure());
        r.push(made_of());
        r.push(material_thermal_capacity());
        r
    }

    open spec fn declared_writes(&self) -> FactTypeList {
        seq![temperature()]
    }

    fn writes(&self) -> (r: Vec<FactType>)
        ensures
            r@ == seq![temperature()],
    {
        let mut r: Vec<FactType> = Vec::new();
        r.push(temperature());
        r
    }

    open spec fn declared_cadence(&self) -> Cadence {
        Cadence::EveryTick
    }

    fn cadence(&self) -> (r: Cadence)
        ensures
            r == Cadence::EveryTick,
    {
        Cadence::EveryTick
    }

    open spec fn evaluated(&self, committed: TripleList, ctx: TickContext) -> ProposalList {
        per_region(
                roster_spec(committed, self.regions@),
                diurnal_for(*self, committed, ctx.tick),
            )
    }

    fn evaluate(&self, view: &dyn CommittedView, ctx: &TickContext) -> (r: Vec<Proposal>)
        ensures
            r@ == per_region(
                roster_spec(view.committed(), self.regions@),
                diurnal_for(*self, view.committed(), ctx.tick),
            ),
    {
        let level = wave(ctx.tick(), self.ticks_per_day, self.amplitude_centi_c);
        let prev = wave(ctx.tick().wrapping_sub(1), self.ticks_per_day, self.amplitude_centi_c);
        let swing = saturate64((level as i128) - (prev as i128));
        let regions = roster(view, &self.regions);
        let ghost f = diurnal_for(*self, view.committed(), ctx.tick);
        let mut out: Vec<Proposal> = Vec::new();
        let mut i: usize = 0;
        while i < regions.len()
            invariant
                i <= regions.len(),
                f == diurnal_for(*self, view.committed(), ctx.tick),
                regions@ == roster_spec(view.committed(), self.regions@),
                out@ == per_region(regions@.take(i as int), f),
                swing == clamp64(
                    wave_spec(ctx.tick, self.ticks_per_day, self.amplitude_centi_c) - wave_spec(
                        previous_tick(ctx.tick),
                        self.ticks_per_day,
                        self.amplitude_centi_c,
                    ),
                ),
            decreases regions.len() - i,
        {
            let region = regions[i];
            let exposure = exposure_of(view, region);
            let capacity = match thermal_capacity_of(view, region) {
                Some(c) => c,
                None => 0,
            };
            let delta = damp(attenuate(swing, exposure), self.thermal_mass_reference, capacity);
            out.push(
                Proposal::new(
                    self.id(),
                    FactKey::new(region, temperature()),
                    ctx.basis_tick(),
                    Change::Delta(delta),
                    Cause::new("diurnal_shift"),
                ),
            );
            assert(regions@.take(i + 1).drop_last() =~= regions@.take(i as int));
            assert(regions@.take(i + 1).last() == region);
            assert(exposure == exposure_spec(view.committed(), region));
            assert(capacity == capacity_spec(view.committed(), region));
            assert(delta == diurnal_delta(*self, view.committed(), ctx.tick, region));
            assert(out@.last() == f(region)[0]);
            assert(out@ =~= per_region(regions@.take(i + 1), f));
            i = i + 1;
        }
        assert(regions@.take(i as int) =~= regions@);
        out
    }
}

/// A small stochastic weather perturbation of temperature, drawn from the kernel-issued
/// substream, for every region.
pub struct WeatherNoise {
    /// The regions configured to be simulated (the roster adds every temperature bearer).
    pub regions: Vec<EntityId>,
    /// Peak perturbation each tick, in centidegrees Celsius.
    pub max_swing_centi_c: i64,
}

/// What weather noise proposes for each region.
pub open spec fn weather_for(sys: WeatherNoise, s: Seq<Triple>, ctx: TickContext) -> spec_fn(
    EntityId,
) -> Seq<Proposal> {
    |region: EntityId|
        seq![
            proposed(
                "physical.weather_noise",
                FactKey { entity: region, fact_type: temperature() },
                ctx.tick,
                Change::Delta(
                    attenuate_spec(
                        noise_spec(ctx, region, sys.max_swing_centi_c),
                        exposure_spec(s, region),
                    ),
                ),
                "weather_perturbation",
            ),
        ]
}

impl WeatherNoise {
    /// Perturb each region's temperature by up to +/- `max_swing_centi_c` each tick.
    pub fn new(regions: Vec<EntityId>, max_swing_centi_c: i64) -> (r: WeatherNoise)
        ensures
            r == (WeatherNoise { regions, max_swing_centi_c }),
    {
        WeatherNoise { regions, max_swing_centi_c }
    }
}

impl System for WeatherNoise {
    open spec fn declared_id(&self) -> SystemId {
        SystemId("physical.weather_noise")
    }

    fn id(&self) -> (r: SystemId)
        ensures
            r == SystemId("physical.weather_noise"),
    {
        SystemId::new("physical.weather_noise")
    }

    open spec fn declared_reads(&self) -> FactTypeList {
        seq![temperature(), exposure()]
    }

    fn reads(&self) -> (r: Vec<FactType>)
        ensures
            r@ == seq![temperature(), exposure()],
    {
        let mut r: Vec<FactType> = Vec::new();
        r.push(temperature());
        r.push(exposure());
        r
    }

    open spec fn declared_writes(&self) -> FactTypeList {
        seq![temperature()]
    }

    fn writes(&self) -> (r: Vec<FactType>)
        ensures
            r@ == seq![temperature()],
    {
        let mut r: Vec<FactType> = Vec::new();
        r.push(temperature());
        r
    }

    open spec fn declared_cadence(&self) -> Cadence {
        Cadence::EveryTick
    }

    fn cadence(&self) -> (r: Cadence)
        ensures
            r == Cadence::EveryTick,
    {
        Cadence::EveryTick
    }

    open spec fn evaluated(&self, committed: TripleList, ctx: TickContext) -> ProposalList {
        per_region(roster_spec(committed, self.regions@), weather_for(*self, committed, ctx))
    }

    fn evaluate(&self, view: &dyn CommittedView, ctx: &TickContext) -> (r: Vec<Proposal>)
        ensures
            r@ == per_region(roster_spec(view.committed(), self.regions@), weather_for(*self, view.committed(), *ctx)),
    {
        let regions = roster(view, &self.regions);
        let ghost f = weather_for(*self, view.committed(), *ctx);
        let mut out: Vec<Proposal> = Vec::new();
        let mut i: usize = 0;
        while i < regions.len()
            invariant
                i <= regions.len(),
                f == weather_for(*self, view.committed(), *ctx),
                regions@ == roster_spec(view.committed(), self.regions@),
                out@ == per_region(regions@.take(i as int), f),
            decreases regions.len() - i,
        {
            let region = regions[i];
            let ghost before = out@;
            // The substream is scoped by region id: content-keyed, so each region's weather is
            // independent and replays identically.
            let raw = noise(ctx, region, self.max_swing_centi_c);
            let exposure = exposure_of(view, region);
            out.push(
                Proposal::new(
                    self.id(),
                    FactKey::new(region, temperature()),
                    ctx.basis_tick(),
                    Change::Delta(attenuate(raw, exposure)),
                    Cause::new("weather_perturbation"),
                ),
            );
            assert(regions@.take(i + 1).drop_last() =~= regions@.take(i as int));
            assert(regions@.take(i + 1).last() == region);
            assert(out@ =~= before + f(region));
            i = i + 1;
        }
        assert(regions@.take(i as int) =~= regions@);
        out
    }
}

// ---- illumination ------------------------------------------------------------------------

/// The sun crossing the sky: illumination set to its absolute level for the tick, peaking at
/// midday and dark at midnight, for every region. The sun's position is a pure function of
/// the clock; exposure scales it so a sealed cave stays dark even at noon.
pub struct DayNightCycle {
    /// The regions configured to be simulated (the roster adds every temperature bearer).
    pub regions: Vec<EntityId>,
    /// Ticks in one day.
    pub ticks_per_day: u64,
    /// Illumination at midday, in hundredths of a percent.
    pub peak_illumination: i64,
}

/// What the day/night cycle proposes for each region.
pub open spec fn daylight_for(sys: DayNightCycle, s: Seq<Triple>, ctx: TickContext) -> spec_fn(
    EntityId,
) -> Seq<Proposal> {
    |region: EntityId|
        seq![
            proposed(
                "physical.day_night_cycle",
                FactKey { entity: region, fact_type: illumination() },
                ctx.tick,
                Change::Assign(
                    Value::Int(
                        attenuate_spec(
                            wave_spec(ctx.tick, sys.ticks_per_day, sys.peak_illumination),
                            exposure_spec(s, region),
                        ),
                    ),
                ),
                "solar_position",
            ),
        ]
}

impl DayNightCycle {
    /// Light each region up to `peak_illumination` at midday over `ticks_per_day` ticks.
    pub fn new(regions: Vec<EntityId>, ticks_per_day: u64, peak_illumination: i64) -> (r: DayNightCycle)
        ensures
            r == (DayNightCycle { regions, ticks_per_day, peak_illumination }),
    {
        DayNightCycle { regions, ticks_per_day, peak_illumination }
    }
}

impl System for DayNightCycle {
    open spec fn declared_id(&self) -> SystemId {
        SystemId("physical.day_night_cycle")
    }

    fn id(&self) -> (r: SystemId)
        ensures
            r == SystemId("physical.day_night_cycle"),
    {
        SystemId::new("physical.day_night_cycle")
    }

    open spec fn declared_reads(&self) -> FactTypeList {
        seq![temperature(), exposure()]
    }

    fn reads(&self) -> (r: Vec<FactType>)
        ensures
            r@ == seq![temperature(), exposure()],
    {
        let mut r: Vec<FactType> = Vec::new();
        r.push(temperature());
        r.push(exposure());
        r
    }

    open spec fn declared_writes(&self) -> FactTypeList {
        seq![illumination()]
    }

    fn writes(&self) -> (r: Vec<FactType>)
        ensures
            r@ == seq![illumination()],
    {
        let mut r: Vec<FactType> = Vec::new();
        r.push(illumination());
        r
    }

    open spec fn declared_cadence(&self) -> Cadence {
        Cadence::EveryTick
    }

    fn cadence(&self) -> (r: Cadence)
        ensures
            r == Cadence::EveryTick,
    {
        Cadence::EveryTick
    }

    open spec fn evaluated(&self, committed: TripleList, ctx: TickContext) -> ProposalList {
        per_region(roster_spec(committed, self.regions@), daylight_for(*self, committed, ctx))
    }

    fn evaluate(&self, view: &dyn CommittedView, ctx: &TickContext) -> (r: Vec<Proposal>)
        ensures
            r@ == per_region(roster_spec(view.committed(), self.regions@), daylight_for(*self, view.committed(), *ctx)),
    {
        let sun = wave(ctx.tick(), self.ticks_per_day, self.peak_illumination);
        let regions = roster(view, &self.regions);
        let ghost f = daylight_for(*self, view.committed(), *ctx);
        let mut out: Vec<Proposal> = Vec::new();
        let mut i: usize = 0;
        while i < regions.len()
            invariant
                i <= regions.len(),
                f == daylight_for(*self, view.committed(), *ctx),
                regions@ == roster_spec(view.committed(), self.regions@),
                out@ == per_region(regions@.take(i as int), f),
                sun == wave_spec(ctx.tick, self.ticks_per_day, self.peak_illumination),
            decreases regions.len() - i,
        {
            let region = regions[i];
            let ghost before = out@;
            let exposure = exposure_of(view, region);
            out.push(
                Proposal::new(
                    self.id(),
                    FactKey::new(region, illumination()),
                    ctx.basis_tick(),
                    Change::Assign(Value::Int(attenuate(sun, exposure))),
                    Cause::new("solar_position"),
                ),
            );
            assert(regions@.take(i + 1).drop_last() =~= regions@.take(i as int));
            assert(regions@.take(i + 1).last() == region);
            assert(out@ =~= before + f(region));
            i = i + 1;
        }
        assert(regions@.take(i as int) =~= regions@);
        out
    }
}

// ---- humidity and pressure -------------------------------------------------------------

/// A field's drift toward `target` from `current`, by `divisor` (at least one) ticks, plus
/// an attenuated perturbation, saturating.
pub open spec fn drift_spec(target: i64, current: i64, divisor: i64, perturbation: i64) -> i64 {
    clamp64(trunc_div(target - current, max_i64(divisor, 1) as int) + perturbation)
}

/// A field's drift toward `target` from `current`, by `divisor` (at least one) ticks, plus
/// an attenuated perturbation, saturating.
fn drift(target: i64, current: i64, divisor: i64, perturbation: i64) -> (r: i64)
    ensures
        r == drift_spec(target, current, divisor, perturbation),
{
    let d: i64 = if divisor >= 1 {
        divisor
    } else {
        1
    };
    let q = div_toward_zero((target as i128) - (current as i128), d as i128);
    saturate64(q + (perturbation as i128))
}

/// Weather driving humidity: it drifts toward a baseline while stochastic weather perturbs
/// it, drawn from the kernel-issued substream, for every region. Reads each region's own
/// committed value to compute the drift, and creates the fact at the baseline the first time.
pub struct Precipitation {
    /// The regions configured to be simulated (the roster adds every temperature bearer).
    pub regions: Vec<EntityId>,
    /// The humidity the weather drifts toward.
    pub baseline: i64,
    /// Peak perturbation each tick.
    pub swing: i64,
    /// How slowly humidity returns to the baseline (larger is slower).
    pub drying_divisor: i64,
}

/// What precipitation proposes for each region: the fact at its baseline where none is
/// committed, else the drift plus weather; nothing where the committed value is no integer.
pub open spec fn precipitation_for(sys: Precipitation, s: Seq<Triple>, ctx: TickContext) -> spec_fn(
    EntityId,
) -> Seq<Proposal> {
    |region: EntityId|
        {
            let key = FactKey { entity: region, fact_type: humidity() };
            match first_at(s, (region.0, type_bytes(humidity()))) {
                None => seq![
                    proposed(
                        "physical.precipitation",
                        key,
                        ctx.tick,
                        Change::Create(Value::Int(sys.baseline)),
                        "precipitation",
                    ),
                ],
                Some(f) => match f.value {
                    Value::Int(h) => seq![
                        proposed(
                            "physical.precipitation",
                            key,
                            ctx.tick,
                            Change::Delta(
                                drift_spec(
                                    sys.baseline,
                                    h,
                                    sys.drying_divisor,
                                    attenuate_spec(
                                        noise_spec(ctx, region, sys.swing),
                                        exposure_spec(s, region),
                                    ),
                                ),
                            ),
                            "precipitation",
                        ),
                    ],
                    _ => Seq::empty(),
                },
            }
        }
}

impl Precipitation {
    /// Pull each region's humidity toward `baseline` (over `drying_divisor` ticks) with a
    /// per-tick weather perturbation of up to +/- `swing`.
    pub fn new(regions: Vec<EntityId>, baseline: i64, swing: i64, drying_divisor: i64) -> (r: Precipitation)
        ensures
            r == (Precipitation { regions, baseline, swing, drying_divisor }),
    {
        Precipitation { regions, baseline, swing, drying_divisor }
    }
}

impl System for Precipitation {
    open spec fn declared_id(&self) -> SystemId {
        SystemId("physical.precipitation")
    }

    fn id(&self) -> (r: SystemId)
        ensures
            r == SystemId("physical.precipitation"),
    {
        SystemId::new("physical.precipitation")
    }

    open spec fn declared_reads(&self) -> FactTypeList {
        seq![temperature(), humidity(), exposure()]
    }

    fn reads(&self) -> (r: Vec<FactType>)
        ensures
            r@ == seq![temperature(), humidity(), exposure()],
    {
        let mut r: Vec<FactType> = Vec::new();
        r.push(temperature());
        r.push(humidity());
        r.push(exposure());
        r
    }

    open spec fn declared_writes(&self) -> FactTypeList {
        seq![humidity()]
    }

    fn writes(&self) -> (r: Vec<FactType>)
        ensures
            r@ == seq![humidity()],
    {
        let mut r: Vec<FactType> = Vec::new();
        r.push(humidity());
        r
    }

    open spec fn declared_cadence(&self) -> Cadence {
        Cadence::EveryTick
    }

    fn cadence(&self) -> (r: Cadence)
        ensures
            r == Cadence::EveryTick,
    {
        Cadence::EveryTick
    }

    open spec fn evaluated(&self, committed: TripleList, ctx: TickContext) -> ProposalList {
        per_region(roster_spec(committed, self.regions@), precipitation_for(*self, committed, ctx))
    }

    fn evaluate(&self, view: &dyn CommittedView, ctx: &TickContext) -> (r: Vec<Proposal>)
        ensures
            r@ == per_region(roster_spec(view.committed(), self.regions@), precipitation_for(*self, view.committed(), *ctx)),
    {
        let regions = roster(view, &self.regions);
        let ghost f = precipitation_for(*self, view.committed(), *ctx);
        let mut out: Vec<Proposal> = Vec::new();
        let mut i: usize = 0;
        while i < regions.len()
            invariant
                i <= regions.len(),
                f == precipitation_for(*self, view.committed(), *ctx),
                regions@ == roster_spec(view.committed(), self.regions@),
                out@ == per_region(regions@.take(i as int), f),
            decreases regions.len() - i,
        {
            let region = regions[i];
            let ghost before = out@;
            let key = FactKey::new(region, humidity());
            match view.read(key) {
                None => {
                    // Establish humidity at its baseline the first time this runs.
                    out.push(
                        Proposal::new(
                            self.id(),
                            key,
                            ctx.basis_tick(),
                            Change::Create(Value::Int(self.baseline)),
                            Cause::new("precipitation"),
                        ),
                    );
                },
                Some(fact) => match fact.value {
                    Value::Int(current) => {
                        let weather = noise(ctx, region, self.swing);
                        let exposure = exposure_of(view, region);
                        let change = drift(
                            self.baseline,
                            current,
                            self.drying_divisor,
                            attenuate(weather, exposure),
                        );
                        out.push(
                            Proposal::new(
                                self.id(),
                                key,
                                ctx.basis_tick(),
                                Change::Delta(change),
                                Cause::new("precipitation"),
                            ),
                        );
                    },
                    _ => {},
                },
            }
            assert(regions@.take(i + 1).drop_last() =~= regions@.take(i as int));
            assert(regions@.take(i + 1).last() == region);
            assert(out@ =~= before + f(region));
            i = i + 1;
        }
        assert(regions@.take(i as int) =~= regions@);
        out
    }
}

/// Atmospheric pressure dynamics: pressure settles toward a baseline that falls with
/// elevation, perturbed by stochastic weather, for every region. Reads each region's
/// elevation and its own pressure; creates the fact at the elevation baseline the first time.
pub struct PressureSystem {
    /// The regions configured to be simulated (the roster adds every temperature bearer).
    pub regions: Vec<EntityId>,
    /// Baseline pressure at the datum, in decapascals.
    pub sea_level: i64,
    /// Decapascals dropped per metre of elevation.
    pub elevation_factor: i64,
    /// Peak perturbation each tick.
    pub weather_swing: i64,
    /// How slowly pressure returns to its baseline (larger is slower).
    pub settle_divisor: i64,
}

/// The baseline pressure at an elevation (centimetres): sea level less the drop per whole
/// metre climbed, never below zero.
pub open spec fn pressure_baseline(sys: PressureSystem, elevation_cm: i64) -> i64 {
    max_i64(clamp64(sys.sea_level - trunc_div(elevation_cm as int, 100) * sys.elevation_factor), 0)
}

/// Pressure drops by the elevation factor per whole metre climbed: within the first metre
/// above the datum the baseline is sea level, and climbing one more metre (100 cm) lowers it
/// by exactly the factor, while it stays above zero.
pub proof fn law_pressure_drops_per_metre(sys: PressureSystem, e: i64)
    requires
        0 <= e,
        e + 100 <= i64::MAX,
        0 <= sys.elevation_factor,
        (e / 100 + 1) * sys.elevation_factor <= sys.sea_level,
    ensures
        e < 100 ==> pressure_baseline(sys, e) == sys.sea_level,
        pressure_baseline(sys, (e + 100) as i64) == pressure_baseline(sys, e) - sys.elevation_factor,
{
    let k = e / 100;
    let f = sys.elevation_factor;
    assert(trunc_div(e as int, 100) == k);
    assert(trunc_div((e + 100) as int, 100) == k + 1);
    assert(0 <= k * f <= (k + 1) * f) by (nonlinear_arith)
        requires
            0 <= k,
            0 <= f,
    ;
    assert((k + 1) * f == k * f + f) by (nonlinear_arith);
    if e < 100 {
        assert(k == 0);
        assert(k * f == 0) by (nonlinear_arith)
            requires
                k == 0,
        ;
        assert(sys.sea_level >= 0);
        assert(clamp64(sys.sea_level - k * f) == sys.sea_level);
    }
}

/// The baseline is a pressure, never below zero, and it depends on the whole metres climbed
/// alone: two elevations in the same metre share a baseline.
pub proof fn law_pressure_baseline_by_whole_metres(sys: PressureSystem, e: i64, f: i64)
    requires
        0 <= e,
        0 <= f,
        e / 100 == f / 100,
    ensures
        pressure_baseline(sys, e) >= 0,
        pressure_baseline(sys, e) == pressure_baseline(sys, f),
{
    assert(trunc_div(e as int, 100) == e / 100);
    assert(trunc_div(f as int, 100) == f / 100);
}

/// What the pressure system proposes for each region.
pub open spec fn pressure_for(sys: PressureSystem, s: Seq<Triple>, ctx: TickContext) -> spec_fn(
    EntityId,
) -> Seq<Proposal> {
    |region: EntityId|
        {
            let elev = match property_spec(s, region, elevation()) {
                Some(e) => e,
                None => 0,
            };
            let base = pressure_baseline(sys, elev);
            let key = FactKey { entity: region, fact_type: pressure() };
            match first_at(s, (region.0, type_bytes(pressure()))) {
                None => seq![
                    proposed(
                        "physical.pressure",
                        key,
                        ctx.tick,
                        Change::Create(Value::Int(base)),
                        "pressure_baseline",
                    ),
                ],
                Some(f) => match f.value {
                    Value::Int(current) => seq![
                        proposed(
                            "physical.pressure",
                            key,
                            ctx.tick,
                            Change::Delta(
                                drift_spec(
                                    base,
                                    current,
                                    sys.settle_divisor,
                                    attenuate_spec(
                                        noise_spec(ctx, region, sys.weather_swing),
                                        exposure_spec(s, region),
                                    ),
                                ),
                            ),
                            "pressure_weather",
                        ),
                    ],
                    _ => Seq::empty(),
                },
            }
        }
}

impl PressureSystem {
    /// Configure pressure. `sea_level` is baseline pressure at the datum; `elevation_factor`
    /// is decapascals dropped per metre of elevation; `weather_swing` and `settle_divisor`
    /// govern the stochastic perturbation and the drift back to baseline (world-package
    /// rules).
    pub fn new(
        regions: Vec<EntityId>,
        sea_level: i64,
        elevation_factor: i64,
        weather_swing: i64,
        settle_divisor: i64,
    ) -> (r: PressureSystem)
        ensures
            r == (PressureSystem { regions, sea_level, elevation_factor, weather_swing, settle_divisor }),
    {
        PressureSystem { regions, sea_level, elevation_factor, weather_swing, settle_divisor }
    }

    /// The baseline pressure at an elevation stored in centimetres: pressure drops per metre
    /// climbed.
    fn baseline(&self, elevation_cm: i64) -> (r: i64)
        ensures
            r == pressure_baseline(*self, elevation_cm),
    {
        let metres: i128 = div_toward_zero(elevation_cm as i128, 100);
        assert(-0x0200_0000_0000_0000 <= metres <= 0x0200_0000_0000_0000);
        assert(-0x0100_0000_0000_0000_0000_0000_0000_0000 <= metres * (self.elevation_factor as i128)
            <= 0x0100_0000_0000_0000_0000_0000_0000_0000) by (nonlinear_arith)
            requires
                -0x0200_0000_0000_0000 <= metres <= 0x0200_0000_0000_0000,
                i64::MIN <= self.elevation_factor <= i64::MAX,
        ;
        let b = saturate64((self.sea_level as i128) - metres * (self.elevation_factor as i128));
        if b >= 0 {
            b
        } else {
            0
        }
    }
}

impl System for PressureSystem {
    open spec fn declared_id(&self) -> SystemId {
        SystemId("physical.pressure")
    }

    fn id(&self) -> (r: SystemId)
        ensures
            r == SystemId("physical.pressure"),
    {
        SystemId::new("physical.pressure")
    }

    open spec fn declared_reads(&self) -> FactTypeList {
        seq![temperature(), pressure(), elevation(), exposure()]
    }

    fn reads(&self) -> (r: Vec<FactType>)
        ensures
            r@ == seq![temperature(), pressure(), elevation(), exposure()],
    {
        let mut r: Vec<FactType> = Vec::new();
        r.push(temperature());
        r.push(pressure());
        r.push(elevation());
        r.push(exposure());
        r
    }

    open spec fn declared_writes(&self) -> FactTypeList {
        seq![pressure()]
    }

    fn writes(&self) -> (r: Vec<FactType>)
        ensures
            r@ == seq![pressure()],
    {
        let mut r: Vec<FactType> = Vec::new();
        r.push(pressure());
        r
    }

    open spec fn declared_cadence(&self) -> Cadence {
        Cadence::EveryTick
    }

    fn cadence(&self) -> (r: Cadence)
        ensures
            r == Cadence::EveryTick,
    {
        Cadence::EveryTick
    }

    open spec fn evaluated(&self, committed: TripleList, ctx: TickContext) -> ProposalList {
        per_region(roster_spec(committed, self.regions@), pressure_for(*self, committed, ctx))
    }

    fn evaluate(&self, view: &dyn CommittedView, ctx: &TickContext) -> (r: Vec<Proposal>)
        ensures
            r@ == per_region(roster_spec(view.committed(), self.regions@), pressure_for(*self, view.committed(), *ctx)),
    {
        let regions = roster(view, &self.regions);
        let ghost f = pressure_for(*self, view.committed(), *ctx);
        let mut out: Vec<Proposal> = Vec::new();
        let mut i: usize = 0;
        while i < regions.len()
            invariant
                i <= regions.len(),
                f == pressure_for(*self, view.committed(), *ctx),
                regions@ == roster_spec(view.committed(), self.regions@),
                out@ == per_region(regions@.take(i as int), f),
            decreases regions.len() - i,
        {
            let region = regions[i];
            let ghost before = out@;
            let elevation_cm = match property(view, region, elevation()) {
                Some(e) => e,
                None => 0,
            };
            let base = self.baseline(elevation_cm);
            let key = FactKey::new(region, pressure());
            match view.read(key) {
                None => {
                    out.push(
                        Proposal::new(
                            self.id(),
                            key,
                            ctx.basis_tick(),
                            Change::Create(Value::Int(base)),
                            Cause::new("pressure_baseline"),
                        ),
                    );
                },
                Some(fact) => match fact.value {
                    Value::Int(current) => {
                        let weather = noise(ctx, region, self.weather_swing);
                        let exposure = exposure_of(view, region);
                        let change = drift(
                            base,
                            current,
                            self.settle_divisor,
                            attenuate(weather, exposure),
                        );
                        out.push(
                            Proposal::new(
                                self.id(),
                                key,
                                ctx.basis_tick(),
                                Change::Delta(change),
                                Cause::new("pressure_weather"),
                            ),
                        );
                    },
                    _ => {},
                },
            }
            assert(regions@.take(i + 1).drop_last() =~= regions@.take(i as int));
            assert(regions@.take(i + 1).last() == region);
            assert(out@ =~= before + f(region));
            i = i + 1;
        }
        assert(regions@.take(i as int) =~= regions@);
        out
    }
}

// ---- wind ------------------------------------------------------------------------------

/// The neighbour with the lowest committed pressure among `ns` (ties to the smallest id),
/// with that pressure; neighbours without an integer pressure are passed over.
pub open spec fn lowest_neighbour(s: Seq<Triple>, ns: Seq<EntityId>) -> Option<(EntityId, i64)>
    decreases ns.len(),
{
    if ns.len() == 0 {
        None
    } else {
        let b = lowest_neighbour(s, ns.drop_last());
        let n = ns.last();
        match property_spec(s, n, pressure()) {
            None => b,
            Some(np) => match b {
                None => Some((n, np)),
                Some((bn, bp)) => if np < bp || (np == bp && n.0 < bn.0) {
                    Some((n, np))
                } else {
                    b
                },
            },
        }
    }
}

/// Wind seeks the lowest pressure: the neighbour it blows toward is one of the neighbours,
/// carries the pressure reported, and no neighbour has a lower pressure; with no neighbour
/// reporting a pressure there is no target. Its speed is never negative.
pub proof fn law_wind_seeks_lowest_pressure(s: Seq<Triple>, ns: Seq<EntityId>, drop: int, divisor: i64, max_wind: i64)
    ensures
        match lowest_neighbour(s, ns) {
            Some((n, np)) => ns.contains(n) && property_spec(s, n, pressure()) == Some(np)
                && forall|i: int|
                0 <= i < ns.len() ==> (property_spec(s, #[trigger] ns[i], pressure()) matches Some(p)
                    ==> np <= p),
            None => forall|i: int|
                0 <= i < ns.len() ==> property_spec(s, #[trigger] ns[i], pressure()) is None,
        },
        wind_speed_spec(drop, divisor, max_wind) >= 0,
    decreases ns.len(),
{
    if ns.len() > 0 {
        let rest = ns.drop_last();
        law_wind_seeks_lowest_pressure(s, rest, drop, divisor, max_wind);
        assert forall|i: int| 0 <= i < rest.len() implies rest[i] == ns[i] by {}
        if let Some((n, np)) = lowest_neighbour(s, ns) {
            if n == ns.last() {
                assert(ns[ns.len() - 1] == n);
            } else {
                let k = choose|k: int| 0 <= k < rest.len() && rest[k] == n;
                assert(ns[k] == n);
            }
        }
    }
}

/// The wind speed a pressure drop produces: the drop over the gradient divisor (at least
/// one), clamped into `0..=max_wind` (a negative ceiling reads as zero).
pub open spec fn wind_speed_spec(drop: int, divisor: i64, max_wind: i64) -> i64 {
    let q = trunc_div(drop, max_i64(divisor, 1) as int);
    let top = max_i64(max_wind, 0);
    if q > top {
        top
    } else if q < 0 {
        0
    } else {
        q as i64
    }
}

/// Wind as the consequence of pressure gradients across the topology, for every region.
/// Reads each region's pressure and every neighbour's pressure (via adjacency), then blows
/// toward the lowest-pressure neighbour with a speed proportional to the gradient. Calm
/// (speed zero, no direction) when no neighbour is lower. Wind therefore lags pressure by one
/// tick, as effects chain across commits.
pub struct WindSystem {
    /// The regions configured to be simulated (the roster adds every temperature bearer).
    pub regions: Vec<EntityId>,
    /// Pressure difference per unit of speed (larger is gentler).
    pub gradient_divisor: i64,
    /// The ceiling on wind speed.
    pub max_wind: i64,
}

/// What the wind system proposes for each region: nothing without a committed pressure;
/// toward the lowest neighbour when it is lower; otherwise calm.
pub open spec fn wind_for(sys: WindSystem, s: Seq<Triple>, ctx: TickContext) -> spec_fn(
    EntityId,
) -> Seq<Proposal> {
    |region: EntityId|
        {
            let speed_key = FactKey { entity: region, fact_type: wind_speed() };
            let toward_key = FactKey { entity: region, fact_type: wind_toward() };
            match property_spec(s, region, pressure()) {
                None => Seq::empty(),
                Some(mine) => match lowest_neighbour(s, refs_of(s, region, adjacent_to())) {
                    Some((n, np)) if np < mine => seq![
                        proposed(
                            "physical.wind",
                            speed_key,
                            ctx.tick,
                            Change::Assign(
                                Value::Int(wind_speed_spec(mine - np, sys.gradient_divisor, sys.max_wind)),
                            ),
                            "pressure_gradient",
                        ),
                        proposed(
                            "physical.wind",
                            toward_key,
                            ctx.tick,
                            Change::Assign(Value::Entity(n)),
                            "pressure_gradient",
                        ),
                    ],
                    _ => seq![
                        proposed("physical.wind", speed_key, ctx.tick, Change::Assign(Value::Int(0)), "calm"),
                        proposed("physical.wind", toward_key, ctx.tick, Change::Tombstone, "calm"),
                    ],
                },
            }
        }
}

impl WindSystem {
    /// Configure wind. `gradient_divisor` scales speed per unit pressure difference (larger
    /// is gentler); `max_wind` clamps the speed (world-package rules).
    pub fn new(regions: Vec<EntityId>, gradient_divisor: i64, max_wind: i64) -> (r: WindSystem)
        ensures
            r == (WindSystem { regions, gradient_divisor, max_wind }),
    {
        WindSystem { regions, gradient_divisor, max_wind }
    }

    /// The neighbour of `region` with the lowest committed pressure.
    fn lowest<V: CommittedView + ?Sized>(&self, view: &V, region: EntityId) -> (r: Option<(EntityId, i64)>)
        ensures
            r == lowest_neighbour(view.committed(), refs_of(view.committed(), region, adjacent_to())),
    {
        let facts = view.read_all(FactKey::new(region, adjacent_to()));
        let ns = entities_in(facts.as_slice());
        let mut best: Option<(EntityId, i64)> = None;
        let mut j: usize = 0;
        while j < ns.len()
            invariant
                j <= ns.len(),
                ns@ == refs_of(view.committed(), region, adjacent_to()),
                best == lowest_neighbour(view.committed(), ns@.take(j as int)),
            decreases ns.len() - j,
        {
            assert(ns@.take(j + 1).drop_last() =~= ns@.take(j as int));
            assert(ns@.take(j + 1).last() == ns@[j as int]);
            let n = ns[j];
            match property(view, n, pressure()) {
                Some(np) => {
                    let better = match best {
                        None => true,
                        Some((bn, bp)) => np < bp || (np == bp && n.0 < bn.0),
                    };
                    if better {
                        best = Some((n, np));
                    }
                },
                None => {},
            }
            j = j + 1;
        }
        assert(ns@.take(j as int) =~= ns@);
        best
    }
}

impl System for WindSystem {
    open spec fn declared_id(&self) -> SystemId {
        SystemId("physical.wind")
    }

    fn id(&self) -> (r: SystemId)
        ensures
            r == SystemId("physical.wind"),
    {
        SystemId::new("physical.wind")
    }

    open spec fn declared_reads(&self) -> FactTypeList {
        seq![temperature(), adjacent_to(), pressure()]
    }

    fn reads(&self) -> (r: Vec<FactType>)
        ensures
            r@ == seq![temperature(), adjacent_to(), pressure()],
    {
        let mut r: Vec<FactType> = Vec::new();
        r.push(temperature());
        r.push(adjacent_to());
        r.push(pressure());
        r
    }

    open spec fn declared_writes(&self) -> FactTypeList {
        seq![wind_speed(), wind_toward()]
    }

    fn writes(&self) -> (r: Vec<FactType>)
        ensures
            r@ == seq![wind_speed(), wind_toward()],
    {
        let mut r: Vec<FactType> = Vec::new();
        r.push(wind_speed());
        r.push(wind_toward());
        r
    }

    open spec fn declared_cadence(&self) -> Cadence {
        Cadence::EveryTick
    }

    fn cadence(&self) -> (r: Cadence)
        ensures
            r == Cadence::EveryTick,
    {
        Cadence::EveryTick
    }

    open spec fn evaluated(&self, committed: TripleList, ctx: TickContext) -> ProposalList {
        per_region(roster_spec(committed, self.regions@), wind_for(*self, committed, ctx))
    }

    fn evaluate(&self, view: &dyn CommittedView, ctx: &TickContext) -> (r: Vec<Proposal>)
        ensures
            r@ == per_region(roster_spec(view.committed(), self.regions@), wind_for(*self, view.committed(), *ctx)),
    {
        let regions = roster(view, &self.regions);
        let ghost f = wind_for(*self, view.committed(), *ctx);
        let mut out: Vec<Proposal> = Vec::new();
        let mut i: usize = 0;
        while i < regions.len()
            invariant
                i <= regions.len(),
                f == wind_for(*self, view.committed(), *ctx),
                regions@ == roster_spec(view.committed(), self.regions@),
                out@ == per_region(regions@.take(i as int), f),
            decreases regions.len() - i,
        {
            let region = regions[i];
            let ghost before = out@;
            match property(view, region, pressure()) {
                // No committed pressure yet (e.g. the first tick): calm, and nothing to write.
                None => {},
                Some(mine) => {
                    let speed_key = FactKey::new(region, wind_speed());
                    let toward_key = FactKey::new(region, wind_toward());
                    let best = self.lowest(view, region);
                    let gradient = match best {
                        Some((n, np)) => if np < mine {
                            Some((n, np))
                        } else {
                            None
                        },
                        None => None,
                    };
                    match gradient {
                        Some((n, np)) => {
                            let d: i64 = if self.gradient_divisor >= 1 {
                                self.gradient_divisor
                            } else {
                                1
                            };
                            let q = div_toward_zero((mine as i128) - (np as i128), d as i128);
                            let top: i64 = if self.max_wind >= 0 {
                                self.max_wind
                            } else {
                                0
                            };
                            let speed: i64 = if q > top as i128 {
                                top
                            } else if q < 0 {
                                0
                            } else {
                                q as i64
                            };
                            out.push(
                                Proposal::new(
                                    self.id(),
                                    speed_key,
                                    ctx.basis_tick(),
                                    Change::Assign(Value::Int(speed)),
                                    Cause::new("pressure_gradient"),
                                ),
                            );
                            out.push(
                                Proposal::new(
                                    self.id(),
                                    toward_key,
                                    ctx.basis_tick(),
                                    Change::Assign(Value::Entity(n)),
                                    Cause::new("pressure_gradient"),
                                ),
                            );
                        },
                        None => {
                            out.push(
                                Proposal::new(
                                    self.id(),
                                    speed_key,
                                    ctx.basis_tick(),
                                    Change::Assign(Value::Int(0)),
                                    Cause::new("calm"),
                                ),
                            );
                            out.push(
                                Proposal::new(
                                    self.id(),
                                    toward_key,
                                    ctx.basis_tick(),
                                    Change::Tombstone,
                                    Cause::new("calm"),
                                ),
                            );
                        },
                    }
                },
            }
            assert(regions@.take(i + 1).drop_last() =~= regions@.take(i as int));
            assert(regions@.take(i + 1).last() == region);
            assert(out@ =~= before + f(region));
            i = i + 1;
        }
        assert(regions@.take(i as int) =~= regions@);
        out
    }
}

// ---- portals -----------------------------------------------------------------------------

/// The height of `here` above the ground after up to `fuel` more steps: the running `total`
/// plus the local heights from `here` up through its containers (excluding the root frame,
/// whose origin is the ground datum), saturating.
pub open spec fn height_from(s: Seq<Triple>, here: EntityId, total: i64, fuel: nat) -> i64
    decreases fuel,
{
    if fuel == 0 {
        total
    } else {
        match parent_of(s, here, contained_in()) {
            Some(p) => height_from(
                s,
                p,
                crate::arith::sat_add(total, axis_value(s, here, position_z())),
                (fuel - 1) as nat,
            ),
            None => total,
        }
    }
}

/// The exact sum of the local heights of the first `k` entities of `path`.
pub open spec fn z_prefix(s: Seq<Triple>, path: Seq<EntityId>, k: int) -> int
    decreases k,
{
    if k <= 0 {
        0
    } else {
        z_prefix(s, path, k - 1) + axis_value(s, path[k - 1], position_z())
    }
}

/// Walking up a containment walk from its `i`-th entity, with the heights below it already
/// summed, reaches the sum over every entity below the root.
proof fn lemma_height_walk(s: Seq<Triple>, path: Seq<EntityId>, i: int, fuel: nat)
    requires
        is_ancestry(s, path[0], contained_in(), path),
        parent_of(s, path.last(), contained_in()) is None,
        0 <= i < path.len(),
        fuel >= path.len() - 1 - i,
        forall|k: int| 0 <= k <= path.len() ==> i64::MIN <= #[trigger] z_prefix(s, path, k) <= i64::MAX,
    ensures
        height_from(s, path[i], z_prefix(s, path, i) as i64, fuel) == z_prefix(s, path, path.len() - 1),
    decreases path.len() - i,
{
    if i < path.len() - 1 {
        assert(parent_of(s, path[i], contained_in()) == Some(path[i + 1]));
        assert(i64::MIN <= z_prefix(s, path, i + 1) <= i64::MAX);
        assert(i64::MIN <= z_prefix(s, path, i) <= i64::MAX);
        assert(crate::arith::sat_add(z_prefix(s, path, i) as i64, axis_value(s, path[i], position_z()))
            == z_prefix(s, path, i + 1));
        lemma_height_walk(s, path, i + 1, (fuel - 1) as nat);
    } else {
        assert(i64::MIN <= z_prefix(s, path, i) <= i64::MAX);
    }
}

/// Height adds up along containment: for an entity whose containment walk ends at a root,
/// its height is the sum of the local heights of every entity on the walk below the root (the
/// root frame is the ground datum), so each container's local height counts; this holds when
/// the walk fits the step budget and no partial sum overflows.
pub proof fn law_height_sums_the_containment_walk(s: Seq<Triple>, e: EntityId)
    requires
        rooted(s, e, contained_in()),
        ancestry_path(s, e, contained_in()).len() <= height_steps() + 1,
        forall|k: int|
            0 <= k <= ancestry_path(s, e, contained_in()).len() ==> i64::MIN <= #[trigger] z_prefix(
                s,
                ancestry_path(s, e, contained_in()),
                k,
            ) <= i64::MAX,
    ensures
        height_from(s, e, 0, height_steps()) == z_prefix(
            s,
            ancestry_path(s, e, contained_in()),
            ancestry_path(s, e, contained_in()).len() - 1,
        ),
{
    let path = ancestry_path(s, e, contained_in());
    lemma_rooted_path(s, e, contained_in());
    assert(z_prefix(s, path, 0) == 0);
    lemma_height_walk(s, path, 0, height_steps());
}

/// The most containment steps a height walk takes: enough for any sane world, and a guard
/// against a malformed cycle.
pub open spec fn height_steps() -> nat {
    1025
}

/// The height of `entity` above the ground, in centimetres: the sum of local heights from
/// the entity up through its containers (excluding the root frame, whose origin is the
/// ground datum). A window on a stacked upper floor is high; a ground-floor door is at zero.
fn absolute_height<V: CommittedView + ?Sized>(view: &V, entity: EntityId) -> (r: i64)
    ensures
        r == height_from(view.committed(), entity, 0, height_steps()),
{
    let mut total: i64 = 0;
    let mut here = entity;
    let mut guard: u32 = 0;
    loop
        invariant_except_break
            guard <= 1024,
            height_from(view.committed(), entity, 0, height_steps()) == height_from(
                view.committed(),
                here,
                total,
                (height_steps() - guard) as nat,
            ),
        ensures
            height_from(view.committed(), entity, 0, height_steps()) == total,
        decreases 1025 - guard,
    {
        match view.read(FactKey::new(here, contained_in())) {
            Some(f) => match f.value {
                Value::Entity(parent) => {
                    let z = match view.read(FactKey::new(here, position_z())) {
                        Some(zf) => match zf.value {
                            Value::Int(n) => n,
                            _ => 0,
                        },
                        None => 0,
                    };
                    total = crate::arith::saturating_add(total, z);
                    here = parent;
                },
                _ => {
                    break;
                },
            },
            None => {
                break;
            },
        }
        guard = guard + 1;
        if guard > 1024 {
            assert(height_from(view.committed(), here, total, 0) == total);
            break;
        }
    }
    total
}

/// The effective danger of crossing `portal`: a world-pinned danger if there is one, else
/// the danger of the fall from its height, clamped into `0..=MAX_DANGER`.
pub open spec fn danger_spec(sys: PortalDanger, s: Seq<Triple>, portal: EntityId) -> i64 {
    match property_spec(s, portal, portal_danger_override()) {
        Some(pinned) => crate::arith::clamp_spec(pinned, 0, MAX_DANGER),
        None => {
            let height = max_i64(height_from(s, portal, 0, height_steps()), 0);
            crate::arith::clamp_spec(
                trunc_div(clamp64(height * sys.fall_danger_per_meter) as int, 100) as i64,
                0,
                MAX_DANGER,
            )
        },
    }
}

/// A portal's danger is the fall from it: with no pinned danger, a portal at or below the
/// ground is harmless and one `h` centimetres up carries `h / 100` metres of fall times the
/// danger per metre (below the ceiling); a pinned danger within bounds is echoed as it is.
pub proof fn law_danger_is_the_fall(sys: PortalDanger, s: Seq<Triple>, portal: EntityId)
    ensures
        ({
            let h = height_from(s, portal, 0, height_steps());
            let f = sys.fall_danger_per_meter;
            &&& property_spec(s, portal, portal_danger_override()) is None && 0 <= f && h <= 0
                ==> danger_spec(sys, s, portal) == 0
            &&& property_spec(s, portal, portal_danger_override()) is None && 0 <= f && 0 <= h
                && h * f <= 100 * MAX_DANGER ==> danger_spec(sys, s, portal) == (h * f) / 100
        }),
        match property_spec(s, portal, portal_danger_override()) {
            Some(p) => 0 <= p <= MAX_DANGER ==> danger_spec(sys, s, portal) == p,
            None => true,
        },
{
    let h = height_from(s, portal, 0, height_steps());
    let f = sys.fall_danger_per_meter;
    if property_spec(s, portal, portal_danger_override()) is None && 0 <= f {
        if h <= 0 {
            assert(max_i64(h, 0) == 0);
            assert(0 * f == 0);
        }
        if 0 <= h && h * f <= 100 * MAX_DANGER {
            assert(max_i64(h, 0) == h);
            assert(0 <= h * f) by (nonlinear_arith)
                requires
                    0 <= h,
                    0 <= f,
            ;
            assert(clamp64(h * f) == h * f);
            assert(trunc_div(h * f, 100) == (h * f) / 100);
            assert((h * f) / 100 <= MAX_DANGER);
        }
    }
}

/// Writes each portal's effective danger. If the world pinned a fixed danger the system
/// echoes it; otherwise it derives danger from the portal's height above the ground (a
/// fall), leaving room for weather to raise it later. Enumerates every region that hosts
/// portals, so it needs no separate portal list.
pub struct PortalDanger {
    /// Danger points per metre of height.
    pub fall_danger_per_meter: i64,
}

/// What the danger system proposes for the portals of each hosting region.
pub open spec fn danger_for(sys: PortalDanger, s: Seq<Triple>, ctx: TickContext) -> spec_fn(
    EntityId,
) -> Seq<Proposal> {
    |region: EntityId|
        per_region(
            refs_of(s, region, has_portal()),
            |portal: EntityId|
                seq![
                    proposed(
                        "physical.portal_danger",
                        FactKey { entity: portal, fact_type: portal_danger() },
                        ctx.tick,
                        Change::Assign(Value::Int(danger_spec(sys, s, portal))),
                        "portal_danger",
                    ),
                ],
        )
}

/// What the danger system proposes for one portal.
pub open spec fn portal_for(sys: PortalDanger, s: Seq<Triple>, ctx: TickContext) -> spec_fn(
    EntityId,
) -> Seq<Proposal> {
    |portal: EntityId|
        seq![
            proposed(
                "physical.portal_danger",
                FactKey { entity: portal, fact_type: portal_danger() },
                ctx.tick,
                Change::Assign(Value::Int(danger_spec(sys, s, portal))),
                "portal_danger",
            ),
        ]
}

impl PortalDanger {
    /// Configure with the world's fall-danger rate (danger points per metre of height).
    pub fn new(fall_danger_per_meter: i64) -> (r: PortalDanger)
        ensures
            r == (PortalDanger { fall_danger_per_meter }),
    {
        PortalDanger { fall_danger_per_meter }
    }

    /// The effective danger of crossing `portal`.
    fn danger<V: CommittedView + ?Sized>(&self, view: &V, portal: EntityId) -> (r: i64)
        ensures
            r == danger_spec(*self, view.committed(), portal),
    {
        match property(view, portal, portal_danger_override()) {
            // World-defined: pinned regardless of height or weather.
            Some(pinned) => crate::arith::clamp(pinned, 0, MAX_DANGER),
            // Derived: the danger of the fall from this portal's height.
            None => {
                let h = absolute_height(view, portal);
                let height: i64 = if h >= 0 {
                    h
                } else {
                    0
                };
                assert((height as int) * (self.fall_danger_per_meter as int)
                    <= 0x4000_0000_0000_0000_0000_0000_0000_0000) by (nonlinear_arith)
                    requires
                        0 <= height <= i64::MAX,
                        i64::MIN <= self.fall_danger_per_meter <= i64::MAX,
                ;
                assert((height as int) * (self.fall_danger_per_meter as int)
                    >= -0x4000_0000_0000_0000_0000_0000_0000_0000) by (nonlinear_arith)
                    requires
                        0 <= height <= i64::MAX,
                        i64::MIN <= self.fall_danger_per_meter <= i64::MAX,
                ;
                let product = saturate64((height as i128) * (self.fall_danger_per_meter as i128));
                let fall = div_toward_zero(product as i128, 100) as i64;
                crate::arith::clamp(fall, 0, MAX_DANGER)
            },
        }
    }
}

impl System for PortalDanger {
    open spec fn declared_id(&self) -> SystemId {
        SystemId("physical.portal_danger")
    }

    fn id(&self) -> (r: SystemId)
        ensures
            r == SystemId("physical.portal_danger"),
    {
        SystemId::new("physical.portal_danger")
    }

    open spec fn declared_reads(&self) -> FactTypeList {
        seq![has_portal(), portal_danger_override(), contained_in(), position_z()]
    }

    fn reads(&self) -> (r: Vec<FactType>)
        ensures
            r@ == seq![has_portal(), portal_danger_override(), contained_in(), position_z()],
    {
        let mut r: Vec<FactType> = Vec::new();
        r.push(has_portal());
        r.push(portal_danger_override());
        r.push(contained_in());
        r.push(position_z());
        r
    }

    open spec fn declared_writes(&self) -> FactTypeList {
        seq![portal_danger()]
    }

    fn writes(&self) -> (r: Vec<FactType>)
        ensures
            r@ == seq![portal_danger()],
    {
        let mut r: Vec<FactType> = Vec::new();
        r.push(portal_danger());
        r
    }

    open spec fn declared_cadence(&self) -> Cadence {
        Cadence::EveryTick
    }

    fn cadence(&self) -> (r: Cadence)
        ensures
            r == Cadence::EveryTick,
    {
        Cadence::EveryTick
    }

    open spec fn evaluated(&self, committed: TripleList, ctx: TickContext) -> ProposalList {
        per_region(
                entities_of_type(committed, type_bytes(has_portal())),
                danger_for(*self, committed, ctx),
            )
    }

    fn evaluate(&self, view: &dyn CommittedView, ctx: &TickContext) -> (r: Vec<Proposal>)
        ensures
            r@ == per_region(
                entities_of_type(view.committed(), type_bytes(has_portal())),
                danger_for(*self, view.committed(), *ctx),
            ),
    {
        // Every region that hosts at least one portal, discovered from committed reality.
        let hosts = view.entities_with(has_portal());
        let ghost f = danger_for(*self, view.committed(), *ctx);
        let ghost g = portal_for(*self, view.committed(), *ctx);
        let mut out: Vec<Proposal> = Vec::new();
        let mut i: usize = 0;
        while i < hosts.len()
            invariant
                i <= hosts.len(),
                f == danger_for(*self, view.committed(), *ctx),
                g == portal_for(*self, view.committed(), *ctx),
                hosts@ == entities_of_type(view.committed(), type_bytes(has_portal())),
                out@ == per_region(hosts@.take(i as int), f),
            decreases hosts.len() - i,
        {
            let region = hosts[i];
            let ghost before = out@;
            let facts = view.read_all(FactKey::new(region, has_portal()));
            let portals = entities_in(facts.as_slice());
            let mut j: usize = 0;
            assert(f(region) == per_region(portals@, g));
            while j < portals.len()
                invariant
                    j <= portals.len(),
                    g == portal_for(*self, view.committed(), *ctx),
                    out@ == before + per_region(portals@.take(j as int), g),
                decreases portals.len() - j,
            {
                let portal = portals[j];
                let danger = self.danger(view, portal);
                out.push(
                    Proposal::new(
                        self.id(),
                        FactKey::new(portal, portal_danger()),
                        ctx.basis_tick(),
                        Change::Assign(Value::Int(danger)),
                        Cause::new("portal_danger"),
                    ),
                );
                assert(portals@.take(j + 1).drop_last() =~= portals@.take(j as int));
                assert(portals@.take(j + 1).last() == portal);
                assert(out@ =~= before + per_region(portals@.take(j + 1), g));
                j = j + 1;
            }
            assert(portals@.take(j as int) =~= portals@);
            assert(hosts@.take(i + 1).drop_last() =~= hosts@.take(i as int));
            assert(hosts@.take(i + 1).last() == region);
            assert(out@ =~= before + f(region));
            i = i + 1;
        }
        assert(hosts@.take(i as int) =~= hosts@);
        out
    }
}

/// The magnitude of an integer.
pub open spec fn magnitude(x: int) -> int {
    if x < 0 {
        -x
    } else {
        x
    }
}

/// Dividing toward zero by `b` shrinks a magnitude of at most `b * m` to at most `m`.
proof fn lemma_trunc_div_bound(a: int, b: int, m: int)
    requires
        b > 0,
        m >= 0,
        magnitude(a) <= b * m,
    ensures
        magnitude(trunc_div(a, b)) <= m,
{
    if a >= 0 {
        assert(a / b <= m) by (nonlinear_arith)
            requires
                0 <= a <= b * m,
                b > 0,
        ;
        assert(a / b >= 0) by (nonlinear_arith)
            requires
                0 <= a,
                b > 0,
        ;
    } else {
        assert((-a) / b <= m) by (nonlinear_arith)
            requires
                0 <= -a <= b * m,
                b > 0,
        ;
        assert((-a) / b >= 0) by (nonlinear_arith)
            requires
                0 <= -a,
                b > 0,
        ;
    }
}

/// Exposure attenuates surface weather and never amplifies it: a sealed space (exposure
/// 0) removes it entirely, any exposure in range leaves at most its magnitude, and full
/// exposure passes it through unchanged (where the scaled value fits in 64 bits).
pub proof fn law_exposure_attenuates(value: i64, exposure: i64)
    requires
        0 <= exposure <= PERCENT_FULL,
    ensures
        attenuate_spec(value, 0) == 0,
        magnitude(attenuate_spec(value, exposure) as int) <= magnitude(value as int),
        magnitude(value as int) * PERCENT_FULL <= i64::MAX ==> attenuate_spec(value, PERCENT_FULL)
            == value,
{
    let v = value as int;
    let e = exposure as int;
    let p = v * e;
    assert(magnitude(p) <= magnitude(v) * PERCENT_FULL) by (nonlinear_arith)
        requires
            p == v * e,
            0 <= e <= 10000,
    {
        if v < 0 {
            assert(magnitude(p) == (-v) * e);
        } else {
            assert(magnitude(p) == v * e);
        }
    }
    let c = clamp64(p);
    assert(magnitude(c as int) <= magnitude(p));
    assert(magnitude(c as int) <= PERCENT_FULL * magnitude(v)) by (nonlinear_arith)
        requires
            magnitude(c as int) <= magnitude(p),
            magnitude(p) <= magnitude(v) * 10000,
    ;
    lemma_trunc_div_bound(c as int, PERCENT_FULL as int, magnitude(v));
    assert(trunc_div(0, PERCENT_FULL as int) == 0);
    if magnitude(v) * PERCENT_FULL <= i64::MAX {
        let q = v * 10000;
        assert(q / 10000 == v && (-q) / 10000 == -v) by (nonlinear_arith)
            requires
                q == v * 10000,
        ;
        assert(clamp64(q) as int == q);
    }
}

/// Thermal mass damps a temperature swing and never amplifies it: the damped swing is at
/// most the undamped one in magnitude, and without a reference or a capacity it is the
/// swing itself.
pub proof fn law_thermal_mass_damps(delta: i64, reference: i64, capacity: i64)
    ensures
        magnitude(damp_spec(delta, reference, capacity) as int) <= magnitude(delta as int),
        reference <= 0 || capacity <= 0 ==> damp_spec(delta, reference, capacity) == delta,
{
    if reference > 0 && capacity > 0 {
        let d = delta as int;
        let r = reference as int;
        let n = d * r;
        let b = r + capacity as int;
        assert(magnitude(n) <= b * magnitude(d)) by (nonlinear_arith)
            requires
                n == d * r,
                0 < r < b,
        {
            if d < 0 {
                assert(magnitude(n) == (-d) * r);
                assert((-d) * r <= (-d) * b);
            } else {
                assert(magnitude(n) == d * r);
                assert(d * r <= d * b);
            }
        }
        lemma_trunc_div_bound(n, b, magnitude(d));
    }
}

} // verus!
