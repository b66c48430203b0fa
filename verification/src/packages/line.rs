//! Reading one line of a world file: the executable counterpart of [`line_entry`], over the
//! bytes of the file and spans into them.

use crate::packages::model::{
    AdjacencySpec, ContainmentSpec, ExposureSpec, MadeOfSpec, MaterialProperty, MaterialSpec,
    OrganismSpec, PortalDangerSpec, PortalSpec, PositionSpec, RegionSpec,
};
use crate::packages::parse::{
    lemma_links_stay_failed, lemma_properties_stay_failed, line_entry, living_entry,
    living_rule_index, made_of_entry, manifest_entry, material_entry, material_links, material_properties, nonempty_trimmed,
    not_a_number, organism_entry, pair_entry, physical_entry, physical_rule_index, portal_entry,
    position_entry, property_named, property_piece, quote, region_entry, uncommented, Entry,
};
use crate::packages::text::{
    find, find_in, i64_of, lemma_split_nonempty, parse_i64, parse_u64, quoted, slice_of, split,
    split_spans, trim, trim_span, u64_of,
};
use crate::packages::version::{engine_in, engine_spec, version_in, version_spec, EngineReq, Version};
use vstd::prelude::*;
use vstd::string::StringSliceAdditionalSpecFns;

verus! {

/// What one line of a world file declares, as the values the parser keeps.
pub enum Item {
    /// Nothing: a blank or comment-only line.
    Skip,
    /// A section header, with its trimmed name.
    Header(Vec<u8>),
    /// A line the format refuses, and why.
    Bad(String),
    /// The manifest id.
    Id(Vec<u8>),
    /// The manifest version.
    Version(Version),
    /// The manifest engine range.
    Engine(EngineReq),
    /// The manifest domains.
    Domains(Vec<Vec<u8>>),
    /// The physical rule `ticks_per_day`.
    Ticks(u64),
    /// The physical rule at an index of [`physical_rule_index`].
    Rule(usize, i64),
    /// The living rule at an index of [`living_rule_index`].
    Living(usize, i64),
    /// A region.
    Region(RegionSpec),
    /// An organism.
    Organism(OrganismSpec),
    /// A containment link.
    Containment(ContainmentSpec),
    /// An adjacency edge.
    Adjacency(AdjacencySpec),
    /// A region's exposure.
    Exposure(ExposureSpec),
    /// An entity's position.
    Position(PositionSpec),
    /// A portal.
    Portal(PortalSpec),
    /// A portal's pinned danger.
    Danger(PortalDangerSpec),
    /// A material and its properties.
    Material(MaterialSpec),
    /// An object's composition links.
    MadeOf(Vec<MadeOfSpec>),
}

/// The byte strings a list of owned byte strings holds.
pub open spec fn byte_strings(v: Seq<Vec<u8>>) -> Seq<Seq<u8>> {
    v.map_values(|b: Vec<u8>| b@)
}

impl Item {
    /// The entry this item stands for.
    pub open spec fn entry(self) -> Entry {
        match self {
            Item::Skip => Entry::Skip,
            Item::Header(n) => Entry::Header(n@),
            Item::Bad(m) => Entry::Bad(m@),
            Item::Id(v) => Entry::Id(v@),
            Item::Version(v) => Entry::Version(v),
            Item::Engine(e) => Entry::Engine(e),
            Item::Domains(d) => Entry::Domains(byte_strings(d@)),
            Item::Ticks(n) => Entry::Ticks(n),
            Item::Rule(k, n) => Entry::Rule(k as int, n),
            Item::Living(k, n) => Entry::Living(k as int, n),
            Item::Region(r) => Entry::Region(r),
            Item::Organism(o) => Entry::Organism(o),
            Item::Containment(c) => Entry::Containment(c),
            Item::Adjacency(a) => Entry::Adjacency(a),
            Item::Exposure(e) => Entry::Exposure(e),
            Item::Position(p) => Entry::Position(p),
            Item::Portal(p) => Entry::Portal(p),
            Item::Danger(d) => Entry::Danger(d),
            Item::Material(m) => Entry::Material(m.id, m.properties@),
            Item::MadeOf(l) => Entry::MadeOf(l@),
        }
    }
}

/// Whether the bytes `s[lo..hi]` are exactly those of `lit`.
fn span_is(s: &[u8], lo: usize, hi: usize, lit: &str) -> (r: bool)
    requires
        lo <= hi <= s.len(),
    ensures
        r == (s@.subrange(lo as int, hi as int) == lit.spec_bytes()),
{
    let b = lit.as_bytes();
    if hi - lo != b.len() {
        return false;
    }
    let mut i: usize = 0;
    while i < b.len()
        invariant
            i <= b.len(),
            hi - lo == b.len(),
            lo <= hi <= s.len(),
            b@ == lit.spec_bytes(),
            forall|j: int| 0 <= j < i ==> s@[lo + j] == b@[j],
        decreases b.len() - i,
    {
        if s[lo + i] != b[i] {
            assert(s@.subrange(lo as int, hi as int)[i as int] != b@[i as int]);
            return false;
        }
        i = i + 1;
    }
    assert(s@.subrange(lo as int, hi as int) =~= b@);
    true
}

/// Whether a name is exactly the bytes of `lit`.
fn named(name: &Vec<u8>, lit: &str) -> (r: bool)
    ensures
        r == (name@ == lit.spec_bytes()),
{
    assert(name@.subrange(0, name@.len() as int) =~= name@);
    span_is(name.as_slice(), 0, name.len(), lit)
}

/// The message naming the bytes `s[lo..hi]` after `prefix`.
fn quote_span(prefix: &str, s: &[u8], lo: usize, hi: usize) -> (r: String)
    requires
        lo <= hi <= s.len(),
    ensures
        r@ == quote(prefix, s@.subrange(lo as int, hi as int)),
{
    let b = slice_of(s, lo, hi);
    quoted(prefix, b.as_slice())
}

/// The refusal of `s[lo..hi]` where a number should stand.
fn number_refused(s: &[u8], lo: usize, hi: usize) -> (r: String)
    requires
        lo <= hi <= s.len(),
    ensures
        r@ == not_a_number(s@.subrange(lo as int, hi as int)),
{
    quote_span("expected a number, got ", s, lo, hi)
}

/// What the raw line `s[lo..hi]` declares under `section`.
pub fn line_item(s: &[u8], lo: usize, hi: usize, section: &Vec<u8>) -> (r: Item)
    requires
        lo <= hi <= s.len(),
    ensures
        r.entry() == line_entry(section@, s@.subrange(lo as int, hi as int)),
{
    let ghost raw = s@.subrange(lo as int, hi as int);
    let end = match find_in(s, lo, hi, 0x23u8) {
        Some(k) => k,
        None => hi,
    };
    proof {
        if let Some(k) = find(raw, 0x23u8) {
            assert(raw.take(k) =~= s@.subrange(lo as int, end as int));
        } else {
            assert(raw =~= s@.subrange(lo as int, end as int));
        }
        assert(uncommented(raw) == s@.subrange(lo as int, end as int));
    }
    let (a, b) = trim_span(s, lo, end);
    let ghost c = s@.subrange(a as int, b as int);
    if a == b {
        return Item::Skip;
    }
    if b - a >= 2 && s[a] == 0x5bu8 && s[b - 1] == 0x5du8 {
        assert(c.subrange(1, c.len() - 1) =~= s@.subrange(a + 1, b - 1));
        let (na, nb) = trim_span(s, a + 1, b - 1);
        return Item::Header(slice_of(s, na, nb));
    }
    match find_in(s, a, b, 0x3du8) {
        None => Item::Bad("expected `key = value`".to_owned()),
        Some(k) => {
            assert(c.take(k - a) =~= s@.subrange(a as int, k as int));
            assert(c.skip(k - a + 1) =~= s@.subrange(k + 1, b as int));
            let (ka, kb) = trim_span(s, a, k);
            let (va, vb) = trim_span(s, k + 1, b);
            if ka == kb {
                Item::Bad("empty key".to_owned())
            } else {
                pair_item(s, ka, kb, va, vb, section)
            }
        },
    }
}

/// What the pair `s[ka..kb] = s[va..vb]` declares under `section`.
fn pair_item(s: &[u8], ka: usize, kb: usize, va: usize, vb: usize, section: &Vec<u8>) -> (r: Item)
    requires
        ka <= kb <= s.len(),
        va <= vb <= s.len(),
    ensures
        r.entry() == pair_entry(
            section@,
            s@.subrange(ka as int, kb as int),
            s@.subrange(va as int, vb as int),
        ),
{
    reveal(pair_entry);
    if named(section, "manifest") {
        manifest_item(s, ka, kb, va, vb)
    } else if named(section, "rules.physical") {
        physical_item(s, ka, kb, va, vb)
    } else if named(section, "rules.living") {
        living_item(s, ka, kb, va, vb)
    } else if named(section, "regions") {
        region_item(s, ka, kb, va, vb)
    } else if named(section, "organisms") {
        organism_item(s, ka, kb, va, vb)
    } else if named(section, "containment") {
        match (parse_u64(s, ka, kb), parse_u64(s, va, vb)) {
            (None, _) => Item::Bad(number_refused(s, ka, kb)),
            (_, None) => Item::Bad(number_refused(s, va, vb)),
            (Some(child_id), Some(parent_id)) => Item::Containment(
                ContainmentSpec { child_id, parent_id },
            ),
        }
    } else if named(section, "adjacency") {
        match (parse_u64(s, ka, kb), parse_u64(s, va, vb)) {
            (None, _) => Item::Bad(number_refused(s, ka, kb)),
            (_, None) => Item::Bad(number_refused(s, va, vb)),
            (Some(a), Some(b)) => Item::Adjacency(AdjacencySpec { a, b }),
        }
    } else if named(section, "exposure") {
        match (parse_u64(s, ka, kb), parse_i64(s, va, vb)) {
            (None, _) => Item::Bad(number_refused(s, ka, kb)),
            (_, None) => Item::Bad(number_refused(s, va, vb)),
            (Some(region_id), Some(exposure)) => Item::Exposure(
                ExposureSpec { region_id, exposure },
            ),
        }
    } else if named(section, "positions") {
        position_item(s, ka, kb, va, vb)
    } else if named(section, "portals") {
        portal_item(s, ka, kb, va, vb)
    } else if named(section, "portal_danger") {
        match (parse_u64(s, ka, kb), parse_i64(s, va, vb)) {
            (None, _) => Item::Bad(number_refused(s, ka, kb)),
            (_, None) => Item::Bad(number_refused(s, va, vb)),
            (Some(portal_id), Some(danger)) => Item::Danger(PortalDangerSpec { portal_id, danger }),
        }
    } else if named(section, "materials") {
        material_item(s, ka, kb, va, vb)
    } else if named(section, "made_of") {
        made_of_item(s, ka, kb, va, vb)
    } else if section.len() == 0 {
        Item::Bad("key/value appears before any [section]".to_owned())
    } else {
        assert(section@.subrange(0, section@.len() as int) =~= section@);
        Item::Bad(quote_span("unknown section ", section.as_slice(), 0, section.len()))
    }
}

/// What a manifest pair declares.
fn manifest_item(s: &[u8], ka: usize, kb: usize, va: usize, vb: usize) -> (r: Item)
    requires
        ka <= kb <= s.len(),
        va <= vb <= s.len(),
    ensures
        r.entry() == manifest_entry(
            s@.subrange(ka as int, kb as int),
            s@.subrange(va as int, vb as int),
        ),
{
    if span_is(s, ka, kb, "id") {
        Item::Id(slice_of(s, va, vb))
    } else if span_is(s, ka, kb, "version") {
        match version_in(s, va, vb) {
            Some(v) => Item::Version(v),
            None => Item::Bad(quote_span("invalid version: ", s, va, vb)),
        }
    } else if span_is(s, ka, kb, "engine") {
        match engine_in(s, va, vb) {
            Ok(req) => Item::Engine(req),
            Err(Some((a, b))) => Item::Bad(quote_span("invalid version: ", s, a, b)),
            Err(None) => Item::Bad(quote_span("invalid version: ", s, va, vb)),
        }
    } else if span_is(s, ka, kb, "domains") {
        Item::Domains(domain_names(s, va, vb))
    } else {
        Item::Bad(quote_span("unknown manifest key ", s, ka, kb))
    }
}

/// The trimmed, non-empty comma-separated names in `s[lo..hi]`, in order.
fn domain_names(s: &[u8], lo: usize, hi: usize) -> (r: Vec<Vec<u8>>)
    requires
        lo <= hi <= s.len(),
    ensures
        byte_strings(r@) == nonempty_trimmed(split(s@.subrange(lo as int, hi as int), 0x2cu8)),
{
    let ps = split_spans(s, lo, hi, 0x2cu8);
    let ghost pv = split(s@.subrange(lo as int, hi as int), 0x2cu8);
    let mut out: Vec<Vec<u8>> = Vec::new();
    let mut i: usize = 0;
    while i < ps.len()
        invariant
            i <= ps.len(),
            ps@.len() == pv.len(),
            forall|j: int|
                0 <= j < ps@.len() ==> (#[trigger] ps@[j]).0 <= ps@[j].1 <= s.len() && s@.subrange(
                    ps@[j].0 as int,
                    ps@[j].1 as int,
                ) == pv[j],
            byte_strings(out@) == nonempty_trimmed(pv.take(i as int)),
        decreases ps.len() - i,
    {
        let (pa, pb) = ps[i];
        assert(pv.take(i + 1).drop_last() =~= pv.take(i as int));
        assert(pv.take(i + 1).last() == pv[i as int]);
        let (a, b) = trim_span(s, pa, pb);
        if a < b {
            let name = slice_of(s, a, b);
            let ghost before = out@;
            out.push(name);
            assert(byte_strings(out@) =~= byte_strings(before).push(name@));
        }
        i = i + 1;
    }
    assert(pv.take(i as int) =~= pv);
    out
}

/// The index of the signed physical rule the name `s[lo..hi]` denotes.
fn physical_rule_at(s: &[u8], lo: usize, hi: usize) -> (r: Option<usize>)
    requires
        lo <= hi <= s.len(),
    ensures
        match physical_rule_index(s@.subrange(lo as int, hi as int)) {
            Some(k) => r == Some(k as usize) && 0 <= k < 13,
            None => r is None,
        },
{
    if span_is(s, lo, hi, "diurnal_amplitude_centi_c") {
        Some(0)
    } else if span_is(s, lo, hi, "weather_max_swing_centi_c") {
        Some(1)
    } else if span_is(s, lo, hi, "illumination_peak") {
        Some(2)
    } else if span_is(s, lo, hi, "humidity_baseline") {
        Some(3)
    } else if span_is(s, lo, hi, "humidity_swing") {
        Some(4)
    } else if span_is(s, lo, hi, "humidity_drying_divisor") {
        Some(5)
    } else if span_is(s, lo, hi, "pressure_sea_level") {
        Some(6)
    } else if span_is(s, lo, hi, "pressure_elevation_factor") {
        Some(7)
    } else if span_is(s, lo, hi, "pressure_weather_swing") {
        Some(8)
    } else if span_is(s, lo, hi, "pressure_settle_divisor") {
        Some(9)
    } else if span_is(s, lo, hi, "wind_gradient_divisor") {
        Some(10)
    } else if span_is(s, lo, hi, "fall_danger_per_meter") {
        Some(11)
    } else if span_is(s, lo, hi, "thermal_mass_reference") {
        Some(12)
    } else {
        None
    }
}

/// What a physical rule pair declares.
fn physical_item(s: &[u8], ka: usize, kb: usize, va: usize, vb: usize) -> (r: Item)
    requires
        ka <= kb <= s.len(),
        va <= vb <= s.len(),
    ensures
        r.entry() == physical_entry(
            s@.subrange(ka as int, kb as int),
            s@.subrange(va as int, vb as int),
        ),
{
    if span_is(s, ka, kb, "ticks_per_day") {
        match parse_u64(s, va, vb) {
            Some(n) => Item::Ticks(n),
            None => Item::Bad(number_refused(s, va, vb)),
        }
    } else {
        match physical_rule_at(s, ka, kb) {
            Some(k) => match parse_i64(s, va, vb) {
                Some(n) => Item::Rule(k, n),
                None => Item::Bad(number_refused(s, va, vb)),
            },
            None => Item::Bad(quote_span("unknown physical rule ", s, ka, kb)),
        }
    }
}

/// What a living rule pair declares.
fn living_item(s: &[u8], ka: usize, kb: usize, va: usize, vb: usize) -> (r: Item)
    requires
        ka <= kb <= s.len(),
        va <= vb <= s.len(),
    ensures
        r.entry() == living_entry(
            s@.subrange(ka as int, kb as int),
            s@.subrange(va as int, vb as int),
        ),
{
    let k: usize = if span_is(s, ka, kb, "set_point_centi_c") {
        0
    } else if span_is(s, ka, kb, "warm_response") {
        1
    } else if span_is(s, ka, kb, "cold_response") {
        2
    } else {
        return Item::Bad(quote_span("unknown living rule ", s, ka, kb));
    };
    match parse_i64(s, va, vb) {
        Some(n) => Item::Living(k, n),
        None => Item::Bad(number_refused(s, va, vb)),
    }
}

/// What a region pair declares.
fn region_item(s: &[u8], ka: usize, kb: usize, va: usize, vb: usize) -> (r: Item)
    requires
        ka <= kb <= s.len(),
        va <= vb <= s.len(),
    ensures
        r.entry() == region_entry(
            s@.subrange(ka as int, kb as int),
            s@.subrange(va as int, vb as int),
        ),
{
    let ps = split_spans(s, va, vb, 0x2cu8);
    proof {
        lemma_split_nonempty(s@.subrange(va as int, vb as int), 0x2cu8);
    }
    match parse_u64(s, ka, kb) {
        None => Item::Bad(number_refused(s, ka, kb)),
        Some(id) => {
            let (a0, b0) = ps[0];
            match parse_i64(s, a0, b0) {
                None => Item::Bad(number_refused(s, a0, b0)),
                Some(temperature_centi_c) => if ps.len() == 1 {
                    Item::Region(RegionSpec { id, temperature_centi_c, elevation: None })
                } else {
                    let (a1, b1) = ps[1];
                    match parse_i64(s, a1, b1) {
                        None => Item::Bad(number_refused(s, a1, b1)),
                        Some(e) => if ps.len() > 2 {
                            Item::Bad("expected `temperature` or `temperature, elevation`".to_owned())
                        } else {
                            Item::Region(RegionSpec { id, temperature_centi_c, elevation: Some(e) })
                        },
                    }
                },
            }
        },
    }
}

/// What an organism pair declares.
fn organism_item(s: &[u8], ka: usize, kb: usize, va: usize, vb: usize) -> (r: Item)
    requires
        ka <= kb <= s.len(),
        va <= vb <= s.len(),
    ensures
        r.entry() == organism_entry(
            s@.subrange(ka as int, kb as int),
            s@.subrange(va as int, vb as int),
        ),
{
    let ps = split_spans(s, va, vb, 0x2cu8);
    match parse_u64(s, ka, kb) {
        None => Item::Bad(number_refused(s, ka, kb)),
        Some(id) => if ps.len() < 2 {
            Item::Bad("expected `region_id, body_heat`".to_owned())
        } else if ps.len() > 2 {
            Item::Bad("expected exactly `region_id, body_heat`".to_owned())
        } else {
            let (a0, b0) = ps[0];
            let (a1, b1) = ps[1];
            match (parse_u64(s, a0, b0), parse_i64(s, a1, b1)) {
                (None, _) => Item::Bad(number_refused(s, a0, b0)),
                (_, None) => Item::Bad(number_refused(s, a1, b1)),
                (Some(region_id), Some(body_heat_centi_c)) => Item::Organism(
                    OrganismSpec { id, region_id, body_heat_centi_c },
                ),
            }
        },
    }
}

/// What a position pair declares.
fn position_item(s: &[u8], ka: usize, kb: usize, va: usize, vb: usize) -> (r: Item)
    requires
        ka <= kb <= s.len(),
        va <= vb <= s.len(),
    ensures
        r.entry() == position_entry(
            s@.subrange(ka as int, kb as int),
            s@.subrange(va as int, vb as int),
        ),
{
    let ps = split_spans(s, va, vb, 0x2cu8);
    proof {
        lemma_split_nonempty(s@.subrange(va as int, vb as int), 0x2cu8);
    }
    let entity_id = match parse_u64(s, ka, kb) {
        None => {
            return Item::Bad(number_refused(s, ka, kb));
        },
        Some(id) => id,
    };
    let (a0, b0) = ps[0];
    let x = match parse_i64(s, a0, b0) {
        None => {
            return Item::Bad(number_refused(s, a0, b0));
        },
        Some(x) => x,
    };
    if ps.len() < 2 {
        return Item::Bad("expected `x, y[, z]`".to_owned());
    }
    let (a1, b1) = ps[1];
    let y = match parse_i64(s, a1, b1) {
        None => {
            return Item::Bad(number_refused(s, a1, b1));
        },
        Some(y) => y,
    };
    if ps.len() == 2 {
        return Item::Position(PositionSpec { entity_id, x, y, z: None });
    }
    let (a2, b2) = ps[2];
    let z = match parse_i64(s, a2, b2) {
        None => {
            return Item::Bad(number_refused(s, a2, b2));
        },
        Some(z) => z,
    };
    if ps.len() > 3 {
        Item::Bad("expected `x, y` or `x, y, z`".to_owned())
    } else {
        Item::Position(PositionSpec { entity_id, x, y, z: Some(z) })
    }
}

/// What a portal pair declares.
fn portal_item(s: &[u8], ka: usize, kb: usize, va: usize, vb: usize) -> (r: Item)
    requires
        ka <= kb <= s.len(),
        va <= vb <= s.len(),
    ensures
        r.entry() == portal_entry(
            s@.subrange(ka as int, kb as int),
            s@.subrange(va as int, vb as int),
        ),
{
    let ps = split_spans(s, va, vb, 0x2cu8);
    proof {
        lemma_split_nonempty(s@.subrange(va as int, vb as int), 0x2cu8);
    }
    let portal_id = match parse_u64(s, ka, kb) {
        None => {
            return Item::Bad(number_refused(s, ka, kb));
        },
        Some(id) => id,
    };
    let (a0, b0) = ps[0];
    let host_region = match parse_u64(s, a0, b0) {
        None => {
            return Item::Bad(number_refused(s, a0, b0));
        },
        Some(h) => h,
    };
    if ps.len() < 2 {
        return Item::Bad("expected `host, dest, x, y[, z]` (dest)".to_owned());
    }
    let (a1, b1) = ps[1];
    let dest_region = match parse_u64(s, a1, b1) {
        None => {
            return Item::Bad(number_refused(s, a1, b1));
        },
        Some(d) => d,
    };
    if ps.len() < 3 {
        return Item::Bad("expected `host, dest, x, y[, z]` (x)".to_owned());
    }
    let (a2, b2) = ps[2];
    let x = match parse_i64(s, a2, b2) {
        None => {
            return Item::Bad(number_refused(s, a2, b2));
        },
        Some(x) => x,
    };
    if ps.len() < 4 {
        return Item::Bad("expected `host, dest, x, y[, z]` (y)".to_owned());
    }
    let (a3, b3) = ps[3];
    let y = match parse_i64(s, a3, b3) {
        None => {
            return Item::Bad(number_refused(s, a3, b3));
        },
        Some(y) => y,
    };
    if ps.len() == 4 {
        return Item::Portal(PortalSpec { portal_id, host_region, dest_region, x, y, z: None });
    }
    let (a4, b4) = ps[4];
    let z = match parse_i64(s, a4, b4) {
        None => {
            return Item::Bad(number_refused(s, a4, b4));
        },
        Some(z) => z,
    };
    if ps.len() > 5 {
        Item::Bad("expected `host, dest, x, y` or `host, dest, x, y, z`".to_owned())
    } else {
        Item::Portal(PortalSpec { portal_id, host_region, dest_region, x, y, z: Some(z) })
    }
}

/// The material property the name `s[lo..hi]` denotes.
fn property_at(s: &[u8], lo: usize, hi: usize) -> (r: Option<MaterialProperty>)
    requires
        lo <= hi <= s.len(),
    ensures
        r == property_named(s@.subrange(lo as int, hi as int)),
{
    if span_is(s, lo, hi, "density") {
        Some(MaterialProperty::Density)
    } else if span_is(s, lo, hi, "hardness") {
        Some(MaterialProperty::Hardness)
    } else if span_is(s, lo, hi, "thermal_capacity") {
        Some(MaterialProperty::ThermalCapacity)
    } else if span_is(s, lo, hi, "flammability") {
        Some(MaterialProperty::Flammability)
    } else if span_is(s, lo, hi, "conductivity") {
        Some(MaterialProperty::Conductivity)
    } else if span_is(s, lo, hi, "toxicity") {
        Some(MaterialProperty::Toxicity)
    } else {
        None
    }
}

/// What the `property:value` piece `s[lo..hi]` declares.
fn property_in(s: &[u8], lo: usize, hi: usize) -> (r: Result<Option<(MaterialProperty, i64)>, String>)
    requires
        lo <= hi <= s.len(),
    ensures
        match property_piece(s@.subrange(lo as int, hi as int)) {
            Ok(x) => r == Ok::<Option<(MaterialProperty, i64)>, String>(x),
            Err(m) => r matches Err(e) && e@ == m,
        },
{
    let (a, b) = trim_span(s, lo, hi);
    let ghost p = s@.subrange(a as int, b as int);
    if a == b {
        return Ok(None);
    }
    match find_in(s, a, b, 0x3au8) {
        None => Err("expected `property:value`".to_owned()),
        Some(c) => {
            assert(p.take(c - a) =~= s@.subrange(a as int, c as int));
            assert(p.skip(c - a + 1) =~= s@.subrange(c + 1, b as int));
            let (na, nb) = trim_span(s, a, c);
            let (ra, rb) = trim_span(s, c + 1, b);
            match property_at(s, na, nb) {
                None => Err(quote_span("unknown material property ", s, na, nb)),
                Some(prop) => match parse_i64(s, ra, rb) {
                    None => Err(number_refused(s, ra, rb)),
                    Some(v) => Ok(Some((prop, v))),
                },
            }
        },
    }
}

/// What a material pair declares.
fn material_item(s: &[u8], ka: usize, kb: usize, va: usize, vb: usize) -> (r: Item)
    requires
        ka <= kb <= s.len(),
        va <= vb <= s.len(),
    ensures
        r.entry() == material_entry(
            s@.subrange(ka as int, kb as int),
            s@.subrange(va as int, vb as int),
        ),
{
    let ghost key = s@.subrange(ka as int, kb as int);
    let ghost pv = split(s@.subrange(va as int, vb as int), 0x2cu8);
    let id = match parse_u64(s, ka, kb) {
        None => {
            return Item::Bad(number_refused(s, ka, kb));
        },
        Some(id) => id,
    };
    let ps = split_spans(s, va, vb, 0x2cu8);
    let mut props: Vec<(MaterialProperty, i64)> = Vec::new();
    let mut i: usize = 0;
    while i < ps.len()
        invariant
            i <= ps.len(),
            ps@.len() == pv.len(),
            forall|j: int|
                0 <= j < ps@.len() ==> (#[trigger] ps@[j]).0 <= ps@[j].1 <= s.len() && s@.subrange(
                    ps@[j].0 as int,
                    ps@[j].1 as int,
                ) == pv[j],
            ka <= kb <= s.len(),
            va <= vb <= s.len(),
            pv == split(s@.subrange(va as int, vb as int), 0x2cu8),
            u64_of(s@.subrange(ka as int, kb as int)) == Some(id),
            material_properties(pv.take(i as int)) == Ok::<
                Seq<(MaterialProperty, i64)>,
                Seq<char>,
            >(props@),
        decreases ps.len() - i,
    {
        let (pa, pb) = ps[i];
        assert(pv.take(i + 1).drop_last() =~= pv.take(i as int));
        assert(pv.take(i + 1).last() == pv[i as int]);
        assert(s@.subrange(pa as int, pb as int) == pv[i as int]);
        match property_in(s, pa, pb) {
            Err(m) => {
                proof {
                    assert(material_properties(pv.take(i + 1)) == Err::<
                        Seq<(MaterialProperty, i64)>,
                        Seq<char>,
                    >(m@));
                    lemma_properties_stay_failed(pv, i + 1);
                }
                return Item::Bad(m);
            },
            Ok(None) => {},
            Ok(Some(p)) => {
                props.push(p);
            },
        }
        i = i + 1;
    }
    assert(pv.take(i as int) =~= pv);
    Item::Material(MaterialSpec { id, properties: props })
}

/// What a made-of pair declares.
fn made_of_item(s: &[u8], ka: usize, kb: usize, va: usize, vb: usize) -> (r: Item)
    requires
        ka <= kb <= s.len(),
        va <= vb <= s.len(),
    ensures
        r.entry() == made_of_entry(
            s@.subrange(ka as int, kb as int),
            s@.subrange(va as int, vb as int),
        ),
{
    let ghost pv = split(s@.subrange(va as int, vb as int), 0x2cu8);
    let object_id = match parse_u64(s, ka, kb) {
        None => {
            return Item::Bad(number_refused(s, ka, kb));
        },
        Some(id) => id,
    };
    let ps = split_spans(s, va, vb, 0x2cu8);
    let mut links: Vec<MadeOfSpec> = Vec::new();
    let mut i: usize = 0;
    while i < ps.len()
        invariant
            i <= ps.len(),
            ps@.len() == pv.len(),
            forall|j: int|
                0 <= j < ps@.len() ==> (#[trigger] ps@[j]).0 <= ps@[j].1 <= s.len() && s@.subrange(
                    ps@[j].0 as int,
                    ps@[j].1 as int,
                ) == pv[j],
            ka <= kb <= s.len(),
            va <= vb <= s.len(),
            pv == split(s@.subrange(va as int, vb as int), 0x2cu8),
            u64_of(s@.subrange(ka as int, kb as int)) == Some(object_id),
            material_links(object_id, pv.take(i as int)) == Ok::<Seq<MadeOfSpec>, Seq<char>>(
                links@,
            ),
        decreases ps.len() - i,
    {
        let (pa, pb) = ps[i];
        assert(pv.take(i + 1).drop_last() =~= pv.take(i as int));
        assert(pv.take(i + 1).last() == pv[i as int]);
        assert(s@.subrange(pa as int, pb as int) == pv[i as int]);
        match parse_u64(s, pa, pb) {
            None => {
                proof {
                    assert(material_links(object_id, pv.take(i + 1)) is Err);
                    lemma_links_stay_failed(object_id, pv, i + 1);
                }
                return Item::Bad(number_refused(s, pa, pb));
            },
            Some(material_id) => {
                links.push(MadeOfSpec { object_id, material_id });
            },
        }
        i = i + 1;
    }
    assert(pv.take(i as int) =~= pv);
    Item::MadeOf(links)
}

} // verus!
