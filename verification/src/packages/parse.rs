//! The world-file format: a small sectioned `key = value` text, parsed from its bytes.
//!
//! Packages remain pure data: this reads declarations, it never executes them. Recognised
//! sections: `[manifest]`, `[rules.physical]`, `[rules.living]`, `[regions]`
//! (`region_id = temperature[, elevation]`), `[organisms]` (`organism_id = region_id,
//! body_heat`), `[containment]` (`child_id = parent_id`), `[adjacency]`, `[exposure]`,
//! `[positions]`, `[portals]`, `[portal_danger]`, `[materials]` (`material_id =
//! property:value, ...`), and `[made_of]` (`object_id = material_id[, ...]`). Blank lines
//! and `#` comments are ignored. A missing required field is an error: the loader never
//! fabricates defaults.

use crate::packages::model::{
    AdjacencySpec, ContainmentSpec, ExposureSpec, LivingRules, MadeOfSpec, Manifest,
    MaterialProperty, MaterialSpec, OrganismSpec, PhysicalRules, PortalDangerSpec, PortalSpec,
    PositionSpec, RegionSpec, WorldPackage,
};
use crate::packages::text::{
    debug_text, find, i64_of, joined, split, split_spans, text_of, trim, u64_of, utf8_text,
};
use crate::packages::line::{byte_strings, line_item, Item};
use crate::packages::version::{decimal, decimal_text, engine_spec, version_spec, EngineReq, Version};
use vstd::prelude::*;
use vstd::string::StringSliceAdditionalSpecFns;

verus! {

/// A failure to parse a world file, with a 1-based line number and a reason.
#[derive(Clone, PartialEq, Eq, Debug)]
pub struct ParseError {
    /// The 1-based line number the error was found on (0 if not line-specific).
    pub line: usize,
    /// A human-readable explanation.
    pub reason: String,
}

impl ParseError {
    /// The error rendered as a sentence with its line number.
    pub fn describe(&self) -> (r: String)
        ensures
            r@ == "world-file parse error (line "@ + decimal(self.line as nat) + "): "@
                + self.reason@,
    {
        let n = decimal_text(self.line as u64);
        let head = joined("world-file parse error (line ", n.as_str(), "): ");
        let r = joined(head.as_str(), self.reason.as_str(), "");
        proof {
            reveal_strlit("");
            assert(r@ =~= "world-file parse error (line "@ + decimal(self.line as nat) + "): "@
                + self.reason@);
        }
        r
    }
}

/// What a world file has declared after some of its lines: the section being read, each
/// manifest field and rule seen so far (the last one wins), and the content lists in order.
pub struct Acc {
    /// The name of the current section (empty before the first header).
    pub section: Seq<u8>,
    /// The manifest id.
    pub id: Option<Seq<u8>>,
    /// The manifest version.
    pub version: Option<Version>,
    /// The manifest engine range.
    pub engine: Option<EngineReq>,
    /// The manifest domains.
    pub domains: Option<Seq<Seq<u8>>>,
    /// The physical rule `ticks_per_day`.
    pub ticks: Option<u64>,
    /// The signed physical rules, by [`physical_rule_index`].
    pub rules: Seq<Option<i64>>,
    /// The living rules, by [`living_rule_index`].
    pub living: Seq<Option<i64>>,
    /// The regions.
    pub regions: Seq<RegionSpec>,
    /// The organisms.
    pub organisms: Seq<OrganismSpec>,
    /// The containment links.
    pub containment: Seq<ContainmentSpec>,
    /// The adjacency edges.
    pub adjacency: Seq<AdjacencySpec>,
    /// The exposures.
    pub exposure: Seq<ExposureSpec>,
    /// The positions.
    pub positions: Seq<PositionSpec>,
    /// The portals.
    pub portals: Seq<PortalSpec>,
    /// The pinned portal dangers.
    pub portal_danger: Seq<PortalDangerSpec>,
    /// The materials: each id with its properties.
    pub materials: Seq<(u64, Seq<(MaterialProperty, i64)>)>,
    /// The composition links.
    pub made_of: Seq<MadeOfSpec>,
}

/// Nothing declared yet.
pub open spec fn acc_start() -> Acc {
    Acc {
        section: Seq::empty(),
        id: None,
        version: None,
        engine: None,
        domains: None,
        ticks: None,
        rules: Seq::new(13, |i: int| None),
        living: Seq::new(3, |i: int| None),
        regions: Seq::empty(),
        organisms: Seq::empty(),
        containment: Seq::empty(),
        adjacency: Seq::empty(),
        exposure: Seq::empty(),
        positions: Seq::empty(),
        portals: Seq::empty(),
        portal_danger: Seq::empty(),
        materials: Seq::empty(),
        made_of: Seq::empty(),
    }
}

/// What the entry of line number `line` does to what was declared before it: the new
/// declarations, or the refusal of the file at that line.
pub open spec fn absorb(acc: Acc, e: Entry, line: int) -> Result<Acc, (int, Seq<char>)> {
    match e {
        Entry::Skip => Ok(acc),
        Entry::Header(name) => Ok(Acc { section: name, ..acc }),
        Entry::Bad(reason) => Err((line, reason)),
        Entry::Id(v) => Ok(Acc { id: Some(v), ..acc }),
        Entry::Version(v) => Ok(Acc { version: Some(v), ..acc }),
        Entry::Engine(r) => Ok(Acc { engine: Some(r), ..acc }),
        Entry::Domains(d) => Ok(Acc { domains: Some(d), ..acc }),
        Entry::Ticks(n) => Ok(Acc { ticks: Some(n), ..acc }),
        Entry::Rule(k, n) => if 0 <= k < acc.rules.len() {
            Ok(Acc { rules: acc.rules.update(k, Some(n)), ..acc })
        } else {
            Ok(acc)
        },
        Entry::Living(k, n) => if 0 <= k < acc.living.len() {
            Ok(Acc { living: acc.living.update(k, Some(n)), ..acc })
        } else {
            Ok(acc)
        },
        Entry::Region(r) => Ok(Acc { regions: acc.regions.push(r), ..acc }),
        Entry::Organism(o) => Ok(Acc { organisms: acc.organisms.push(o), ..acc }),
        Entry::Containment(c) => Ok(Acc { containment: acc.containment.push(c), ..acc }),
        Entry::Adjacency(a) => Ok(Acc { adjacency: acc.adjacency.push(a), ..acc }),
        Entry::Exposure(x) => Ok(Acc { exposure: acc.exposure.push(x), ..acc }),
        Entry::Position(p) => Ok(Acc { positions: acc.positions.push(p), ..acc }),
        Entry::Portal(p) => Ok(Acc { portals: acc.portals.push(p), ..acc }),
        Entry::Danger(d) => Ok(Acc { portal_danger: acc.portal_danger.push(d), ..acc }),
        Entry::Material(id, props) => Ok(Acc { materials: acc.materials.push((id, props)), ..acc }),
        Entry::MadeOf(links) => Ok(Acc { made_of: acc.made_of + links, ..acc }),
    }
}

/// Reading the lines in order: what they declare, or the first refused line.
pub open spec fn scan(lines: Seq<Seq<u8>>) -> Result<Acc, (int, Seq<char>)>
    decreases lines.len(),
{
    if lines.len() == 0 {
        Ok(acc_start())
    } else {
        match scan(lines.drop_last()) {
            Err(e) => Err(e),
            Ok(acc) => absorb(acc, line_entry(acc.section, lines.last()), lines.len() as int),
        }
    }
}

/// The first of the first `n` values that is unset.
pub open spec fn first_unset(vals: Seq<Option<i64>>, n: nat) -> Option<int>
    decreases n,
{
    if n == 0 {
        None
    } else {
        match first_unset(vals, (n - 1) as nat) {
            Some(k) => Some(k),
            None => if vals[n - 1] is None {
                Some(n - 1)
            } else {
                None
            },
        }
    }
}

/// The refusal for a missing signed physical rule.
pub open spec fn rule_missing(k: int) -> Seq<char> {
    if k == 0 {
        "missing required field rules.physical.diurnal_amplitude_centi_c"@
    } else if k == 1 {
        "missing required field rules.physical.weather_max_swing_centi_c"@
    } else if k == 2 {
        "missing required field rules.physical.illumination_peak"@
    } else if k == 3 {
        "missing required field rules.physical.humidity_baseline"@
    } else if k == 4 {
        "missing required field rules.physical.humidity_swing"@
    } else if k == 5 {
        "missing required field rules.physical.humidity_drying_divisor"@
    } else if k == 6 {
        "missing required field rules.physical.pressure_sea_level"@
    } else if k == 7 {
        "missing required field rules.physical.pressure_elevation_factor"@
    } else if k == 8 {
        "missing required field rules.physical.pressure_weather_swing"@
    } else if k == 9 {
        "missing required field rules.physical.pressure_settle_divisor"@
    } else if k == 10 {
        "missing required field rules.physical.wind_gradient_divisor"@
    } else {
        "missing required field rules.physical.fall_danger_per_meter"@
    }
}

/// The refusal for a missing living rule.
pub open spec fn living_missing(k: int) -> Seq<char> {
    if k == 0 {
        "missing required field rules.living.set_point_centi_c"@
    } else if k == 1 {
        "missing required field rules.living.warm_response"@
    } else {
        "missing required field rules.living.cold_response"@
    }
}

/// The first required field that a complete reading left unset, if any. The manifest
/// fields and the physical rules (all but the thermal-mass reference) are required; the
/// living rules are all absent or all required.
pub open spec fn first_missing(acc: Acc) -> Option<Seq<char>> {
    if acc.id is None {
        Some("missing required field manifest.id"@)
    } else if acc.version is None {
        Some("missing required field manifest.version"@)
    } else if acc.engine is None {
        Some("missing required field manifest.engine"@)
    } else if acc.domains is None {
        Some("missing required field manifest.domains"@)
    } else if acc.ticks is None {
        Some("missing required field rules.physical.ticks_per_day"@)
    } else {
        match first_unset(acc.rules, 12) {
            Some(k) => Some(rule_missing(k)),
            None => if acc.living[0] is None && acc.living[1] is None && acc.living[2] is None {
                None
            } else {
                match first_unset(acc.living, 3) {
                    Some(k) => Some(living_missing(k)),
                    None => None,
                }
            },
        }
    }
}

/// What a world file, as bytes, declares: every line read in order, then every required
/// field present; or the refusal, with its line (0 for a missing field) and reason.
pub open spec fn world_spec(text: Seq<u8>) -> Result<Acc, (int, Seq<char>)> {
    match scan(split(text, 0x0au8)) {
        Err(e) => Err(e),
        Ok(acc) => match first_missing(acc) {
            Some(m) => Err((0, m)),
            None => Ok(acc),
        },
    }
}

/// Whether a package holds exactly what a complete reading declared: the text of each
/// byte string, the last value of each field, and the content lists in file order.
pub open spec fn package_matches(p: WorldPackage, acc: Acc) -> bool {
    &&& acc.id matches Some(id) && p.manifest.id@ == utf8_text(id)
    &&& acc.version == Some(p.manifest.version)
    &&& acc.engine == Some(p.manifest.engine)
    &&& acc.domains matches Some(d) && p.manifest.domains@.len() == d.len() && forall|i: int|
        0 <= i < d.len() ==> (#[trigger] p.manifest.domains@[i])@ == utf8_text(d[i])
    &&& acc.ticks == Some(p.physical_rules.ticks_per_day)
    &&& acc.rules == seq![
        Some(p.physical_rules.diurnal_amplitude_centi_c),
        Some(p.physical_rules.weather_max_swing_centi_c),
        Some(p.physical_rules.illumination_peak),
        Some(p.physical_rules.humidity_baseline),
        Some(p.physical_rules.humidity_swing),
        Some(p.physical_rules.humidity_drying_divisor),
        Some(p.physical_rules.pressure_sea_level),
        Some(p.physical_rules.pressure_elevation_factor),
        Some(p.physical_rules.pressure_weather_swing),
        Some(p.physical_rules.pressure_settle_divisor),
        Some(p.physical_rules.wind_gradient_divisor),
        Some(p.physical_rules.fall_danger_per_meter),
        p.physical_rules.thermal_mass_reference,
    ]
    &&& match p.living_rules {
        None => acc.living == seq![None::<i64>, None, None],
        Some(l) => acc.living == seq![
            Some(l.set_point_centi_c),
            Some(l.warm_response),
            Some(l.cold_response),
        ],
    }
    &&& p.regions@ == acc.regions
    &&& p.organisms@ == acc.organisms
    &&& p.containment@ == acc.containment
    &&& p.adjacency@ == acc.adjacency
    &&& p.exposure@ == acc.exposure
    &&& p.positions@ == acc.positions
    &&& p.portals@ == acc.portals
    &&& p.portal_danger@ == acc.portal_danger
    &&& p.materials@.len() == acc.materials.len()
    &&& forall|i: int|
        0 <= i < acc.materials.len() ==> (#[trigger] p.materials@[i]).id == acc.materials[i].0
            && p.materials@[i].properties@ == acc.materials[i].1
    &&& p.made_of@ == acc.made_of
}

/// The declarations read so far, as values.
struct Draft {
    section: Vec<u8>,
    id: Option<Vec<u8>>,
    version: Option<Version>,
    engine: Option<EngineReq>,
    domains: Option<Vec<Vec<u8>>>,
    ticks: Option<u64>,
    rules: Vec<Option<i64>>,
    living: Vec<Option<i64>>,
    regions: Vec<RegionSpec>,
    organisms: Vec<OrganismSpec>,
    containment: Vec<ContainmentSpec>,
    adjacency: Vec<AdjacencySpec>,
    exposure: Vec<ExposureSpec>,
    positions: Vec<PositionSpec>,
    portals: Vec<PortalSpec>,
    portal_danger: Vec<PortalDangerSpec>,
    materials: Vec<MaterialSpec>,
    made_of: Vec<MadeOfSpec>,
}

/// The materials a list of material specs declares.
pub open spec fn material_pairs(m: Seq<MaterialSpec>) -> Seq<(u64, Seq<(MaterialProperty, i64)>)> {
    m.map_values(|x: MaterialSpec| (x.id, x.properties@))
}

impl Draft {
    /// What these values declare.
    spec fn acc(&self) -> Acc {
        Acc {
            section: self.section@,
            id: match self.id {
                Some(v) => Some(v@),
                None => None,
            },
            version: self.version,
            engine: self.engine,
            domains: match self.domains {
                Some(d) => Some(byte_strings(d@)),
                None => None,
            },
            ticks: self.ticks,
            rules: self.rules@,
            living: self.living@,
            regions: self.regions@,
            organisms: self.organisms@,
            containment: self.containment@,
            adjacency: self.adjacency@,
            exposure: self.exposure@,
            positions: self.positions@,
            portals: self.portals@,
            portal_danger: self.portal_danger@,
            materials: material_pairs(self.materials@),
            made_of: self.made_of@,
        }
    }

    /// Nothing declared yet.
    fn new() -> (d: Draft)
        ensures
            d.acc() == acc_start(),
    {
        let mut rules: Vec<Option<i64>> = Vec::new();
        let mut k: usize = 0;
        while k < 13
            invariant
                k <= 13,
                rules@ == Seq::new(k as nat, |i: int| None::<i64>),
            decreases 13 - k,
        {
            rules.push(None);
            k = k + 1;
            assert(rules@ =~= Seq::new(k as nat, |i: int| None::<i64>));
        }
        let mut living: Vec<Option<i64>> = Vec::new();
        living.push(None);
        living.push(None);
        living.push(None);
        assert(living@ =~= Seq::new(3, |i: int| None::<i64>));
        let d = Draft {
            section: Vec::new(),
            id: None,
            version: None,
            engine: None,
            domains: None,
            ticks: None,
            rules,
            living,
            regions: Vec::new(),
            organisms: Vec::new(),
            containment: Vec::new(),
            adjacency: Vec::new(),
            exposure: Vec::new(),
            positions: Vec::new(),
            portals: Vec::new(),
            portal_danger: Vec::new(),
            materials: Vec::new(),
            made_of: Vec::new(),
        };
        assert(byte_strings(Seq::<Vec<u8>>::empty()) =~= Seq::empty());
        assert(material_pairs(d.materials@) =~= Seq::empty());
        assert(d.acc() =~= acc_start());
        d
    }

    /// Take in what line number `line` declares.
    fn absorb_item(&mut self, item: Item, line: usize) -> (r: Result<(), ParseError>)
        ensures
            match absorb(old(self).acc(), item.entry(), line as int) {
                Ok(a) => r is Ok && final(self).acc() == a,
                Err((l, m)) => r matches Err(e) && e.line == l && e.reason@ == m,
            },
    {
        match item {
            Item::Skip => {},
            Item::Header(name) => {
                self.section = name;
            },
            Item::Bad(reason) => {
                return Err(ParseError { line, reason });
            },
            Item::Id(v) => {
                self.id = Some(v);
            },
            Item::Version(v) => {
                self.version = Some(v);
            },
            Item::Engine(e) => {
                self.engine = Some(e);
            },
            Item::Domains(d) => {
                self.domains = Some(d);
            },
            Item::Ticks(n) => {
                self.ticks = Some(n);
            },
            Item::Rule(k, n) => {
                if k < self.rules.len() {
                    self.rules.set(k, Some(n));
                }
            },
            Item::Living(k, n) => {
                if k < self.living.len() {
                    self.living.set(k, Some(n));
                }
            },
            Item::Region(x) => {
                self.regions.push(x);
            },
            Item::Organism(x) => {
                self.organisms.push(x);
            },
            Item::Containment(x) => {
                self.containment.push(x);
            },
            Item::Adjacency(x) => {
                self.adjacency.push(x);
            },
            Item::Exposure(x) => {
                self.exposure.push(x);
            },
            Item::Position(x) => {
                self.positions.push(x);
            },
            Item::Portal(x) => {
                self.portals.push(x);
            },
            Item::Danger(x) => {
                self.portal_danger.push(x);
            },
            Item::Material(m) => {
                let ghost before = self.materials@;
                let ghost pair = (m.id, m.properties@);
                self.materials.push(m);
                assert(material_pairs(self.materials@) =~= material_pairs(before).push(pair));
            },
            Item::MadeOf(links) => {
                let mut links = links;
                self.made_of.append(&mut links);
            },
        }
        Ok(())
    }
}

/// Reading a file whose first lines are refused is refused there.
pub proof fn lemma_scan_stays_failed(lines: Seq<Seq<u8>>, n: int)
    requires
        0 <= n <= lines.len(),
        scan(lines.take(n)) is Err,
    ensures
        scan(lines) == scan(lines.take(n)),
    decreases lines.len() - n,
{
    if n == lines.len() {
        assert(lines.take(n) =~= lines);
    } else {
        assert(lines.take(n + 1).drop_last() =~= lines.take(n));
        lemma_scan_stays_failed(lines, n + 1);
    }
}

/// With the first `n` values all set, none of them is the first unset.
pub proof fn lemma_first_unset_all_set(vals: Seq<Option<i64>>, n: nat)
    requires
        forall|j: int| 0 <= j < n ==> vals[j] is Some,
    ensures
        first_unset(vals, n) is None,
    decreases n,
{
    if n > 0 {
        lemma_first_unset_all_set(vals, (n - 1) as nat);
    }
}

/// The first unset value, below `n`, is the one before which all are set.
pub proof fn lemma_first_unset_found(vals: Seq<Option<i64>>, k: int, n: nat)
    requires
        0 <= k < n,
        vals[k] is None,
        forall|j: int| 0 <= j < k ==> vals[j] is Some,
    ensures
        first_unset(vals, n) == Some(k),
    decreases n,
{
    if n == k + 1 {
        lemma_first_unset_all_set(vals, k as nat);
    } else {
        lemma_first_unset_found(vals, k, (n - 1) as nat);
    }
}

/// When none of the first `n` values is the first unset, all of them are set.
pub proof fn lemma_first_unset_none(vals: Seq<Option<i64>>, n: nat)
    requires
        first_unset(vals, n) is None,
    ensures
        forall|j: int| 0 <= j < n ==> (#[trigger] vals[j]) is Some,
    decreases n,
{
    if n > 0 {
        lemma_first_unset_none(vals, (n - 1) as nat);
    }
}

/// A world file never gets a silent default: it reads successfully only when it declares
/// every manifest field and every required physical rule itself, and either declares all
/// the living rules or none.
pub proof fn law_no_silent_defaults(text: Seq<u8>)
    ensures
        world_spec(text) matches Ok(acc) ==> {
            &&& acc.id is Some
            &&& acc.version is Some
            &&& acc.engine is Some
            &&& acc.domains is Some
            &&& acc.ticks is Some
            &&& forall|k: int| 0 <= k < 12 ==> (#[trigger] acc.rules[k]) is Some
            &&& (forall|k: int| 0 <= k < 3 ==> (#[trigger] acc.living[k]) is None) || (forall|k: int|
                0 <= k < 3 ==> (#[trigger] acc.living[k]) is Some)
        },
{
    if let Ok(acc) = world_spec(text) {
        lemma_first_unset_none(acc.rules, 12);
        if !(acc.living[0] is None && acc.living[1] is None && acc.living[2] is None) {
            lemma_first_unset_none(acc.living, 3);
        } else {
            assert forall|k: int| 0 <= k < 3 implies (#[trigger] acc.living[k]) is None by {
                if k == 1 {
                } else if k == 2 {
                }
            }
        }
    }
}

/// The refusal for a missing signed physical rule, as text.
fn rule_missing_text(k: usize) -> (r: String)
    requires
        k < 12,
    ensures
        r@ == rule_missing(k as int),
{
    let t = if k == 0 {
        "missing required field rules.physical.diurnal_amplitude_centi_c"
    } else if k == 1 {
        "missing required field rules.physical.weather_max_swing_centi_c"
    } else if k == 2 {
        "missing required field rules.physical.illumination_peak"
    } else if k == 3 {
        "missing required field rules.physical.humidity_baseline"
    } else if k == 4 {
        "missing required field rules.physical.humidity_swing"
    } else if k == 5 {
        "missing required field rules.physical.humidity_drying_divisor"
    } else if k == 6 {
        "missing required field rules.physical.pressure_sea_level"
    } else if k == 7 {
        "missing required field rules.physical.pressure_elevation_factor"
    } else if k == 8 {
        "missing required field rules.physical.pressure_weather_swing"
    } else if k == 9 {
        "missing required field rules.physical.pressure_settle_divisor"
    } else if k == 10 {
        "missing required field rules.physical.wind_gradient_divisor"
    } else {
        "missing required field rules.physical.fall_danger_per_meter"
    };
    t.to_owned()
}

/// The refusal for a missing living rule, as text.
fn living_missing_text(k: usize) -> (r: String)
    requires
        k < 3,
    ensures
        r@ == living_missing(k as int),
{
    let t = if k == 0 {
        "missing required field rules.living.set_point_centi_c"
    } else if k == 1 {
        "missing required field rules.living.warm_response"
    } else {
        "missing required field rules.living.cold_response"
    };
    t.to_owned()
}

/// A refusal for a missing field.
fn missing(reason: &str) -> (e: ParseError)
    ensures
        e.line == 0,
        e.reason@ == reason@,
{
    ParseError { line: 0, reason: reason.to_owned() }
}

/// The index of the first unset value among the first `n`, checked in order.
fn unset_among(vals: &Vec<Option<i64>>, n: usize) -> (r: Option<usize>)
    requires
        n <= vals@.len(),
    ensures
        match first_unset(vals@, n as nat) {
            Some(k) => r == Some(k as usize) && 0 <= k < n,
            None => r is None && forall|j: int| 0 <= j < n ==> (#[trigger] vals@[j]) is Some,
        },
{
    let mut k: usize = 0;
    while k < n
        invariant
            k <= n <= vals@.len(),
            forall|j: int| 0 <= j < k ==> (#[trigger] vals@[j]) is Some,
        decreases n - k,
    {
        if vals[k].is_none() {
            proof {
                lemma_first_unset_found(vals@, k as int, n as nat);
            }
            return Some(k);
        }
        k = k + 1;
    }
    proof {
        lemma_first_unset_all_set(vals@, n as nat);
    }
    None
}

/// The package that complete declarations describe, or the first required field missing.
fn finish(d: Draft) -> (r: Result<WorldPackage, ParseError>)
    requires
        d.rules@.len() == 13,
        d.living@.len() == 3,
    ensures
        match first_missing(d.acc()) {
            Some(m) => r matches Err(e) && e.line == 0 && e.reason@ == m,
            None => r matches Ok(p) && package_matches(p, d.acc()),
        },
{
    let ghost acc = d.acc();
    let Draft {
        section: _,
        id,
        version,
        engine,
        domains,
        ticks,
        rules,
        living,
        regions,
        organisms,
        containment,
        adjacency,
        exposure,
        positions,
        portals,
        portal_danger,
        materials,
        made_of,
    } = d;
    let id = match id {
        Some(v) => v,
        None => {
            return Err(missing("missing required field manifest.id"));
        },
    };
    let version = match version {
        Some(v) => v,
        None => {
            return Err(missing("missing required field manifest.version"));
        },
    };
    let engine = match engine {
        Some(v) => v,
        None => {
            return Err(missing("missing required field manifest.engine"));
        },
    };
    let domains = match domains {
        Some(v) => v,
        None => {
            return Err(missing("missing required field manifest.domains"));
        },
    };
    let ticks_per_day = match ticks {
        Some(v) => v,
        None => {
            return Err(missing("missing required field rules.physical.ticks_per_day"));
        },
    };
    if let Some(k) = unset_among(&rules, 12) {
        return Err(ParseError { line: 0, reason: rule_missing_text(k) });
    }
    let living_rules = if living[0].is_none() && living[1].is_none() && living[2].is_none() {
        None
    } else {
        if let Some(k) = unset_among(&living, 3) {
            return Err(ParseError { line: 0, reason: living_missing_text(k) });
        }
        Some(
            LivingRules {
                set_point_centi_c: living[0].unwrap(),
                warm_response: living[1].unwrap(),
                cold_response: living[2].unwrap(),
            },
        )
    };
    let physical_rules = PhysicalRules {
        ticks_per_day,
        diurnal_amplitude_centi_c: rules[0].unwrap(),
        weather_max_swing_centi_c: rules[1].unwrap(),
        illumination_peak: rules[2].unwrap(),
        humidity_baseline: rules[3].unwrap(),
        humidity_swing: rules[4].unwrap(),
        humidity_drying_divisor: rules[5].unwrap(),
        pressure_sea_level: rules[6].unwrap(),
        pressure_elevation_factor: rules[7].unwrap(),
        pressure_weather_swing: rules[8].unwrap(),
        pressure_settle_divisor: rules[9].unwrap(),
        wind_gradient_divisor: rules[10].unwrap(),
        fall_danger_per_meter: rules[11].unwrap(),
        thermal_mass_reference: rules[12],
    };
    let mut names: Vec<String> = Vec::new();
    let mut i: usize = 0;
    while i < domains.len()
        invariant
            i <= domains@.len(),
            names@.len() == i,
            forall|j: int| 0 <= j < i ==> (#[trigger] names@[j])@ == utf8_text(domains@[j]@),
        decreases domains.len() - i,
    {
        names.push(text_of(domains[i].as_slice()));
        i = i + 1;
    }
    let p = WorldPackage {
        manifest: Manifest { id: text_of(id.as_slice()), version, engine, domains: names },
        physical_rules,
        living_rules,
        regions,
        organisms,
        containment,
        adjacency,
        exposure,
        positions,
        portals,
        portal_danger,
        materials,
        made_of,
    };
    assert(acc.rules =~= seq![
        Some(p.physical_rules.diurnal_amplitude_centi_c),
        Some(p.physical_rules.weather_max_swing_centi_c),
        Some(p.physical_rules.illumination_peak),
        Some(p.physical_rules.humidity_baseline),
        Some(p.physical_rules.humidity_swing),
        Some(p.physical_rules.humidity_drying_divisor),
        Some(p.physical_rules.pressure_sea_level),
        Some(p.physical_rules.pressure_elevation_factor),
        Some(p.physical_rules.pressure_weather_swing),
        Some(p.physical_rules.pressure_settle_divisor),
        Some(p.physical_rules.wind_gradient_divisor),
        Some(p.physical_rules.fall_danger_per_meter),
        p.physical_rules.thermal_mass_reference,
    ]);
    match p.living_rules {
        None => assert(acc.living =~= seq![None::<i64>, None, None]),
        Some(l) => assert(acc.living =~= seq![
            Some(l.set_point_centi_c),
            Some(l.warm_response),
            Some(l.cold_response),
        ]),
    }
    Ok(p)
}

/// Parse a world file into a [`WorldPackage`].
///
/// Recognised sections: `[manifest]`, `[rules.physical]`, `[rules.living]`, `[regions]`
/// (`region_id = temperature[, elevation]`), `[organisms]` (`organism_id = region_id,
/// body_heat`), `[containment]` (`child_id = parent_id`), `[adjacency]`, `[exposure]`,
/// `[positions]`, `[portals]`, `[portal_danger]`, `[materials]` (`material_id =
/// property:value, ...`), and `[made_of]` (`object_id = material_id[, ...]`). Blank lines
/// and `#` comments are ignored. A missing required field is an error: the loader never
/// fabricates defaults.
pub fn parse_world(text: &str) -> (r: Result<WorldPackage, ParseError>)
    ensures
        match world_spec(text.spec_bytes()) {
            Ok(acc) => r matches Ok(p) && package_matches(p, acc),
            Err((line, reason)) => r matches Err(e) && e.line == line && e.reason@ == reason,
        },
{
    let s = text.as_bytes();
    assert(s@.subrange(0, s@.len() as int) =~= s@);
    let lines = split_spans(s, 0, s.len(), 0x0au8);
    let ghost ls = split(s@, 0x0au8);
    let mut d = Draft::new();
    let mut i: usize = 0;
    while i < lines.len()
        invariant
            i <= lines.len(),
            lines@.len() == ls.len(),
            ls == split(s@, 0x0au8),
            s@ == text.spec_bytes(),
            forall|j: int|
                0 <= j < lines@.len() ==> (#[trigger] lines@[j]).0 <= lines@[j].1 <= s.len()
                    && s@.subrange(lines@[j].0 as int, lines@[j].1 as int) == ls[j],
            d.rules@.len() == 13,
            d.living@.len() == 3,
            scan(ls.take(i as int)) == Ok::<Acc, (int, Seq<char>)>(d.acc()),
        decreases lines.len() - i,
    {
        let (lo, hi) = lines[i];
        assert(ls.take(i + 1).drop_last() =~= ls.take(i as int));
        assert(ls.take(i + 1).last() == ls[i as int]);
        let item = line_item(s, lo, hi, &d.section);
        match d.absorb_item(item, i + 1) {
            Err(e) => {
                proof {
                    lemma_scan_stays_failed(ls, i + 1);
                }
                return Err(e);
            },
            Ok(()) => {},
        }
        i = i + 1;
    }
    assert(ls.take(i as int) =~= ls);
    finish(d)
}

/// A message naming some bytes by their debug rendering.
pub open spec fn quote(prefix: &str, b: Seq<u8>) -> Seq<char> {
    prefix@ + debug_text(utf8_text(b))
}

/// The reason a field that should hold a number is refused.
pub open spec fn not_a_number(b: Seq<u8>) -> Seq<char> {
    quote("expected a number, got ", b)
}

/// What one line of a world file declares, read under the section it stands in.
pub enum Entry {
    /// Nothing: a blank or comment-only line.
    Skip,
    /// A section header, with its trimmed name.
    Header(Seq<u8>),
    /// A line the format refuses, and why.
    Bad(Seq<char>),
    /// The manifest id.
    Id(Seq<u8>),
    /// The manifest version.
    Version(Version),
    /// The manifest engine range.
    Engine(EngineReq),
    /// The manifest domains.
    Domains(Seq<Seq<u8>>),
    /// The physical rule `ticks_per_day`.
    Ticks(u64),
    /// The physical rule at an index of [`physical_rule_index`].
    Rule(int, i64),
    /// The living rule at an index of [`living_rule_index`].
    Living(int, i64),
    /// A region.
    Region(RegionSpec),
    /// An organism.
    Organism(OrganismSpec),
    /// A containment link.
    Containment(ContainmentSpec),
    /// An adjacency edge.
    Adjacency(AdjacencySpec),
    /// A region's exposure.
    Exposure(ExposureSpec),
    /// An entity's position.
    Position(PositionSpec),
    /// A portal.
    Portal(PortalSpec),
    /// A portal's pinned danger.
    Danger(PortalDangerSpec),
    /// A material and its properties.
    Material(u64, Seq<(MaterialProperty, i64)>),
    /// An object's composition links.
    MadeOf(Seq<MadeOfSpec>),
}

/// The part of a raw line before any `#` comment.
pub open spec fn uncommented(raw: Seq<u8>) -> Seq<u8> {
    match find(raw, 0x23u8) {
        Some(k) => if 0 <= k <= raw.len() {
            raw.take(k)
        } else {
            raw
        },
        None => raw,
    }
}

/// What a raw line declares under `section`.
pub open spec fn line_entry(section: Seq<u8>, raw: Seq<u8>) -> Entry {
    let c = trim(uncommented(raw));
    if c.len() == 0 {
        Entry::Skip
    } else if c.len() >= 2 && c[0] == 0x5bu8 && c.last() == 0x5du8 {
        Entry::Header(trim(c.subrange(1, c.len() - 1)))
    } else {
        match find(c, 0x3du8) {
            None => Entry::Bad("expected `key = value`"@),
            Some(k) => if !(0 <= k < c.len()) {
                Entry::Bad("expected `key = value`"@)
            } else {
                let key = trim(c.take(k));
                let value = trim(c.skip(k + 1));
                if key.len() == 0 {
                    Entry::Bad("empty key"@)
                } else {
                    pair_entry(section, key, value)
                }
            },
        }
    }
}

/// What a `key = value` pair declares under `section`.
#[verifier::opaque]
pub open spec fn pair_entry(section: Seq<u8>, key: Seq<u8>, value: Seq<u8>) -> Entry {
    if section == "manifest".spec_bytes() {
        manifest_entry(key, value)
    } else if section == "rules.physical".spec_bytes() {
        physical_entry(key, value)
    } else if section == "rules.living".spec_bytes() {
        living_entry(key, value)
    } else if section == "regions".spec_bytes() {
        region_entry(key, value)
    } else if section == "organisms".spec_bytes() {
        organism_entry(key, value)
    } else if section == "containment".spec_bytes() {
        match (u64_of(key), u64_of(value)) {
            (None, _) => Entry::Bad(not_a_number(key)),
            (_, None) => Entry::Bad(not_a_number(value)),
            (Some(child_id), Some(parent_id)) => Entry::Containment(ContainmentSpec { child_id, parent_id }),
        }
    } else if section == "adjacency".spec_bytes() {
        match (u64_of(key), u64_of(value)) {
            (None, _) => Entry::Bad(not_a_number(key)),
            (_, None) => Entry::Bad(not_a_number(value)),
            (Some(a), Some(b)) => Entry::Adjacency(AdjacencySpec { a, b }),
        }
    } else if section == "exposure".spec_bytes() {
        match (u64_of(key), i64_of(value)) {
            (None, _) => Entry::Bad(not_a_number(key)),
            (_, None) => Entry::Bad(not_a_number(value)),
            (Some(region_id), Some(exposure)) => Entry::Exposure(ExposureSpec { region_id, exposure }),
        }
    } else if section == "positions".spec_bytes() {
        position_entry(key, value)
    } else if section == "portals".spec_bytes() {
        portal_entry(key, value)
    } else if section == "portal_danger".spec_bytes() {
        match (u64_of(key), i64_of(value)) {
            (None, _) => Entry::Bad(not_a_number(key)),
            (_, None) => Entry::Bad(not_a_number(value)),
            (Some(portal_id), Some(danger)) => Entry::Danger(PortalDangerSpec { portal_id, danger }),
        }
    } else if section == "materials".spec_bytes() {
        material_entry(key, value)
    } else if section == "made_of".spec_bytes() {
        made_of_entry(key, value)
    } else if section.len() == 0 {
        Entry::Bad("key/value appears before any [section]"@)
    } else {
        Entry::Bad(quote("unknown section ", section))
    }
}

/// What a material line declares: `property:value, ...`.
pub open spec fn material_entry(key: Seq<u8>, value: Seq<u8>) -> Entry {
    match u64_of(key) {
        None => Entry::Bad(not_a_number(key)),
        Some(id) => match material_properties(split(value, 0x2cu8)) {
            Err(r) => Entry::Bad(r),
            Ok(props) => Entry::Material(id, props),
        },
    }
}

/// What a made-of line declares: `material_id[, ...]`.
pub open spec fn made_of_entry(key: Seq<u8>, value: Seq<u8>) -> Entry {
    match u64_of(key) {
        None => Entry::Bad(not_a_number(key)),
        Some(object_id) => match material_links(object_id, split(value, 0x2cu8)) {
            Err(r) => Entry::Bad(r),
            Ok(links) => Entry::MadeOf(links),
        },
    }
}

/// The trimmed, non-empty pieces of a split list, in order.
pub open spec fn nonempty_trimmed(ps: Seq<Seq<u8>>) -> Seq<Seq<u8>>
    decreases ps.len(),
{
    if ps.len() == 0 {
        Seq::empty()
    } else {
        let r = nonempty_trimmed(ps.drop_last());
        if trim(ps.last()).len() == 0 {
            r
        } else {
            r.push(trim(ps.last()))
        }
    }
}

/// What a manifest line declares.
pub open spec fn manifest_entry(key: Seq<u8>, value: Seq<u8>) -> Entry {
    if key == "id".spec_bytes() {
        Entry::Id(value)
    } else if key == "version".spec_bytes() {
        match version_spec(value) {
            Some(v) => Entry::Version(v),
            None => Entry::Bad(quote("invalid version: ", value)),
        }
    } else if key == "engine".spec_bytes() {
        match engine_spec(value) {
            Ok(r) => Entry::Engine(r),
            Err(Some(bad)) => Entry::Bad(quote("invalid version: ", bad)),
            Err(None) => Entry::Bad(quote("invalid version: ", value)),
        }
    } else if key == "domains".spec_bytes() {
        Entry::Domains(nonempty_trimmed(split(value, 0x2cu8)))
    } else {
        Entry::Bad(quote("unknown manifest key ", key))
    }
}

/// The index of a signed physical rule by its name; `ticks_per_day` is read on its own.
pub open spec fn physical_rule_index(key: Seq<u8>) -> Option<int> {
    if key == "diurnal_amplitude_centi_c".spec_bytes() {
        Some(0)
    } else if key == "weather_max_swing_centi_c".spec_bytes() {
        Some(1)
    } else if key == "illumination_peak".spec_bytes() {
        Some(2)
    } else if key == "humidity_baseline".spec_bytes() {
        Some(3)
    } else if key == "humidity_swing".spec_bytes() {
        Some(4)
    } else if key == "humidity_drying_divisor".spec_bytes() {
        Some(5)
    } else if key == "pressure_sea_level".spec_bytes() {
        Some(6)
    } else if key == "pressure_elevation_factor".spec_bytes() {
        Some(7)
    } else if key == "pressure_weather_swing".spec_bytes() {
        Some(8)
    } else if key == "pressure_settle_divisor".spec_bytes() {
        Some(9)
    } else if key == "wind_gradient_divisor".spec_bytes() {
        Some(10)
    } else if key == "fall_danger_per_meter".spec_bytes() {
        Some(11)
    } else if key == "thermal_mass_reference".spec_bytes() {
        Some(12)
    } else {
        None
    }
}

/// The index of a living rule by its name.
pub open spec fn living_rule_index(key: Seq<u8>) -> Option<int> {
    if key == "set_point_centi_c".spec_bytes() {
        Some(0)
    } else if key == "warm_response".spec_bytes() {
        Some(1)
    } else if key == "cold_response".spec_bytes() {
        Some(2)
    } else {
        None
    }
}

/// What a physical rule line declares.
pub open spec fn physical_entry(key: Seq<u8>, value: Seq<u8>) -> Entry {
    if key == "ticks_per_day".spec_bytes() {
        match u64_of(value) {
            Some(n) => Entry::Ticks(n),
            None => Entry::Bad(not_a_number(value)),
        }
    } else {
        match physical_rule_index(key) {
            Some(k) => match i64_of(value) {
                Some(n) => Entry::Rule(k, n),
                None => Entry::Bad(not_a_number(value)),
            },
            None => Entry::Bad(quote("unknown physical rule ", key)),
        }
    }
}

/// What a living rule line declares.
pub open spec fn living_entry(key: Seq<u8>, value: Seq<u8>) -> Entry {
    match living_rule_index(key) {
        Some(k) => match i64_of(value) {
            Some(n) => Entry::Living(k, n),
            None => Entry::Bad(not_a_number(value)),
        },
        None => Entry::Bad(quote("unknown living rule ", key)),
    }
}

/// What a region line declares: `temperature[, elevation]`.
pub open spec fn region_entry(key: Seq<u8>, value: Seq<u8>) -> Entry {
    let ps = split(value, 0x2cu8);
    match u64_of(key) {
        None => Entry::Bad(not_a_number(key)),
        Some(id) => match i64_of(ps[0]) {
            None => Entry::Bad(not_a_number(ps[0])),
            Some(temperature_centi_c) => if ps.len() == 1 {
                Entry::Region(RegionSpec { id, temperature_centi_c, elevation: None })
            } else {
                match i64_of(ps[1]) {
                    None => Entry::Bad(not_a_number(ps[1])),
                    Some(e) => if ps.len() > 2 {
                        Entry::Bad("expected `temperature` or `temperature, elevation`"@)
                    } else {
                        Entry::Region(RegionSpec { id, temperature_centi_c, elevation: Some(e) })
                    },
                }
            },
        },
    }
}

/// What an organism line declares: `region_id, body_heat`.
pub open spec fn organism_entry(key: Seq<u8>, value: Seq<u8>) -> Entry {
    let ps = split(value, 0x2cu8);
    match u64_of(key) {
        None => Entry::Bad(not_a_number(key)),
        Some(id) => if ps.len() < 2 {
            Entry::Bad("expected `region_id, body_heat`"@)
        } else if ps.len() > 2 {
            Entry::Bad("expected exactly `region_id, body_heat`"@)
        } else {
            match (u64_of(ps[0]), i64_of(ps[1])) {
                (None, _) => Entry::Bad(not_a_number(ps[0])),
                (_, None) => Entry::Bad(not_a_number(ps[1])),
                (Some(region_id), Some(body_heat_centi_c)) => Entry::Organism(
                    OrganismSpec { id, region_id, body_heat_centi_c },
                ),
            }
        },
    }
}

/// What a position line declares: `x, y[, z]`.
pub open spec fn position_entry(key: Seq<u8>, value: Seq<u8>) -> Entry {
    let ps = split(value, 0x2cu8);
    match u64_of(key) {
        None => Entry::Bad(not_a_number(key)),
        Some(entity_id) => match i64_of(ps[0]) {
            None => Entry::Bad(not_a_number(ps[0])),
            Some(x) => if ps.len() < 2 {
                Entry::Bad("expected `x, y[, z]`"@)
            } else {
                match i64_of(ps[1]) {
                    None => Entry::Bad(not_a_number(ps[1])),
                    Some(y) => if ps.len() == 2 {
                        Entry::Position(PositionSpec { entity_id, x, y, z: None })
                    } else {
                        match i64_of(ps[2]) {
                            None => Entry::Bad(not_a_number(ps[2])),
                            Some(z) => if ps.len() > 3 {
                                Entry::Bad("expected `x, y` or `x, y, z`"@)
                            } else {
                                Entry::Position(PositionSpec { entity_id, x, y, z: Some(z) })
                            },
                        }
                    },
                }
            },
        },
    }
}

/// What a portal line declares: `host, dest, x, y[, z]`.
pub open spec fn portal_entry(key: Seq<u8>, value: Seq<u8>) -> Entry {
    let ps = split(value, 0x2cu8);
    match u64_of(key) {
        None => Entry::Bad(not_a_number(key)),
        Some(portal_id) => match u64_of(ps[0]) {
            None => Entry::Bad(not_a_number(ps[0])),
            Some(host_region) => if ps.len() < 2 {
                Entry::Bad("expected `host, dest, x, y[, z]` (dest)"@)
            } else {
                match u64_of(ps[1]) {
                    None => Entry::Bad(not_a_number(ps[1])),
                    Some(dest_region) => if ps.len() < 3 {
                        Entry::Bad("expected `host, dest, x, y[, z]` (x)"@)
                    } else {
                        match i64_of(ps[2]) {
                            None => Entry::Bad(not_a_number(ps[2])),
                            Some(x) => if ps.len() < 4 {
                                Entry::Bad("expected `host, dest, x, y[, z]` (y)"@)
                            } else {
                                match i64_of(ps[3]) {
                                    None => Entry::Bad(not_a_number(ps[3])),
                                    Some(y) => if ps.len() == 4 {
                                        Entry::Portal(
                                            PortalSpec { portal_id, host_region, dest_region, x, y, z: None },
                                        )
                                    } else {
                                        match i64_of(ps[4]) {
                                            None => Entry::Bad(not_a_number(ps[4])),
                                            Some(z) => if ps.len() > 5 {
                                                Entry::Bad(
                                                    "expected `host, dest, x, y` or `host, dest, x, y, z`"@,
                                                )
                                            } else {
                                                Entry::Portal(
                                                    PortalSpec {
                                                        portal_id,
                                                        host_region,
                                                        dest_region,
                                                        x,
                                                        y,
                                                        z: Some(z),
                                                    },
                                                )
                                            },
                                        }
                                    },
                                }
                            },
                        }
                    },
                }
            },
        },
    }
}

/// The property a material property name denotes, if any.
pub open spec fn property_named(name: Seq<u8>) -> Option<MaterialProperty> {
    if name == "density".spec_bytes() {
        Some(MaterialProperty::Density)
    } else if name == "hardness".spec_bytes() {
        Some(MaterialProperty::Hardness)
    } else if name == "thermal_capacity".spec_bytes() {
        Some(MaterialProperty::ThermalCapacity)
    } else if name == "flammability".spec_bytes() {
        Some(MaterialProperty::Flammability)
    } else if name == "conductivity".spec_bytes() {
        Some(MaterialProperty::Conductivity)
    } else if name == "toxicity".spec_bytes() {
        Some(MaterialProperty::Toxicity)
    } else {
        None
    }
}

/// What one `property:value` piece of a material line declares: nothing (an empty piece),
/// a property and its value, or why the piece is refused.
pub open spec fn property_piece(piece: Seq<u8>) -> Result<Option<(MaterialProperty, i64)>, Seq<char>> {
    let p = trim(piece);
    if p.len() == 0 {
        Ok(None)
    } else {
        match find(p, 0x3au8) {
            None => Err("expected `property:value`"@),
            Some(c) => if !(0 <= c < p.len()) {
                Err("expected `property:value`"@)
            } else {
                let name = trim(p.take(c));
                let raw = trim(p.skip(c + 1));
                match property_named(name) {
                    None => Err(quote("unknown material property ", name)),
                    Some(prop) => match i64_of(raw) {
                        None => Err(not_a_number(raw)),
                        Some(v) => Ok(Some((prop, v))),
                    },
                }
            },
        }
    }
}

/// The properties a material line declares, in order, or the first refusal.
pub open spec fn material_properties(pieces: Seq<Seq<u8>>) -> Result<Seq<(MaterialProperty, i64)>, Seq<char>>
    decreases pieces.len(),
{
    if pieces.len() == 0 {
        Ok(Seq::empty())
    } else {
        match material_properties(pieces.drop_last()) {
            Err(r) => Err(r),
            Ok(props) => match property_piece(pieces.last()) {
                Err(r) => Err(r),
                Ok(None) => Ok(props),
                Ok(Some(p)) => Ok(props.push(p)),
            },
        }
    }
}

/// The composition links a made-of line declares, in order, or the first refusal.
pub open spec fn material_links(object_id: u64, pieces: Seq<Seq<u8>>) -> Result<Seq<MadeOfSpec>, Seq<char>>
    decreases pieces.len(),
{
    if pieces.len() == 0 {
        Ok(Seq::empty())
    } else {
        match material_links(object_id, pieces.drop_last()) {
            Err(r) => Err(r),
            Ok(links) => match u64_of(pieces.last()) {
                None => Err(not_a_number(pieces.last())),
                Some(material_id) => Ok(links.push(MadeOfSpec { object_id, material_id })),
            },
        }
    }
}

/// Once the material properties of a prefix are refused, the whole line is.
pub proof fn lemma_properties_stay_failed(pieces: Seq<Seq<u8>>, n: int)
    requires
        0 <= n <= pieces.len(),
        material_properties(pieces.take(n)) is Err,
    ensures
        material_properties(pieces) == material_properties(pieces.take(n)),
    decreases pieces.len() - n,
{
    if n == pieces.len() {
        assert(pieces.take(n) =~= pieces);
    } else {
        assert(pieces.take(n + 1).drop_last() =~= pieces.take(n));
        lemma_properties_stay_failed(pieces, n + 1);
    }
}

/// Once the composition links of a prefix are refused, the whole line is.
pub proof fn lemma_links_stay_failed(object_id: u64, pieces: Seq<Seq<u8>>, n: int)
    requires
        0 <= n <= pieces.len(),
        material_links(object_id, pieces.take(n)) is Err,
    ensures
        material_links(object_id, pieces) == material_links(object_id, pieces.take(n)),
    decreases pieces.len() - n,
{
    if n == pieces.len() {
        assert(pieces.take(n) =~= pieces);
    } else {
        assert(pieces.take(n + 1).drop_last() =~= pieces.take(n));
        lemma_links_stay_failed(object_id, pieces, n + 1);
    }
}

} // verus!
