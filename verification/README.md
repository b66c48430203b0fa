# Cardinal

A persistent world-simulation engine: committed reality is authoritative, advanced one
deterministic tick at a time through seven ordered stages, and assembled from world
packages that are pure data. The library is written in Verus, and its functions are
verified against their contracts, with two exceptions in `src/packages/text.rs`: `text_of`
and `with_debug` call the standard library (`String::from_utf8_lossy`, and `format!` with
`Debug` on `str`) and are trusted to meet their contracts. What they return is named
(`utf8_text`, `debug_text`) rather than spelled out; the one fact stated about those names
is that valid UTF-8 decodes unchanged.

## Layout

- `src/kernel/` — the law, executable: fact keys and values, the reality store and its
  order-independent digest, seeded random substreams, scoped views, containment
  hierarchies, and the tick (schedule, evaluate, resolve, validate, commit, chronicle).
- `src/physical/` — Physical Reality: composition of competing proposals, space (nested
  positions, portals and reachability), materials, and the environmental systems
  (day/night, weather, humidity, pressure, wind, portal danger).
- `src/living/` — Living Systems: body heat defended against the environment an organism
  lives in, read by published fact-type ids only.
- `src/packages/` — world packages: the world-file format read from its bytes, versions
  and engine ranges, and the loader that turns a package into a running world.
- `src/arith.rs` — saturating and truncating integer helpers shared by the domains.
- `tests/` — scenarios over the public surface; `app/` — the command-line frontend.

Domains never import each other: cross-domain effect happens only through committed facts,
and the packages layer is where both are configured from package data.

The kernel's `System` and `Domain` traits carry specification methods (`declared_id`,
`declared_cadence`, `declared_reads`, `declared_writes`, `evaluated`; `owned`,
`declared_cardinality`, `composed`, `validated`) that name what a system or domain does; the
tick's contract is stated through them, so every domain states its cardinality and
validation rules explicitly. Implementations written outside Verus must still provide these
methods, though they are never called at run time.
