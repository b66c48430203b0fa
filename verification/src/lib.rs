//! Cardinal: a deterministic world-simulation engine whose committed reality is a verified
//! fact store advanced by a seven-stage tick.
//!
//! * [`arith`] — exact fixed-point arithmetic shared by the domains.
//! * [`kernel`] — facts, the reality store, the tick pipeline, deterministic hashing and
//!   random streams.
//! * [`physical`] — the Physical Reality domain: space, connectivity, materials, and the
//!   environmental fields.
//! * [`living`] — the Living Systems domain: body heat defended against the environment.
//! * [`packages`] — the world-file format, versions, and the loader that turns a package
//!   into a running world.

pub mod arith;
pub mod kernel;
pub mod living;
pub mod packages;
pub mod physical;
