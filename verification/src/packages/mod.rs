//! World packages: the world-file format, versions, and the loader.

pub mod line;
pub mod loader;
pub mod model;
pub mod parse;
pub mod text;
pub mod version;

pub use loader::{engine_version, load, LoadError, LoadedWorld};
pub use model::{Manifest, PhysicalRules, RegionSpec, WorldPackage};
pub use parse::{parse_world, ParseError};
pub use version::{EngineReq, Version, VersionParseError};
