//! The kernel: the law of committed reality, made executable.

pub mod domain;
pub mod events;
pub mod fact;
pub mod hash;
pub mod hierarchy;
pub mod identity;
pub mod order;
pub mod proposal;
pub mod rng;
pub mod scheduler;
pub mod store;
pub mod system;
pub mod tick;
pub mod triples;
pub mod value;
