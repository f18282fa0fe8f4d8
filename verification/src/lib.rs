//! A particle-life simulation engine: typed particles move under pairwise,
//! type-dependent attraction/repulsion rules. All quantities are held in a
//! fixed-point representation (see `fixed`), so the force law, the spatial
//! index and the integration step are exact integer computations with
//! verified contracts. Random draws enter either through thin wrappers over
//! the `rand` crate (uniform integer draws) or as plain arguments supplied
//! by the caller (normally distributed draws).

pub mod fixed;
pub mod params;
pub mod particles;
pub mod rng;
pub mod universe;
