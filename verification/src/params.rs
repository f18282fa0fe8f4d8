//! The physics configuration consumed by the engine: plain fixed-point
//! scalars and the wrap flag, together with its validation.

use crate::fixed::{iabs, LIMIT, SCALE};
use vstd::prelude::*;

verus! {

/// Physics parameters, all lengths and coefficients in fixed-point units
/// (see `fixed::SCALE`). `friction` is a fraction of `SCALE`, so `SCALE`
/// means full stop and `0` means no damping.
#[derive(Clone, Copy, Debug, Default)]
pub struct Params {
    pub mean_attraction: i64,
    pub std_attraction: i64,
    pub min_radius_lower: i64,
    pub min_radius_upper: i64,
    pub max_radius_lower: i64,
    pub max_radius_upper: i64,
    pub friction: i64,
    pub wrap: bool,
}

/// Why a configuration was rejected.
#[derive(Clone, Copy, Debug, PartialEq, Eq, Structural)]
pub enum ConfigError {
    /// The standard deviation of the attraction distribution is not positive.
    NonPositiveStd,
    /// A radius range has its lower bound above its upper bound.
    InvertedRange,
    /// A coefficient lies outside the representable range, or the friction
    /// fraction lies outside `[0, SCALE]`.
    OutOfBounds,
}

impl Params {
    /// Both radius ranges are in order.
    pub open spec fn ranges_ordered(self) -> bool {
        &&& self.min_radius_lower <= self.min_radius_upper
        &&& self.max_radius_lower <= self.max_radius_upper
    }

    /// Every coefficient is representable by the engine.
    pub open spec fn in_bounds(self) -> bool {
        &&& iabs(self.mean_attraction as int) <= LIMIT
        &&& self.std_attraction <= LIMIT
        &&& iabs(self.min_radius_lower as int) <= LIMIT
        &&& iabs(self.min_radius_upper as int) <= LIMIT
        &&& iabs(self.max_radius_lower as int) <= LIMIT
        &&& iabs(self.max_radius_upper as int) <= LIMIT
        &&& 0 <= self.friction <= SCALE
    }

    /// A well-formed configuration: positive standard deviation, ordered
    /// radius ranges, representable coefficients.
    pub open spec fn valid(self) -> bool {
        &&& self.std_attraction > 0
        &&& self.ranges_ordered()
        &&& self.in_bounds()
    }

    /// Checks the configuration, failing fast on a malformed one.
    pub fn validate(&self) -> (r: Result<(), ConfigError>)
        ensures
            r is Ok <==> self.valid(),
            self.std_attraction <= 0 ==> r == Result::<(), ConfigError>::Err(
                ConfigError::NonPositiveStd,
            ),
            self.std_attraction > 0 && !self.ranges_ordered() ==> r == Result::<
                (),
                ConfigError,
            >::Err(ConfigError::InvertedRange),
            self.std_attraction > 0 && self.ranges_ordered() && !self.in_bounds() ==> r == Result::<
                (),
                ConfigError,
            >::Err(ConfigError::OutOfBounds),
    {
        if self.std_attraction <= 0 {
            Err(ConfigError::NonPositiveStd)
        } else if self.min_radius_lower > self.min_radius_upper || self.max_radius_lower
            > self.max_radius_upper {
            Err(ConfigError::InvertedRange)
        } else if self.mean_attraction > LIMIT || self.mean_attraction < -LIMIT
            || self.std_attraction > LIMIT || self.min_radius_lower < -LIMIT
            || self.min_radius_upper > LIMIT || self.min_radius_upper < -LIMIT
            || self.min_radius_lower > LIMIT || self.max_radius_lower < -LIMIT
            || self.max_radius_lower > LIMIT || self.max_radius_upper > LIMIT
            || self.max_radius_upper < -LIMIT || self.friction < 0 || self.friction > SCALE {
            Err(ConfigError::OutOfBounds)
        } else {
            Ok(())
        }
    }
}

} // verus!
