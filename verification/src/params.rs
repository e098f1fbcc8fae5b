//! Engine configuration.

use vstd::prelude::*;

verus! {

/// Immutable configuration of the engine.
#[derive(Clone, Copy, Debug, PartialEq, Eq, Structural)]
pub struct CliqueParams {
    /// Seconds between two blocks.
    pub period: u64,
    /// Number of blocks between two checkpoints.
    pub epoch: u64,
}

impl CliqueParams {
    /// Configuration with the given block period and checkpoint interval.
    pub fn new(period: u64, epoch: u64) -> (params: CliqueParams)
        ensures
            params.period == period,
            params.epoch == epoch,
    {
        CliqueParams { period, epoch }
    }

    /// Configuration from values that a chain specification may leave
    /// out: a value left out is zero.
    pub fn from_optional(period: Option<u64>, epoch: Option<u64>) -> (params: CliqueParams)
        ensures
            params.period == match period {
                Some(p) => p,
                None => 0,
            },
            params.epoch == match epoch {
                Some(e) => e,
                None => 0,
            },
    {
        CliqueParams {
            period: match period {
                Some(p) => p,
                None => 0,
            },
            epoch: match epoch {
                Some(e) => e,
                None => 0,
            },
        }
    }
}

} // verus!
