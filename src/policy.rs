//! The redundancy policy: how many instances a run launches, how many of
//! them must pass, and how many rounds must pass in a row.
use vstd::prelude::*;

verus! {

/// Why a policy was refused.
#[derive(Clone, Copy, Debug, PartialEq, Eq, Structural)]
pub enum PolicyError {
    /// The number of rounds is zero.
    ZeroRounds,
    /// The number of parallel instances is zero.
    ZeroParallel,
    /// The number of required passes is zero.
    ZeroRequiredPasses,
    /// More passes are required than instances are launched.
    RequiredExceedsParallel,
}

/// A policy that was checked.
#[derive(Clone, Copy, Debug, PartialEq, Eq, Structural)]
pub struct Policy {
    /// Instances launched per run.
    pub parallel: usize,
    /// Passes a run needs.
    pub required_passes: usize,
    /// Rounds that must pass, one after the other.
    pub rounds: usize,
}

impl Policy {
    /// `1 <= required_passes <= parallel` and at least one round.
    pub open spec fn valid(&self) -> bool {
        &&& 1 <= self.required_passes <= self.parallel
        &&& 1 <= self.rounds
    }

    /// Checks the three numbers, the rounds first, then the parallel
    /// instances, then the required passes.
    pub fn new(parallel: usize, required_passes: usize, rounds: usize) -> (r: Result<
        Policy,
        PolicyError,
    >)
        ensures
            rounds == 0 ==> r == Err::<Policy, PolicyError>(PolicyError::ZeroRounds),
            rounds > 0 && parallel == 0 ==> r == Err::<Policy, PolicyError>(
                PolicyError::ZeroParallel,
            ),
            rounds > 0 && parallel > 0 && required_passes == 0 ==> r == Err::<Policy, PolicyError>(
                PolicyError::ZeroRequiredPasses,
            ),
            rounds > 0 && required_passes > parallel > 0 ==> r == Err::<Policy, PolicyError>(
                PolicyError::RequiredExceedsParallel,
            ),
            r is Ok <==> (1 <= required_passes <= parallel && 1 <= rounds),
            r matches Ok(p) ==> p.valid() && p == (Policy { parallel, required_passes, rounds }),
    {
        if rounds == 0 {
            Err(PolicyError::ZeroRounds)
        } else if parallel == 0 {
            Err(PolicyError::ZeroParallel)
        } else if required_passes == 0 {
            Err(PolicyError::ZeroRequiredPasses)
        } else if required_passes > parallel {
            Err(PolicyError::RequiredExceedsParallel)
        } else {
            Ok(Policy { parallel, required_passes, rounds })
        }
    }
}

} // verus!
