//! The count settings of a flock simulation and their validation.
use vstd::math::{max, min};
use vstd::prelude::*;

verus! {

/// Fewest agents a simulation runs with.
pub const MIN_AGENTS: usize = 1;

/// Most agents a simulation runs with.
pub const MAX_AGENTS: usize = 50_000;

/// Most predators a simulation runs with.
pub const MAX_PREDATORS: usize = 32;

/// Most obstacles a simulation runs with.
pub const MAX_OBSTACLES: usize = 128;

/// Longest trail, in positions, kept behind an agent.
pub const MAX_TRAIL_LENGTH: usize = 96;

/// `value` brought into `[lo, hi]`.
pub open spec fn clamp_spec(value: int, lo: int, hi: int) -> int {
    if value < lo {
        lo
    } else if value > hi {
        hi
    } else {
        value
    }
}

fn clamp_count(value: usize, lo: usize, hi: usize) -> (r: usize)
    requires
        lo <= hi,
    ensures
        r == clamp_spec(value as int, lo as int, hi as int),
{
    if value < lo {
        lo
    } else if value > hi {
        hi
    } else {
        value
    }
}

/// How many agents, predators, obstacles and trail positions a simulation
/// keeps.
#[derive(Clone, Copy, Debug, PartialEq, Eq)]
pub struct CountSettings {
    pub agent_count: usize,
    pub predator_count: usize,
    pub obstacle_count: usize,
    pub trail_length: usize,
}

impl CountSettings {
    /// Every count within its limits.
    pub open spec fn within_limits(self) -> bool {
        &&& MIN_AGENTS <= self.agent_count <= MAX_AGENTS
        &&& self.predator_count <= MAX_PREDATORS
        &&& self.obstacle_count <= MAX_OBSTACLES
        &&& self.trail_length <= MAX_TRAIL_LENGTH
    }

    /// The settings with each count clamped into its limits.
    pub open spec fn validated_spec(self) -> CountSettings {
        CountSettings {
            agent_count: clamp_spec(self.agent_count as int, MIN_AGENTS as int, MAX_AGENTS as int) as usize,
            predator_count: clamp_spec(self.predator_count as int, 0, MAX_PREDATORS as int) as usize,
            obstacle_count: clamp_spec(self.obstacle_count as int, 0, MAX_OBSTACLES as int) as usize,
            trail_length: clamp_spec(self.trail_length as int, 0, MAX_TRAIL_LENGTH as int) as usize,
        }
    }

    /// The settings with each count clamped into its limits: agents into
    /// `[1, 50000]`, predators into `[0, 32]`, obstacles into `[0, 128]` and
    /// trail length into `[0, 96]`.
    pub fn validated(self) -> (v: CountSettings)
        ensures
            v == self.validated_spec(),
            v.within_limits(),
            v.agent_count == min(max(self.agent_count as int, 1), 50_000),
            v.predator_count == min(self.predator_count as int, 32),
            v.obstacle_count == min(self.obstacle_count as int, 128),
            v.trail_length == min(self.trail_length as int, 96),
    {
        CountSettings {
            agent_count: clamp_count(self.agent_count, MIN_AGENTS, MAX_AGENTS),
            predator_count: clamp_count(self.predator_count, 0, MAX_PREDATORS),
            obstacle_count: clamp_count(self.obstacle_count, 0, MAX_OBSTACLES),
            trail_length: clamp_count(self.trail_length, 0, MAX_TRAIL_LENGTH),
        }
    }
}

impl Default for CountSettings {
    /// 3500 agents, 2 predators, 10 obstacles and trails of 18 positions.
    fn default() -> (s: Self)
        ensures
            s.agent_count == 3_500,
            s.predator_count == 2,
            s.obstacle_count == 10,
            s.trail_length == 18,
    {
        CountSettings { agent_count: 3_500, predator_count: 2, obstacle_count: 10, trail_length: 18 }
    }
}

/// Validation brings each count to the nearest value inside its limits: a
/// count above its limit becomes exactly the limit, a count below becomes
/// the lower limit, and a count inside is kept.
pub proof fn lemma_validated_clamps(s: CountSettings)
    ensures
        s.validated_spec().agent_count == min(max(s.agent_count as int, 1), 50_000),
        s.validated_spec().predator_count == min(s.predator_count as int, 32),
        s.validated_spec().obstacle_count == min(s.obstacle_count as int, 128),
        s.validated_spec().trail_length == min(s.trail_length as int, 96),
{
}

/// Validation changes nothing in settings that are already within limits,
/// so validating twice gives what validating once gives.
pub proof fn lemma_validated_idempotent(s: CountSettings)
    ensures
        s.within_limits() ==> s.validated_spec() == s,
        s.validated_spec().within_limits(),
        s.validated_spec().validated_spec() == s.validated_spec(),
{
}

} // verus!
