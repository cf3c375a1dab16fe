//! The tunable parameters of the behaviors.

use crate::fixed::{in_range, LIMIT};
use vstd::prelude::*;

verus! {

/// For each behavior a switch and a strength, and for the three behaviors
/// that look at neighbors a sensing radius. Strengths and radii are
/// fixed-point numbers.
#[derive(Clone, Copy, Debug, PartialEq, Eq, Structural)]
pub struct BehaviorConfig {
    /// Whether agents head for the pointer.
    pub seek_enabled: bool,
    /// The weight of a request to head for the pointer.
    pub seek_strength: i64,
    /// Whether agents outside the square are sent back.
    pub border_enabled: bool,
    /// The weight of a request to head back to the square.
    pub border_strength: i64,
    /// Whether agents move away from their neighbors.
    pub separation_enabled: bool,
    /// The weight of a request to move away from neighbors.
    pub separation_strength: i64,
    /// How near an agent has to be to be moved away from.
    pub separation_radius: i64,
    /// Whether agents move the way their neighbors move.
    pub alignment_enabled: bool,
    /// The weight of a request to move the way the neighbors move.
    pub alignment_strength: i64,
    /// How near an agent has to be to be moved along with.
    pub alignment_radius: i64,
    /// Whether agents move to where their neighbors are.
    pub cohesion_enabled: bool,
    /// The weight of a request to move to where the neighbors are.
    pub cohesion_strength: i64,
    /// How near an agent has to be to be moved toward.
    pub cohesion_radius: i64,
}

impl BehaviorConfig {
    /// Whether every strength lies within `LIMIT` of zero. A radius may be
    /// any number; one that is not positive senses nothing.
    pub open spec fn wf(&self) -> bool {
        &&& in_range(self.seek_strength as int)
        &&& in_range(self.border_strength as int)
        &&& in_range(self.separation_strength as int)
        &&& in_range(self.alignment_strength as int)
        &&& in_range(self.cohesion_strength as int)
    }

    /// Whether every strength lies within `LIMIT` of zero.
    pub fn is_valid(&self) -> (b: bool)
        ensures
            b == self.wf(),
    {
        strength_is_valid(self.seek_strength) && strength_is_valid(self.border_strength)
            && strength_is_valid(self.separation_strength) && strength_is_valid(
            self.alignment_strength,
        ) && strength_is_valid(self.cohesion_strength)
    }
}

/// Whether a strength lies within `LIMIT` of zero.
pub fn strength_is_valid(strength: i64) -> (b: bool)
    ensures
        b == in_range(strength as int),
{
    -LIMIT <= strength && strength <= LIMIT
}

impl Default for BehaviorConfig {
    /// Every behavior switched on: seeking with strength 0, border avoidance
    /// with strength 4, separation with strength 10 inside a radius of 100,
    /// alignment with strength 2 inside a radius of 100, cohesion with
    /// strength 0.01 inside a radius of 70.
    fn default() -> (config: BehaviorConfig)
        ensures
            config == (BehaviorConfig {
                seek_enabled: true,
                seek_strength: 0,
                border_enabled: true,
                border_strength: 4_000_000,
                separation_enabled: true,
                separation_strength: 10_000_000,
                separation_radius: 100_000_000,
                alignment_enabled: true,
                alignment_strength: 2_000_000,
                alignment_radius: 100_000_000,
                cohesion_enabled: true,
                cohesion_strength: 10_000,
                cohesion_radius: 70_000_000,
            }),
            config.wf(),
    {
        BehaviorConfig {
            seek_enabled: true,
            seek_strength: 0,
            border_enabled: true,
            border_strength: 4_000_000,
            separation_enabled: true,
            separation_strength: 10_000_000,
            separation_radius: 100_000_000,
            alignment_enabled: true,
            alignment_strength: 2_000_000,
            alignment_radius: 100_000_000,
            cohesion_enabled: true,
            cohesion_strength: 10_000,
            cohesion_radius: 70_000_000,
        }
    }
}

} // verus!
