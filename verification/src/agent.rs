//! The state of one agent, and of a flock.
//!
//! An agent is known by its index in the flock. Agents are never removed or
//! reordered, so the index is a stable identity.

use crate::fixed::{LIMIT, SCALE};
use crate::vec2::{Vec2, Vector};
use vstd::prelude::*;

verus! {

/// The state of one agent, with unbounded integer coordinates.
pub struct AgentState {
    /// Where the agent is.
    pub position: Vector,
    /// How far it moves in one second.
    pub velocity: Vector,
    /// The forces gathered since the last integration.
    pub acceleration: Vector,
    /// The direction whose angle is the agent's orientation.
    pub heading: Vector,
}

impl AgentState {
    /// Whether every coordinate of the state lies within `LIMIT` of zero.
    pub open spec fn in_range(self) -> bool {
        &&& self.position.in_range()
        &&& self.velocity.in_range()
        &&& self.acceleration.in_range()
        &&& self.heading.in_range()
    }
}

/// The heading of an agent that has not moved yet: a quarter turn clockwise
/// from the first axis.
pub open spec fn initial_heading() -> Vector {
    Vector { x: 0, y: -(SCALE as int) }
}

/// The heading that belongs to `velocity`: the velocity turned clockwise by a
/// quarter turn, so that the heading's angle is the velocity's angle less a
/// quarter turn. An agent at rest has no direction of travel and keeps the
/// heading it had.
pub open spec fn heading_for(velocity: Vector, previous: Vector) -> Vector {
    if velocity == Vector::zero() {
        previous
    } else {
        velocity.quarter_turn()
    }
}

/// Whether every agent of a flock is in range.
pub open spec fn flock_in_range(agents: Seq<AgentState>) -> bool {
    forall|i: int| 0 <= i < agents.len() ==> (#[trigger] agents[i]).in_range()
}

/// One agent, with machine coordinates.
#[derive(Clone, Copy, Debug, PartialEq, Eq, Structural)]
pub struct Agent {
    /// Where the agent is.
    pub position: Vec2,
    /// How far it moves in one second.
    pub velocity: Vec2,
    /// The forces gathered since the last integration.
    pub acceleration: Vec2,
    /// The direction whose angle is the agent's orientation.
    pub heading: Vec2,
}

impl View for Agent {
    type V = AgentState;

    open spec fn view(&self) -> AgentState {
        AgentState {
            position: self.position@,
            velocity: self.velocity@,
            acceleration: self.acceleration@,
            heading: self.heading@,
        }
    }
}

impl DeepView for Agent {
    type V = AgentState;

    open spec fn deep_view(&self) -> AgentState {
        self@
    }
}

impl Agent {
    /// An agent with the given motion, if every coordinate lies within
    /// `LIMIT` of zero. Its heading is that of its velocity, or the initial
    /// heading if it is at rest.
    pub fn new(position: Vec2, velocity: Vec2, acceleration: Vec2) -> (made: Option<Agent>)
        ensures
            made is Some <==> position@.in_range() && velocity@.in_range()
                && acceleration@.in_range(),
            made is Some ==> made->0@ == (AgentState {
                position: position@,
                velocity: velocity@,
                acceleration: acceleration@,
                heading: heading_for(velocity@, initial_heading()),
            }),
    {
        if position.is_within(LIMIT) && velocity.is_within(LIMIT) && acceleration.is_within(
            LIMIT,
        ) {
            let heading = heading_of(velocity, Vec2 { x: 0, y: -SCALE });
            Some(Agent { position, velocity, acceleration, heading })
        } else {
            None
        }
    }

    /// Whether every coordinate of the agent lies within `LIMIT` of zero.
    pub fn is_valid(&self) -> (b: bool)
        ensures
            b == self@.in_range(),
    {
        self.position.is_within(LIMIT) && self.velocity.is_within(LIMIT)
            && self.acceleration.is_within(LIMIT) && self.heading.is_within(LIMIT)
    }
}

/// The heading that belongs to `velocity`, given the heading held so far.
/// The negative of the velocity has to fit.
pub fn heading_of(velocity: Vec2, previous: Vec2) -> (heading: Vec2)
    requires
        velocity@.fits(),
    ensures
        heading@ == heading_for(velocity@, previous@),
        velocity@.in_range() && previous@.in_range() ==> heading@.in_range(),
{
    if velocity.x == 0 && velocity.y == 0 {
        previous
    } else {
        velocity.quarter_turn()
    }
}

/// Whether every agent of the flock is in range.
pub fn flock_is_valid(agents: &Vec<Agent>) -> (b: bool)
    ensures
        b == flock_in_range(agents.deep_view()),
{
    let mut i: usize = 0;
    while i < agents.len()
        invariant
            i <= agents.len(),
            forall|k: int| 0 <= k < i ==> (#[trigger] agents.deep_view()[k]).in_range(),
        decreases agents.len() - i,
    {
        if !agents[i].is_valid() {
            assert(!agents.deep_view()[i as int].in_range());
            return false;
        }
        i += 1;
    }
    true
}

} // verus!
