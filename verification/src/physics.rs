//! The integrator.
//!
//! Once per tick every agent's acceleration is spent on its velocity, and
//! the new velocity on its position; the acceleration is then zero again.
//! Nothing holds the speed down: an agent that is pushed for long enough
//! moves faster than `MAX_SPEED`. Only the range of the numbers ends the
//! growth, at `LIMIT`.
//!
//! An agent's orientation is kept as its heading, a vector: the velocity
//! turned clockwise by a quarter turn. The angle of the heading is thus the
//! angle of the velocity less a quarter turn, and no angle has to be
//! computed here.

use crate::agent::{flock_in_range, heading_for, heading_of, Agent, AgentState};
use crate::fixed::{saturating, scaled_product};
use crate::vec2::{Vec2, Vector};
use vstd::prelude::*;

verus! {

/// An agent after one time step `dt`: the velocity has grown by the
/// acceleration times `dt`, the position by the new velocity times `dt`, the
/// acceleration is zero, and the heading is that of the new velocity.
pub open spec fn integrated(agent: AgentState, dt: int) -> AgentState {
    let velocity = agent.velocity.plus(agent.acceleration.times(dt)).saturated();
    let position = agent.position.plus(velocity.times(dt)).saturated();
    AgentState {
        position,
        velocity,
        acceleration: Vector::zero(),
        heading: heading_for(velocity, agent.heading),
    }
}

/// A flock after one time step.
pub open spec fn integrate_all(agents: Seq<AgentState>, dt: int) -> Seq<AgentState> {
    Seq::new(agents.len(), |i: int| integrated(agents[i], dt))
}

/// An agent whose heading has been set to that of its velocity.
pub open spec fn oriented(agent: AgentState) -> AgentState {
    AgentState { heading: heading_for(agent.velocity, agent.heading), ..agent }
}

/// A flock in which every heading has been set to that of the velocity.
pub open spec fn orient_all(agents: Seq<AgentState>) -> Seq<AgentState> {
    Seq::new(agents.len(), |i: int| oriented(agents[i]))
}

/// One agent after one time step.
pub fn integrate(agent: &Agent, dt: i64) -> (moved: Agent)
    requires
        agent@.in_range(),
    ensures
        moved@ == integrated(agent@, dt as int),
        moved@.in_range(),
{
    let velocity = Vec2 {
        x: saturating(agent.velocity.x as i128 + scaled_product(agent.acceleration.x, dt)),
        y: saturating(agent.velocity.y as i128 + scaled_product(agent.acceleration.y, dt)),
    };
    let position = Vec2 {
        x: saturating(agent.position.x as i128 + scaled_product(velocity.x, dt)),
        y: saturating(agent.position.y as i128 + scaled_product(velocity.y, dt)),
    };
    Agent {
        position,
        velocity,
        acceleration: Vec2 { x: 0, y: 0 },
        heading: heading_of(velocity, agent.heading),
    }
}

/// Moves every agent by one time step `dt`.
pub fn update_boids_physics(agents: &mut Vec<Agent>, dt: i64)
    requires
        flock_in_range(old(agents).deep_view()),
    ensures
        final(agents).deep_view() == integrate_all(old(agents).deep_view(), dt as int),
        flock_in_range(final(agents).deep_view()),
        final(agents).len() == old(agents).len(),
{
    let ghost start = agents.deep_view();
    let mut i: usize = 0;
    while i < agents.len()
        invariant
            i <= agents.len(),
            agents.len() == start.len(),
            flock_in_range(start),
            forall|k: int| 0 <= k < i ==> (#[trigger] agents.deep_view()[k]) == integrated(start[k], dt as int),
            forall|k: int| i <= k < agents.len() ==> (#[trigger] agents.deep_view()[k]) == start[k],
        decreases agents.len() - i,
    {
        let ghost before = agents.deep_view();
        let agent = agents[i];
        assert(before[i as int] == agent@);
        let moved = integrate(&agent, dt);
        agents[i] = moved;
        assert(agents.deep_view() =~= before.update(i as int, moved@));
        i += 1;
    }
    assert(agents.deep_view() =~= integrate_all(start, dt as int));
}

/// Sets every agent's heading to that of its velocity.
pub fn update_boids_rotation(agents: &mut Vec<Agent>)
    requires
        flock_in_range(old(agents).deep_view()),
    ensures
        final(agents).deep_view() == orient_all(old(agents).deep_view()),
        flock_in_range(final(agents).deep_view()),
        final(agents).len() == old(agents).len(),
{
    let ghost start = agents.deep_view();
    let mut i: usize = 0;
    while i < agents.len()
        invariant
            i <= agents.len(),
            agents.len() == start.len(),
            flock_in_range(start),
            forall|k: int| 0 <= k < i ==> (#[trigger] agents.deep_view()[k]) == oriented(start[k]),
            forall|k: int| i <= k < agents.len() ==> (#[trigger] agents.deep_view()[k]) == start[k],
        decreases agents.len() - i,
    {
        let ghost before = agents.deep_view();
        let agent = agents[i];
        assert(before[i as int] == agent@);
        let turned = Agent { heading: heading_of(agent.velocity, agent.heading), ..agent };
        agents[i] = turned;
        assert(agents.deep_view() =~= before.update(i as int, turned@));
        i += 1;
    }
    assert(agents.deep_view() =~= orient_all(start));
}

} // verus!
