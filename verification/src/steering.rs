//! From steering requests to forces, and from forces to acceleration.
//!
//! A request becomes a force in four steps: the velocity the agent would
//! like to have points from the agent to the target and has length
//! `MAX_SPEED`; the steering is what that velocity lacks over the present
//! one; the steering is multiplied by the request's weight; and what comes
//! out is cut down to length `MAX_FORCE`. An agent that stands on its target
//! would like to have no velocity at all.
//!
//! The cut is made on each force by itself. The forces on one agent are then
//! added up as they are, so their sum may well be longer than `MAX_FORCE`.
//! Whoever adds a force makes sure of the cut once more, so that a force
//! from elsewhere counts for no more than one that was made here.

use crate::agent::{flock_in_range, Agent, AgentState};
use crate::behaviors::{requests_wf, Request, SteeringRequest, REACH};
use crate::fixed::{in_range, lemma_trunc_div_within, saturating, scaled, SCALE};
use crate::vec2::{Vec2, Vector};
use vstd::prelude::*;

verus! {

/// The length of the velocity that a steered agent would like to have: 250
/// world units per second.
pub const MAX_SPEED: i64 = 250_000_000;

/// The greatest length of one force: 150 world units per second squared.
pub const MAX_FORCE: i64 = 150_000_000;

/// The downward pull that [`gravity_system`] puts on every agent: 0.01.
pub const GRAVITY: i64 = 10_000;

/// A force on one agent.
pub struct Force {
    /// The index of the agent in the flock.
    pub agent: int,
    /// The force.
    pub force: Vector,
}

impl Force {
    /// Whether the force is no longer than `MAX_FORCE`.
    pub open spec fn wf(self) -> bool {
        &&& self.agent >= 0
        &&& self.force.norm_sq() <= MAX_FORCE * MAX_FORCE
    }
}

/// Whether every force of a list is no longer than `MAX_FORCE`.
pub open spec fn forces_wf(forces: Seq<Force>) -> bool {
    forall|k: int| 0 <= k < forces.len() ==> (#[trigger] forces[k]).wf()
}

/// A force on one agent, with machine coordinates.
#[derive(Clone, Copy, Debug, PartialEq, Eq, Structural)]
pub struct ForceContribution {
    /// The index of the agent in the flock.
    pub agent: usize,
    /// The force.
    pub force: Vec2,
}

impl View for ForceContribution {
    type V = Force;

    open spec fn view(&self) -> Force {
        Force { agent: self.agent as int, force: self.force@ }
    }
}

impl DeepView for ForceContribution {
    type V = Force;

    open spec fn deep_view(&self) -> Force {
        self@
    }
}

/// The velocity that an agent at `position` would like to have in order to
/// reach `target`.
pub open spec fn desired_velocity(position: Vector, target: Vector) -> Vector {
    target.minus(position).with_length(MAX_SPEED as int)
}

/// The force that steers `agent` toward `target` with the given weight.
pub open spec fn steering_force(agent: AgentState, target: Vector, weight: int) -> Vector {
    desired_velocity(agent.position, target).minus(agent.velocity).times(weight).limited(
        MAX_FORCE as int,
    )
}

/// The forces that come of the first `k` requests, in the order of the
/// requests. A request for an agent that the flock does not have comes to
/// nothing.
pub open spec fn contributions_upto(agents: Seq<AgentState>, requests: Seq<Request>, k: int) -> Seq<
    Force,
>
    decreases k,
{
    if k <= 0 {
        Seq::empty()
    } else {
        let before = contributions_upto(agents, requests, k - 1);
        let request = requests[k - 1];
        if 0 <= request.agent < agents.len() {
            before.push(
                Force {
                    agent: request.agent,
                    force: steering_force(agents[request.agent], request.target, request.weight),
                },
            )
        } else {
            before
        }
    }
}

/// The forces that come of a list of requests.
pub open spec fn contributions(agents: Seq<AgentState>, requests: Seq<Request>) -> Seq<Force> {
    contributions_upto(agents, requests, requests.len() as int)
}

/// An agent after a force has been added to its acceleration. The force is
/// cut down to length `MAX_FORCE` first, which changes nothing if it has
/// been cut before.
pub open spec fn pushed(agent: AgentState, force: Vector) -> AgentState {
    AgentState {
        acceleration: agent.acceleration.plus(force.limited(MAX_FORCE as int)).saturated(),
        ..agent
    }
}

/// A flock after one force has been added to the acceleration of the agent
/// it names. A force on an agent that the flock does not have changes
/// nothing.
pub open spec fn apply_force(agents: Seq<AgentState>, force: Force) -> Seq<AgentState> {
    if 0 <= force.agent < agents.len() {
        agents.update(force.agent, pushed(agents[force.agent], force.force))
    } else {
        agents
    }
}

/// A flock after the first `k` forces of a list have been added, one after
/// the other.
pub open spec fn apply_forces_upto(agents: Seq<AgentState>, forces: Seq<Force>, k: int) -> Seq<
    AgentState,
>
    decreases k,
{
    if k <= 0 {
        agents
    } else {
        apply_force(apply_forces_upto(agents, forces, k - 1), forces[k - 1])
    }
}

/// A flock after every force of a list has been added.
pub open spec fn apply_forces(agents: Seq<AgentState>, forces: Seq<Force>) -> Seq<AgentState> {
    apply_forces_upto(agents, forces, forces.len() as int)
}

/// The forces of gravity: one for every agent, straight down.
pub open spec fn gravity_forces(agents: Seq<AgentState>) -> Seq<Force> {
    Seq::new(
        agents.len(),
        |i: int| Force { agent: i, force: Vector { x: 0, y: -(GRAVITY as int) } },
    )
}

/// The force that steers `agent` toward `target` with the given weight.
pub fn steering_force_of(agent: &Agent, target: Vec2, weight: i64) -> (force: Vec2)
    requires
        agent@.in_range(),
        target@.within(REACH as int),
        in_range(weight as int),
    ensures
        force@ == steering_force(agent@, target@, weight as int),
        force@.norm_sq() <= MAX_FORCE * MAX_FORCE,
{
    let offset = target.minus(agent.position);
    let desired = offset.with_length(MAX_SPEED);
    let steering = desired.minus(agent.velocity);
    proof {
        lemma_weighted_fits(steering.x as int, weight as int);
        lemma_weighted_fits(steering.y as int, weight as int);
    }
    let raw = steering.times(weight);
    raw.limited(MAX_FORCE)
}

/// A steering within `REACH` times a weight within `LIMIT` fits a machine
/// coordinate.
proof fn lemma_weighted_fits(steering: int, weight: int)
    requires
        -REACH <= steering <= REACH,
        in_range(weight),
    ensures
        -i64::MAX <= scaled(steering, weight) <= i64::MAX,
{
    let bound: int = 2_000_000_000_000_000_000;
    assert(-(bound * SCALE) <= steering * weight <= bound * SCALE) by (nonlinear_arith)
        requires
            -2_000_000_000_000 <= steering <= 2_000_000_000_000,
            -1_000_000_000_000 <= weight <= 1_000_000_000_000,
            bound == 2_000_000_000_000_000_000,
            SCALE == 1_000_000,
    ;
    lemma_trunc_div_within(steering * weight, SCALE as int, bound);
}

/// Turns every request into the force that honors it. A request for an
/// agent that the flock does not have is passed over.
pub fn steering_event_system(requests: &Vec<SteeringRequest>, agents: &Vec<Agent>) -> (forces: Vec<
    ForceContribution,
>)
    requires
        flock_in_range(agents.deep_view()),
        requests_wf(requests.deep_view()),
    ensures
        forces.deep_view() == contributions(agents.deep_view(), requests.deep_view()),
        forces_wf(forces.deep_view()),
{
    let ghost flock = agents.deep_view();
    let ghost asked = requests.deep_view();
    let mut forces: Vec<ForceContribution> = Vec::new();
    assert(forces.deep_view() =~= Seq::<Force>::empty());
    let mut k: usize = 0;
    while k < requests.len()
        invariant
            k <= requests.len(),
            flock == agents.deep_view(),
            asked == requests.deep_view(),
            flock_in_range(flock),
            requests_wf(asked),
            forces.deep_view() == contributions_upto(flock, asked, k as int),
            forces_wf(forces.deep_view()),
        decreases requests.len() - k,
    {
        let request = requests[k];
        assert(asked[k as int] == request@);
        assert(asked[k as int].wf());
        if request.agent < agents.len() {
            let agent = agents[request.agent];
            assert(flock[request.agent as int] == agent@);
            let force = steering_force_of(&agent, request.target, request.weight);
            let made = ForceContribution { agent: request.agent, force };
            let ghost before = forces.deep_view();
            forces.push(made);
            assert(forces.deep_view() =~= before.push(made@));
        }
        k += 1;
    }
    forces
}

/// Adds every force to the acceleration of the agent it names, in the order
/// of the list. No force counts for more than `MAX_FORCE`; their sum may. A
/// force on an agent that the flock does not have is passed over.
pub fn force_event_system(agents: &mut Vec<Agent>, forces: &Vec<ForceContribution>)
    requires
        flock_in_range(old(agents).deep_view()),
    ensures
        final(agents).deep_view() == apply_forces(old(agents).deep_view(), forces.deep_view()),
        flock_in_range(final(agents).deep_view()),
        final(agents).len() == old(agents).len(),
{
    let ghost start = agents.deep_view();
    let ghost given = forces.deep_view();
    let mut k: usize = 0;
    while k < forces.len()
        invariant
            k <= forces.len(),
            given == forces.deep_view(),
            agents.len() == start.len(),
            agents.deep_view() == apply_forces_upto(start, given, k as int),
            flock_in_range(agents.deep_view()),
        decreases forces.len() - k,
    {
        let pushing = forces[k];
        assert(given[k as int] == pushing@);
        if pushing.agent < agents.len() {
            let ghost before = agents.deep_view();
            let agent = agents[pushing.agent];
            assert(before[pushing.agent as int] == agent@);
            let force = pushing.force.limited(MAX_FORCE);
            let acceleration = Vec2 {
                x: saturating(agent.acceleration.x as i128 + force.x as i128),
                y: saturating(agent.acceleration.y as i128 + force.y as i128),
            };
            let moved = Agent { acceleration, ..agent };
            agents[pushing.agent] = moved;
            assert(agents.deep_view() =~= before.update(pushing.agent as int, moved@));
        }
        k += 1;
    }
}

/// A small downward force on every agent.
pub fn gravity_system(agents: &Vec<Agent>) -> (forces: Vec<ForceContribution>)
    ensures
        forces.deep_view() == gravity_forces(agents.deep_view()),
        forces_wf(forces.deep_view()),
{
    let mut forces: Vec<ForceContribution> = Vec::new();
    assert(forces.deep_view() =~= Seq::<Force>::empty());
    let mut i: usize = 0;
    while i < agents.len()
        invariant
            i <= agents.len(),
            forces.deep_view() == Seq::new(
                i as nat,
                |k: int| Force { agent: k, force: Vector { x: 0, y: -(GRAVITY as int) } },
            ),
        decreases agents.len() - i,
    {
        let made = ForceContribution { agent: i, force: Vec2 { x: 0, y: -GRAVITY } };
        let ghost before = forces.deep_view();
        forces.push(made);
        assert(forces.deep_view() =~= before.push(made@));
        assert(forces.deep_view() =~= Seq::new(
            (i + 1) as nat,
            |k: int| Force { agent: k, force: Vector { x: 0, y: -(GRAVITY as int) } },
        ));
        i += 1;
    }
    assert(forces.deep_view() =~= gravity_forces(agents.deep_view()));
    assert forall|k: int| 0 <= k < forces.deep_view().len() implies (#[trigger] forces.deep_view()[k]).wf() by {
        let pull = forces.deep_view()[k].force;
        assert(pull.x * pull.x + pull.y * pull.y == 100_000_000) by (nonlinear_arith)
            requires
                pull.x == 0,
                pull.y == -10_000,
        ;
    }
    forces
}

} // verus!
