//! One tick of the simulation.
//!
//! A tick asks every behavior for its requests, all of them about the flock
//! as it stands at the start of the tick; turns the requests into forces;
//! adds the forces to the accelerations; and integrates.

use crate::agent::{flock_in_range, Agent, AgentState};
use crate::behaviors::{
    align, alignment_requests, avoid_border, border_requests, cohesion, cohesion_requests,
    requests_wf, seek_mouse, seek_requests, seperate, separation_requests, view_of, Request,
    SteeringRequest,
};
use crate::config::BehaviorConfig;
use crate::physics::{integrate_all, update_boids_physics};
use crate::steering::{apply_forces, contributions, force_event_system, steering_event_system};
use crate::vec2::{Vec2, Vector};
use vstd::prelude::*;

verus! {

/// The requests of all five behaviors for one tick: those of seeking first,
/// then those of separation, alignment, cohesion and border avoidance.
pub open spec fn all_requests(
    agents: Seq<AgentState>,
    pointer: Option<Vector>,
    config: BehaviorConfig,
) -> Seq<Request> {
    seek_requests(agents, pointer, config) + separation_requests(agents, config)
        + alignment_requests(agents, config) + cohesion_requests(agents, config) + border_requests(
        agents,
        config,
    )
}

/// A flock after one tick of length `dt`.
pub open spec fn stepped(
    agents: Seq<AgentState>,
    pointer: Option<Vector>,
    config: BehaviorConfig,
    dt: int,
) -> Seq<AgentState> {
    integrate_all(
        apply_forces(agents, contributions(agents, all_requests(agents, pointer, config))),
        dt,
    )
}

/// Moves the requests of `more` to the end of `requests`.
fn gather(requests: &mut Vec<SteeringRequest>, more: Vec<SteeringRequest>)
    requires
        requests_wf(old(requests).deep_view()),
        requests_wf(more.deep_view()),
    ensures
        final(requests).deep_view() == old(requests).deep_view() + more.deep_view(),
        requests_wf(final(requests).deep_view()),
{
    let ghost before = requests.deep_view();
    let ghost added = more.deep_view();
    let mut more = more;
    requests.append(&mut more);
    assert(requests.deep_view() =~= before + added);
    assert forall|k: int| 0 <= k < requests.deep_view().len() implies (
    #[trigger] requests.deep_view()[k]).wf() by {
        if k < before.len() {
            assert(before[k].wf());
        } else {
            assert(added[k - before.len()].wf());
        }
    }
}

/// Asks every behavior for its requests.
pub fn evaluate(agents: &Vec<Agent>, pointer: Option<Vec2>, config: &BehaviorConfig) -> (requests:
    Vec<SteeringRequest>)
    requires
        flock_in_range(agents.deep_view()),
        config.wf(),
    ensures
        requests.deep_view() == all_requests(agents.deep_view(), view_of(pointer), *config),
        requests_wf(requests.deep_view()),
{
    let mut requests = seek_mouse(agents, pointer, config);
    gather(&mut requests, seperate(agents, config));
    gather(&mut requests, align(agents, config));
    gather(&mut requests, cohesion(agents, config));
    gather(&mut requests, avoid_border(agents, config));
    requests
}

/// Advances the flock by one tick of length `dt`. `pointer` is where the
/// pointer is in the world, if it is anywhere.
pub fn step(agents: &mut Vec<Agent>, pointer: Option<Vec2>, config: &BehaviorConfig, dt: i64)
    requires
        flock_in_range(old(agents).deep_view()),
        config.wf(),
    ensures
        final(agents).deep_view() == stepped(
            old(agents).deep_view(),
            view_of(pointer),
            *config,
            dt as int,
        ),
        flock_in_range(final(agents).deep_view()),
        final(agents).len() == old(agents).len(),
{
    let requests = evaluate(agents, pointer, config);
    let forces = steering_event_system(&requests, agents);
    force_event_system(agents, &forces);
    update_boids_physics(agents, dt);
}

} // verus!
