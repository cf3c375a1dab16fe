//! Laws of the engine: what holds of every flock, every configuration and
//! every time step.

use crate::agent::{flock_in_range, AgentState};
use crate::behaviors::{
    alignment_requests, border_requests, border_requests_for, border_requests_upto,
    cohesion_requests, crossed_edge, nearer_than, neighbor_count, neighbor_requests, neighbor_sum,
    neighbor_target, requests_wf, seek_active, seek_requests, separation_requests, Request, Rule,
    HALF_EXTENT,
};
use crate::config::BehaviorConfig;
use crate::fixed::{scaled, LIMIT, SCALE};
use crate::physics::{integrate_all, integrated};
use crate::simulation::{all_requests, stepped};
use crate::steering::{
    apply_force, apply_forces, apply_forces_upto, contributions, contributions_upto,
    desired_velocity, forces_wf, steering_force, Force, MAX_FORCE, MAX_SPEED,
};
use crate::vec2::{lemma_limited, lemma_with_length, lemma_with_length_along_ray, Vector};
use vstd::prelude::*;

verus! {

/// Whether two agents are at least as far from each other as each of the
/// three sensing radii.
pub open spec fn apart(a: AgentState, b: AgentState, config: BehaviorConfig) -> bool {
    &&& !nearer_than(a.position, b.position, config.separation_radius as int)
    &&& !nearer_than(a.position, b.position, config.alignment_radius as int)
    &&& !nearer_than(a.position, b.position, config.cohesion_radius as int)
}

/// Whether a flock gives no behavior anything to ask for: no two agents are
/// nearer than any sensing radius, every agent is inside the square, and
/// seeking has no point to seek.
pub open spec fn undisturbed(
    agents: Seq<AgentState>,
    pointer: Option<Vector>,
    config: BehaviorConfig,
) -> bool {
    &&& forall|i: int, j: int|
        0 <= i < agents.len() && 0 <= j < agents.len() && i != j ==> #[trigger] apart(
            agents[i],
            agents[j],
            config,
        )
    &&& forall|i: int|
        0 <= i < agents.len() ==> (#[trigger] agents[i]).position.within(HALF_EXTENT as int)
    &&& !seek_active(pointer, config)
}

/// An agent with nobody nearer than `radius` has no neighbors.
proof fn lemma_nobody_near(rule: Rule, agents: Seq<AgentState>, i: int, radius: int, k: int)
    requires
        0 <= i < agents.len(),
        0 <= k <= agents.len(),
        forall|j: int|
            0 <= j < agents.len() && j != i ==> !nearer_than(
                agents[i].position,
                (#[trigger] agents[j]).position,
                radius,
            ),
    ensures
        neighbor_count(rule, agents, i, radius, k) == 0,
    decreases k,
{
    if k > 0 {
        lemma_nobody_near(rule, agents, i, radius, k - 1);
        assert(!nearer_than(agents[i].position, agents[k - 1].position, radius) || k - 1 == i);
    }
}

/// A flock in which nobody is nearer to anybody than `radius` gets no
/// request from a neighbor behavior.
proof fn lemma_nothing_asked(
    rule: Rule,
    agents: Seq<AgentState>,
    radius: int,
    strength: int,
    k: int,
)
    requires
        0 <= k <= agents.len(),
        forall|i: int, j: int|
            0 <= i < agents.len() && 0 <= j < agents.len() && i != j ==> !nearer_than(
                (#[trigger] agents[i]).position,
                (#[trigger] agents[j]).position,
                radius,
            ),
    ensures
        neighbor_requests(rule, agents, radius, strength, k) == Seq::<Request>::empty(),
    decreases k,
{
    if k > 0 {
        lemma_nothing_asked(rule, agents, radius, strength, k - 1);
        lemma_nobody_near(rule, agents, k - 1, radius, agents.len() as int);
    }
}

/// Agents inside the square get no request from border avoidance.
proof fn lemma_inside_unasked(agents: Seq<AgentState>, strength: int, k: int)
    requires
        0 <= k <= agents.len(),
        forall|i: int|
            0 <= i < agents.len() ==> (#[trigger] agents[i]).position.within(HALF_EXTENT as int),
    ensures
        border_requests_upto(agents, strength, k) == Seq::<Request>::empty(),
    decreases k,
{
    if k > 0 {
        lemma_inside_unasked(agents, strength, k - 1);
        assert(agents[k - 1].position.within(HALF_EXTENT as int));
        assert(border_requests_for(k - 1, agents[k - 1].position, strength) =~= Seq::<
            Request,
        >::empty());
        assert(border_requests_upto(agents, strength, k) =~= Seq::<Request>::empty());
    }
}

/// The product of zero and anything is zero.
proof fn lemma_scaled_zero(factor: int)
    ensures
        scaled(0, factor) == 0,
{
    assert(0 * factor == 0) by (nonlinear_arith);
}

/// A tick without forcing. In a flock where no two agents are nearer than
/// any sensing radius, every agent is inside the square and seeking has no
/// point to seek, no behavior asks for anything, and the tick only
/// integrates. An agent whose acceleration was zero keeps its velocity and
/// moves by that velocity times the time step; if it was at rest as well, it
/// stays exactly as it was.
pub proof fn lemma_quiet_tick(
    agents: Seq<AgentState>,
    pointer: Option<Vector>,
    config: BehaviorConfig,
    dt: int,
)
    requires
        flock_in_range(agents),
        undisturbed(agents, pointer, config),
    ensures
        all_requests(agents, pointer, config) == Seq::<Request>::empty(),
        stepped(agents, pointer, config, dt) == integrate_all(agents, dt),
        forall|i: int|
            0 <= i < agents.len() && agents[i].acceleration == Vector::zero() ==> {
                let after = #[trigger] stepped(agents, pointer, config, dt)[i];
                &&& after.acceleration == agents[i].acceleration
                &&& after.velocity == agents[i].velocity
                &&& after.position == agents[i].position.plus(
                    agents[i].velocity.times(dt),
                ).saturated()
            },
        forall|i: int|
            0 <= i < agents.len() && agents[i].acceleration == Vector::zero() && agents[i].velocity
                == Vector::zero() ==> #[trigger] stepped(agents, pointer, config, dt)[i]
                == agents[i],
{
    let n = agents.len() as int;
    assert forall|i: int, j: int| 0 <= i < n && 0 <= j < n && i != j implies {
        &&& !nearer_than(
            (#[trigger] agents[i]).position,
            (#[trigger] agents[j]).position,
            config.separation_radius as int,
        )
        &&& !nearer_than(agents[i].position, agents[j].position, config.alignment_radius as int)
        &&& !nearer_than(agents[i].position, agents[j].position, config.cohesion_radius as int)
    } by {
        assert(apart(agents[i], agents[j], config));
    }
    lemma_nothing_asked(
        Rule::Separation,
        agents,
        config.separation_radius as int,
        config.separation_strength as int,
        n,
    );
    lemma_nothing_asked(
        Rule::Alignment,
        agents,
        config.alignment_radius as int,
        config.alignment_strength as int,
        n,
    );
    lemma_nothing_asked(
        Rule::Cohesion,
        agents,
        config.cohesion_radius as int,
        config.cohesion_strength as int,
        n,
    );
    lemma_inside_unasked(agents, config.border_strength as int, n);
    let none = Seq::<Request>::empty();
    assert(seek_requests(agents, pointer, config) == none);
    assert(separation_requests(agents, config) == none);
    assert(alignment_requests(agents, config) == none);
    assert(cohesion_requests(agents, config) == none);
    assert(border_requests(agents, config) == none);
    assert(all_requests(agents, pointer, config) =~= none);
    assert(contributions(agents, none) == Seq::<Force>::empty());
    assert(apply_forces(agents, Seq::<Force>::empty()) == agents);
    let after = stepped(agents, pointer, config, dt);
    assert forall|i: int| 0 <= i < n && agents[i].acceleration == Vector::zero() implies {
        let moved = #[trigger] after[i];
        &&& moved.acceleration == agents[i].acceleration
        &&& moved.velocity == agents[i].velocity
        &&& moved.position == agents[i].position.plus(agents[i].velocity.times(dt)).saturated()
    } by {
        lemma_scaled_zero(dt);
        assert(agents[i].in_range());
        assert(after[i] == integrated(agents[i], dt));
    }
    assert forall|i: int|
        0 <= i < n && agents[i].acceleration == Vector::zero() && agents[i].velocity
            == Vector::zero() implies #[trigger] after[i] == agents[i] by {
        lemma_scaled_zero(dt);
        assert(agents[i].in_range());
        assert(after[i] == integrated(agents[i], dt));
    }
}

/// After a tick every acceleration is zero, whatever the forces were.
pub proof fn lemma_tick_spends_acceleration(
    agents: Seq<AgentState>,
    pointer: Option<Vector>,
    config: BehaviorConfig,
    dt: int,
)
    ensures
        forall|i: int|
            0 <= i < stepped(agents, pointer, config, dt).len() ==> (#[trigger] stepped(
                agents,
                pointer,
                config,
                dt,
            )[i]).acceleration == Vector::zero(),
{
}

/// Separation between two agents. Of two agents that are nearer to each
/// other than the radius and do not stand on the same point, each is sent
/// to the point one unit away from where it stands, straight away from the
/// other, however near the other is: the offset is no longer than a unit and
/// less than two raw units shorter.
pub proof fn lemma_separation_of_two(a: AgentState, b: AgentState, radius: int, strength: int)
    requires
        nearer_than(a.position, b.position, radius),
        a.position != b.position,
    ensures
        neighbor_target(Rule::Separation, seq![a, b], 0, radius) == Some(
            a.position.plus(a.position.minus(b.position).with_length(SCALE as int)),
        ),
        neighbor_target(Rule::Separation, seq![a, b], 1, radius) == Some(
            b.position.plus(b.position.minus(a.position).with_length(SCALE as int)),
        ),
        (SCALE - 2) * (SCALE - 2) <= a.position.minus(b.position).with_length(
            SCALE as int,
        ).norm_sq() <= SCALE * SCALE,
        neighbor_requests(Rule::Separation, seq![a, b], radius, strength, 2) == seq![
            Request {
                agent: 0,
                target: a.position.plus(a.position.minus(b.position).with_length(SCALE as int)),
                weight: strength,
            },
            Request {
                agent: 1,
                target: b.position.plus(b.position.minus(a.position).with_length(SCALE as int)),
                weight: strength,
            },
        ],
{
    let agents = seq![a, b];
    let rule = Rule::Separation;
    lemma_with_length(a.position.minus(b.position), SCALE as int);
    reveal_with_fuel(neighbor_count, 3);
    reveal_with_fuel(neighbor_sum, 3);
    reveal_with_fuel(neighbor_requests, 3);
    assert(agents[0] == a && agents[1] == b);
    let ab = a.position.minus(b.position);
    let ba = b.position.minus(a.position);
    assert(ba.norm_sq() == ab.norm_sq()) by (nonlinear_arith)
        requires
            ba.x == -ab.x,
            ba.y == -ab.y,
            ba.norm_sq() == ba.x * ba.x + ba.y * ba.y,
            ab.norm_sq() == ab.x * ab.x + ab.y * ab.y,
    ;
    assert(neighbor_count(rule, agents, 0, radius, 2) == 1);
    assert(neighbor_count(rule, agents, 1, radius, 2) == 1);
    assert(neighbor_sum(rule, agents, 0, radius, 2) == ab.with_length(SCALE as int));
    assert(neighbor_sum(rule, agents, 1, radius, 2) == ba.with_length(SCALE as int));
    assert(neighbor_requests(rule, agents, radius, strength, 2) =~= seq![
        Request {
            agent: 0,
            target: a.position.plus(ab.with_length(SCALE as int)),
            weight: strength,
        },
        Request {
            agent: 1,
            target: b.position.plus(ba.with_length(SCALE as int)),
            weight: strength,
        },
    ]);
}

/// Border avoidance along one axis. An agent beyond the right edge and
/// between the lower and the upper one is asked once: to head for the point
/// on the right edge at its own height. Its second coordinate gives rise to
/// no request.
pub proof fn lemma_border_one_axis(agent: int, position: Vector, strength: int)
    requires
        position.x > HALF_EXTENT,
        -HALF_EXTENT <= position.y <= HALF_EXTENT,
    ensures
        border_requests_for(agent, position, strength) == seq![
            Request {
                agent,
                target: Vector { x: HALF_EXTENT as int, y: position.y },
                weight: strength,
            },
        ],
{
    assert(border_requests_for(agent, position, strength) =~= seq![
        Request {
            agent,
            target: Vector { x: HALF_EXTENT as int, y: position.y },
            weight: strength,
        },
    ]);
}

/// Border avoidance in general. An agent is asked at most twice, and not at
/// all if it is inside the square. Every request is about the agent itself
/// and carries the given strength; its target is the agent's position with
/// one coordinate, one that lay outside, moved to the edge that it went
/// past.
pub proof fn lemma_border_targets(agent: int, position: Vector, strength: int)
    ensures
        border_requests_for(agent, position, strength).len() <= 2,
        border_requests_for(agent, position, strength).len() == 0 <==> position.within(
            HALF_EXTENT as int,
        ),
        forall|k: int|
            0 <= k < border_requests_for(agent, position, strength).len() ==> {
                let request = #[trigger] border_requests_for(agent, position, strength)[k];
                &&& request.agent == agent
                &&& request.weight == strength
                &&& (request.target.y == position.y && crossed_edge(position.x) == Some(
                    request.target.x,
                )) || (request.target.x == position.x && crossed_edge(position.y) == Some(
                    request.target.y,
                ))
            },
{
}

/// The integration law. The new velocity is the old one plus the
/// acceleration times the time step, and the new position is the old one
/// plus the new velocity times the time step: the position moves by the
/// velocity that the step has just made, not by the one before it. A value
/// that would leave the range stops at its edge; one that stays within the
/// range is exactly the sum.
pub proof fn lemma_integration(agent: AgentState, dt: int)
    ensures
        integrated(agent, dt).velocity == agent.velocity.plus(
            agent.acceleration.times(dt),
        ).saturated(),
        integrated(agent, dt).position == agent.position.plus(
            integrated(agent, dt).velocity.times(dt),
        ).saturated(),
        integrated(agent, dt).acceleration == Vector::zero(),
        agent.velocity.plus(agent.acceleration.times(dt)).in_range() ==> integrated(
            agent,
            dt,
        ).velocity == agent.velocity.plus(agent.acceleration.times(dt)),
        agent.position.plus(integrated(agent, dt).velocity.times(dt)).in_range() ==> integrated(
            agent,
            dt,
        ).position == agent.position.plus(integrated(agent, dt).velocity.times(dt)),
{
}

/// A steering force is no longer than `MAX_FORCE`.
pub proof fn lemma_steering_force_capped(agent: AgentState, target: Vector, weight: int)
    ensures
        steering_force(agent, target, weight).norm_sq() <= MAX_FORCE * MAX_FORCE,
{
    lemma_limited(
        desired_velocity(agent.position, target).minus(agent.velocity).times(weight),
        MAX_FORCE as int,
    );
}

/// Every force that comes of a request is no longer than `MAX_FORCE`.
pub proof fn lemma_contributions_capped(agents: Seq<AgentState>, requests: Seq<Request>, k: int)
    requires
        requests_wf(requests),
        0 <= k <= requests.len(),
    ensures
        forces_wf(contributions_upto(agents, requests, k)),
    decreases k,
{
    if k > 0 {
        lemma_contributions_capped(agents, requests, k - 1);
        let request = requests[k - 1];
        assert(request.wf());
        if 0 <= request.agent < agents.len() {
            lemma_steering_force_capped(agents[request.agent], request.target, request.weight);
        }
    }
}

/// The distance to the target does not matter. A target moved along the ray
/// from the agent through it, nearer or farther, asks for the same velocity
/// and so gives the same force.
pub proof fn lemma_force_along_ray(agent: AgentState, target: Vector, k: int, weight: int)
    requires
        k > 0,
    ensures
        ({
            let offset = target.minus(agent.position);
            let moved = agent.position.plus(Vector { x: k * offset.x, y: k * offset.y });
            &&& desired_velocity(agent.position, moved) == desired_velocity(
                agent.position,
                target,
            )
            &&& steering_force(agent, moved, weight) == steering_force(agent, target, weight)
        }),
{
    let offset = target.minus(agent.position);
    let moved = agent.position.plus(Vector { x: k * offset.x, y: k * offset.y });
    assert(moved.minus(agent.position) == (Vector { x: k * offset.x, y: k * offset.y }));
    lemma_with_length_along_ray(offset, k, MAX_SPEED as int);
}

/// The velocity that an agent off its target would like to have is no
/// longer than `MAX_SPEED` and less than two raw units shorter, however near
/// or far the target is.
pub proof fn lemma_desired_velocity_length(position: Vector, target: Vector)
    requires
        target != position,
    ensures
        (MAX_SPEED - 2) * (MAX_SPEED - 2) <= desired_velocity(position, target).norm_sq()
            <= MAX_SPEED * MAX_SPEED,
{
    lemma_with_length(target.minus(position), MAX_SPEED as int);
}

/// One force is cut on its own. A force added to an acceleration that has
/// room for it makes the acceleration grow by the force itself, if that is
/// no longer than `MAX_FORCE`, and else by the force brought to length
/// `MAX_FORCE`: no longer than that, less than two raw units shorter, and
/// with each coordinate of the sign of the force's own.
pub proof fn lemma_one_force_is_cut(agents: Seq<AgentState>, force: Force)
    requires
        0 <= force.agent < agents.len(),
        agents[force.agent].acceleration.plus(force.force.limited(MAX_FORCE as int)).in_range(),
    ensures
        apply_forces(agents, seq![force])[force.agent].acceleration.minus(
            agents[force.agent].acceleration,
        ) == force.force.limited(MAX_FORCE as int),
        force.force.limited(MAX_FORCE as int).norm_sq() <= MAX_FORCE * MAX_FORCE,
        force.force.norm_sq() <= MAX_FORCE * MAX_FORCE ==> force.force.limited(MAX_FORCE as int)
            == force.force,
        force.force.norm_sq() > MAX_FORCE * MAX_FORCE ==> {
            let cut = force.force.limited(MAX_FORCE as int);
            &&& cut == force.force.with_length(MAX_FORCE as int)
            &&& (MAX_FORCE - 2) * (MAX_FORCE - 2) <= cut.norm_sq()
            &&& force.force.x >= 0 ==> cut.x >= 0
            &&& force.force.x <= 0 ==> cut.x <= 0
            &&& force.force.y >= 0 ==> cut.y >= 0
            &&& force.force.y <= 0 ==> cut.y <= 0
        },
{
    let forces = seq![force];
    reveal_with_fuel(apply_forces_upto, 2);
    assert(forces[0] == force);
    assert(apply_forces(agents, forces) == apply_force(agents, force));
    lemma_limited(force.force, MAX_FORCE as int);
    lemma_with_length(force.force, MAX_FORCE as int);
}

/// Two forces on one agent add up. Each force was cut to `MAX_FORCE` when
/// it was made; nothing is cut when they are added, so the acceleration
/// grows by their plain sum, which may be up to twice as long as
/// `MAX_FORCE`.
pub proof fn lemma_two_forces_add(agents: Seq<AgentState>, first: Force, second: Force)
    requires
        0 <= first.agent < agents.len(),
        second.agent == first.agent,
        first.wf(),
        second.wf(),
        agents[first.agent].acceleration.plus(first.force).in_range(),
        agents[first.agent].acceleration.plus(first.force).plus(second.force).in_range(),
    ensures
        apply_forces(agents, seq![first, second])[first.agent].acceleration
            == agents[first.agent].acceleration.plus(first.force).plus(second.force),
{
    let forces = seq![first, second];
    reveal_with_fuel(apply_forces_upto, 3);
    assert(forces[0] == first && forces[1] == second);
    let once = apply_force(agents, first);
    assert(apply_forces_upto(agents, forces, 1) == once);
    assert(apply_forces(agents, forces) == apply_force(once, second));
}

/// Adding forces keeps a flock in range, keeps its size, and changes nothing
/// but accelerations.
pub proof fn lemma_apply_forces_frame(agents: Seq<AgentState>, forces: Seq<Force>, k: int)
    requires
        0 <= k <= forces.len(),
    ensures
        apply_forces_upto(agents, forces, k).len() == agents.len(),
        flock_in_range(agents) ==> flock_in_range(apply_forces_upto(agents, forces, k)),
        forall|i: int|
            0 <= i < agents.len() ==> {
                let after = #[trigger] apply_forces_upto(agents, forces, k)[i];
                &&& after.position == agents[i].position
                &&& after.velocity == agents[i].velocity
                &&& after.heading == agents[i].heading
            },
    decreases k,
{
    if k > 0 {
        lemma_apply_forces_frame(agents, forces, k - 1);
        let before = apply_forces_upto(agents, forces, k - 1);
        let after = apply_forces_upto(agents, forces, k);
        assert forall|i: int| 0 <= i < agents.len() implies {
            let a = #[trigger] after[i];
            &&& a.position == agents[i].position
            &&& a.velocity == agents[i].velocity
            &&& a.heading == agents[i].heading
        } by {
            assert(before[i].position == agents[i].position);
        }
        if flock_in_range(agents) {
            assert forall|i: int| 0 <= i < after.len() implies (#[trigger] after[i]).in_range() by {
                assert(before[i].in_range());
            }
        }
    }
}

/// The sum of those of the first `k` forces that are on agent `agent`, each
/// cut to `MAX_FORCE` on its own.
pub open spec fn total_force(forces: Seq<Force>, agent: int, k: int) -> Vector
    decreases k,
{
    if k <= 0 {
        Vector::zero()
    } else if forces[k - 1].agent == agent {
        total_force(forces, agent, k - 1).plus(forces[k - 1].force.limited(MAX_FORCE as int))
    } else {
        total_force(forces, agent, k - 1)
    }
}

/// Forces accumulate. As long as no acceleration leaves the range on the
/// way, adding a list of forces leaves every agent with its old acceleration
/// plus the sum of the forces that were on it, each cut to `MAX_FORCE` on its
/// own and the sum not cut at all. Along either axis the acceleration thus
/// grows by at most `MAX_FORCE` times the number of forces.
pub proof fn lemma_forces_add_up(agents: Seq<AgentState>, forces: Seq<Force>, agent: int, k: int)
    requires
        0 <= agent < agents.len(),
        0 <= k <= forces.len(),
        forall|m: int|
            0 <= m <= k ==> agents[agent].acceleration.plus(
                #[trigger] total_force(forces, agent, m),
            ).in_range(),
    ensures
        apply_forces_upto(agents, forces, k).len() == agents.len(),
        apply_forces_upto(agents, forces, k)[agent].acceleration
            == agents[agent].acceleration.plus(total_force(forces, agent, k)),
        total_force(forces, agent, k).within(k * MAX_FORCE),
    decreases k,
{
    lemma_total_force_bound(forces, agent, k);
    if k > 0 {
        lemma_forces_add_up(agents, forces, agent, k - 1);
        assert(agents[agent].acceleration.plus(total_force(forces, agent, k)).in_range());
        assert(agents[agent].acceleration.plus(total_force(forces, agent, k - 1)).in_range());
    } else {
        assert(agents[agent].acceleration.plus(total_force(forces, agent, 0)).in_range());
    }
}

/// The forces of two lists of requests, one after the other, are the forces
/// of the first list followed by those of the second.
pub proof fn lemma_contributions_concat(
    agents: Seq<AgentState>,
    first: Seq<Request>,
    second: Seq<Request>,
    k: int,
)
    requires
        0 <= k <= second.len(),
    ensures
        contributions_upto(agents, first + second, first.len() + k) == contributions(agents, first)
            + contributions_upto(agents, second, k),
    decreases k,
{
    let both = first + second;
    if k == 0 {
        lemma_contributions_prefix(agents, first, both, first.len() as int);
        assert(contributions(agents, first) + Seq::<Force>::empty() =~= contributions(
            agents,
            first,
        ));
    } else {
        lemma_contributions_concat(agents, first, second, k - 1);
        assert(both[first.len() + k - 1] == second[k - 1]);
        assert(contributions_upto(agents, both, first.len() + k) =~= contributions(agents, first)
            + contributions_upto(agents, second, k));
    }
}

/// The forces of the first `k` requests depend on those requests alone.
proof fn lemma_contributions_prefix(
    agents: Seq<AgentState>,
    short: Seq<Request>,
    long: Seq<Request>,
    k: int,
)
    requires
        0 <= k <= short.len() <= long.len(),
        forall|m: int| 0 <= m < short.len() ==> short[m] == long[m],
    ensures
        contributions_upto(agents, short, k) == contributions_upto(agents, long, k),
    decreases k,
{
    if k > 0 {
        lemma_contributions_prefix(agents, short, long, k - 1);
    }
}

/// There are no more forces than requests.
proof fn lemma_contributions_len(agents: Seq<AgentState>, requests: Seq<Request>, k: int)
    requires
        0 <= k <= requests.len(),
    ensures
        contributions_upto(agents, requests, k).len() <= k,
    decreases k,
{
    if k > 0 {
        lemma_contributions_len(agents, requests, k - 1);
    }
}

/// The sum of the forces of two lists, one after the other, is the sum of
/// the two sums.
pub proof fn lemma_total_force_concat(first: Seq<Force>, second: Seq<Force>, agent: int, k: int)
    requires
        0 <= k <= second.len(),
    ensures
        total_force(first + second, agent, first.len() + k) == total_force(
            first,
            agent,
            first.len() as int,
        ).plus(total_force(second, agent, k)),
    decreases k,
{
    let both = first + second;
    if k == 0 {
        lemma_total_force_prefix(first, both, agent, first.len() as int);
    } else {
        lemma_total_force_concat(first, second, agent, k - 1);
        assert(both[first.len() + k - 1] == second[k - 1]);
    }
}

/// The sum of the first `k` forces depends on those forces alone.
proof fn lemma_total_force_prefix(short: Seq<Force>, long: Seq<Force>, agent: int, k: int)
    requires
        0 <= k <= short.len() <= long.len(),
        forall|m: int| 0 <= m < short.len() ==> short[m] == long[m],
    ensures
        total_force(short, agent, k) == total_force(long, agent, k),
    decreases k,
{
    if k > 0 {
        lemma_total_force_prefix(short, long, agent, k - 1);
    }
}

/// The sum of `k` forces, each cut to `MAX_FORCE`, has coordinates within
/// `k` times `MAX_FORCE` of zero.
pub proof fn lemma_total_force_bound(forces: Seq<Force>, agent: int, k: int)
    requires
        0 <= k <= forces.len(),
    ensures
        total_force(forces, agent, k).within(k * MAX_FORCE),
    decreases k,
{
    if k > 0 {
        lemma_total_force_bound(forces, agent, k - 1);
        let force = forces[k - 1].force.limited(MAX_FORCE as int);
        lemma_limited(forces[k - 1].force, MAX_FORCE as int);
        assert(-MAX_FORCE <= force.x <= MAX_FORCE && -MAX_FORCE <= force.y <= MAX_FORCE)
            by (nonlinear_arith)
            requires
                force.x * force.x + force.y * force.y <= MAX_FORCE * MAX_FORCE,
                MAX_FORCE == 150_000_000,
        ;
    }
}

/// The order of the requests does not matter. Whether the requests of one
/// list are honored before those of another or after them, every agent ends
/// up with the same acceleration, as long as its acceleration is far enough
/// from the edge of the range for all the forces to be added in full.
pub proof fn lemma_order_of_requests(
    agents: Seq<AgentState>,
    first: Seq<Request>,
    second: Seq<Request>,
    agent: int,
)
    requires
        0 <= agent < agents.len(),
        agents[agent].acceleration.within(LIMIT - (first.len() + second.len()) * MAX_FORCE),
    ensures
        apply_forces(agents, contributions(agents, first + second))[agent].acceleration
            == apply_forces(agents, contributions(agents, second + first))[agent].acceleration,
        apply_forces(agents, contributions(agents, first + second))[agent].acceleration
            == agents[agent].acceleration.plus(
            total_force(
                contributions(agents, first),
                agent,
                contributions(agents, first).len() as int,
            ),
        ).plus(
            total_force(
                contributions(agents, second),
                agent,
                contributions(agents, second).len() as int,
            ),
        ),
{
    let a = contributions(agents, first);
    let b = contributions(agents, second);
    lemma_contributions_concat(agents, first, second, second.len() as int);
    lemma_contributions_concat(agents, second, first, first.len() as int);
    assert((first + second).len() == first.len() + second.len());
    assert((second + first).len() == first.len() + second.len());
    assert(contributions(agents, first + second) == a + b);
    assert(contributions(agents, second + first) == b + a);
    lemma_contributions_len(agents, first, first.len() as int);
    lemma_contributions_len(agents, second, second.len() as int);
    lemma_order_of_forces(agents, a, b, agent, (first.len() + second.len()) as int);
}

/// The order of the forces does not matter. Two lists of forces added one
/// after the other leave an agent with the same acceleration whichever list
/// comes first: the old acceleration plus both sums, each force cut on its
/// own. This holds where the acceleration leaves room for `room` forces,
/// which are at least as many as there are.
pub proof fn lemma_order_of_forces(
    agents: Seq<AgentState>,
    first: Seq<Force>,
    second: Seq<Force>,
    agent: int,
    room: int,
)
    requires
        0 <= agent < agents.len(),
        first.len() + second.len() <= room,
        agents[agent].acceleration.within(LIMIT - room * MAX_FORCE),
    ensures
        apply_forces(agents, first + second)[agent].acceleration
            == agents[agent].acceleration.plus(
            total_force(first, agent, first.len() as int),
        ).plus(total_force(second, agent, second.len() as int)),
        apply_forces(agents, first + second)[agent].acceleration == apply_forces(
            agents,
            second + first,
        )[agent].acceleration,
{
    lemma_sum_in_order(agents, first, second, agent, room);
    lemma_sum_in_order(agents, second, first, agent, room);
}

/// Adding two lists of forces to an acceleration that leaves room for
/// `room` forces gives the acceleration plus both sums.
proof fn lemma_sum_in_order(
    agents: Seq<AgentState>,
    first: Seq<Force>,
    second: Seq<Force>,
    agent: int,
    room: int,
)
    requires
        0 <= agent < agents.len(),
        first.len() + second.len() <= room,
        agents[agent].acceleration.within(LIMIT - room * MAX_FORCE),
    ensures
        apply_forces(agents, first + second)[agent].acceleration
            == agents[agent].acceleration.plus(
            total_force(first, agent, first.len() as int),
        ).plus(total_force(second, agent, second.len() as int)),
{
    let both = first + second;
    let n = both.len() as int;
    assert(n == first.len() + second.len());
    assert forall|m: int| 0 <= m <= n implies agents[agent].acceleration.plus(
        #[trigger] total_force(both, agent, m),
    ).in_range() by {
        lemma_total_force_bound(both, agent, m);
        assert(m * MAX_FORCE <= room * MAX_FORCE) by (nonlinear_arith)
            requires
                0 <= m <= room,
                MAX_FORCE > 0,
        ;
    }
    lemma_forces_add_up(agents, both, agent, n);
    lemma_total_force_concat(first, second, agent, second.len() as int);
}

/// Whether every request of a list is about one of the first `count`
/// agents.
pub open spec fn requests_within(requests: Seq<Request>, count: int) -> bool {
    forall|m: int| 0 <= m < requests.len() ==> 0 <= (#[trigger] requests[m]).agent < count
}

/// The requests of a neighbor behavior for the first `k` agents are about
/// those agents.
proof fn lemma_neighbor_requests_within(
    rule: Rule,
    agents: Seq<AgentState>,
    radius: int,
    strength: int,
    k: int,
)
    requires
        0 <= k,
    ensures
        requests_within(neighbor_requests(rule, agents, radius, strength, k), k),
    decreases k,
{
    if k > 0 {
        lemma_neighbor_requests_within(rule, agents, radius, strength, k - 1);
        let before = neighbor_requests(rule, agents, radius, strength, k - 1);
        let now = neighbor_requests(rule, agents, radius, strength, k);
        assert forall|m: int| 0 <= m < now.len() implies 0 <= (#[trigger] now[m]).agent < k by {
            if m < before.len() {
                assert(now[m] == before[m]);
            }
        }
    }
}

/// The requests of border avoidance for the first `k` agents are about
/// those agents.
proof fn lemma_border_requests_within(agents: Seq<AgentState>, strength: int, k: int)
    requires
        0 <= k,
    ensures
        requests_within(border_requests_upto(agents, strength, k), k),
    decreases k,
{
    if k > 0 {
        lemma_border_requests_within(agents, strength, k - 1);
        let before = border_requests_upto(agents, strength, k - 1);
        let added = border_requests_for(k - 1, agents[k - 1].position, strength);
        let now = border_requests_upto(agents, strength, k);
        assert forall|m: int| 0 <= m < now.len() implies 0 <= (#[trigger] now[m]).agent < k by {
            if m < before.len() {
                assert(now[m] == before[m]);
            } else {
                assert(now[m] == added[m - before.len()]);
            }
        }
    }
}

/// Every request of a tick is about an agent of the flock.
pub proof fn lemma_requests_name_agents(
    agents: Seq<AgentState>,
    pointer: Option<Vector>,
    config: BehaviorConfig,
)
    ensures
        requests_within(all_requests(agents, pointer, config), agents.len() as int),
{
    let n = agents.len() as int;
    lemma_neighbor_requests_within(
        Rule::Separation,
        agents,
        config.separation_radius as int,
        config.separation_strength as int,
        n,
    );
    lemma_neighbor_requests_within(
        Rule::Alignment,
        agents,
        config.alignment_radius as int,
        config.alignment_strength as int,
        n,
    );
    lemma_neighbor_requests_within(
        Rule::Cohesion,
        agents,
        config.cohesion_radius as int,
        config.cohesion_strength as int,
        n,
    );
    lemma_border_requests_within(agents, config.border_strength as int, n);
    let seek = seek_requests(agents, pointer, config);
    let separation = separation_requests(agents, config);
    let alignment = alignment_requests(agents, config);
    let cohesion = cohesion_requests(agents, config);
    let border = border_requests(agents, config);
    let all = all_requests(agents, pointer, config);
    assert forall|m: int| 0 <= m < all.len() implies 0 <= (#[trigger] all[m]).agent < n by {
        let a = seek.len() as int;
        let b = a + separation.len();
        let c = b + alignment.len();
        let d = c + cohesion.len();
        if m < a {
            assert(all[m] == seek[m]);
        } else if m < b {
            assert(all[m] == separation[m - a]);
        } else if m < c {
            assert(all[m] == alignment[m - b]);
        } else if m < d {
            assert(all[m] == cohesion[m - c]);
        } else {
            assert(all[m] == border[m - d]);
        }
    }
}

/// One force for each request. Of requests that are all about agents of the
/// flock, each becomes exactly one force, at the same place in the list and
/// on the same agent.
pub proof fn lemma_one_force_per_request(
    agents: Seq<AgentState>,
    requests: Seq<Request>,
    k: int,
)
    requires
        0 <= k <= requests.len(),
        requests_within(requests, agents.len() as int),
    ensures
        contributions_upto(agents, requests, k).len() == k,
        forall|m: int|
            0 <= m < k ==> #[trigger] contributions_upto(agents, requests, k)[m] == (Force {
                agent: requests[m].agent,
                force: steering_force(
                    agents[requests[m].agent],
                    requests[m].target,
                    requests[m].weight,
                ),
            }),
    decreases k,
{
    if k > 0 {
        lemma_one_force_per_request(agents, requests, k - 1);
        let before = contributions_upto(agents, requests, k - 1);
        let now = contributions_upto(agents, requests, k);
        assert(0 <= requests[k - 1].agent < agents.len());
        assert forall|m: int| 0 <= m < k implies #[trigger] now[m] == (Force {
            agent: requests[m].agent,
            force: steering_force(
                agents[requests[m].agent],
                requests[m].target,
                requests[m].weight,
            ),
        }) by {
            if m < k - 1 {
                assert(now[m] == before[m]);
            }
        }
    }
}

} // verus!
