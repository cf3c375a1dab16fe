//! The five steering behaviors.
//!
//! Each behavior reads a flock and says, for every agent it wants to steer,
//! where that agent should head and how strongly: a [`SteeringRequest`]. The
//! behaviors never change the flock, so they all see the same state and the
//! order in which they are asked does not matter.
//!
//! Separation, alignment and cohesion look at the neighbors of an agent: the
//! other agents nearer than the behavior's radius. Distances are compared by
//! their squares, which is exact. An agent that stands exactly where another
//! one stands has no direction away from it; separation passes over such a
//! pair, while alignment and cohesion count it like any other.

use crate::agent::{flock_in_range, Agent, AgentState};
use crate::config::BehaviorConfig;
use crate::fixed::{in_range, lemma_trunc_div_within, wide_product, LIMIT, SCALE};
use crate::vec2::{lemma_with_length, Vec2, Vector};
use vstd::prelude::*;

verus! {

/// Half the side of the square that border avoidance keeps agents in: 750
/// world units. The square is centered at the origin.
pub const HALF_EXTENT: i64 = 750_000_000;

/// Largest coordinate magnitude of a steering target: twice `LIMIT`, so that
/// an offset in range from a position in range is always a target.
pub const REACH: i64 = 2_000_000_000_000;

/// A wish to steer one agent toward a point.
pub struct Request {
    /// The index of the agent in the flock.
    pub agent: int,
    /// The point to head for.
    pub target: Vector,
    /// How strongly.
    pub weight: int,
}

impl Request {
    /// Whether the target's coordinates lie within `REACH` of zero and the
    /// weight within `LIMIT` of zero.
    pub open spec fn wf(self) -> bool {
        &&& self.agent >= 0
        &&& self.target.within(REACH as int)
        &&& in_range(self.weight)
    }
}

/// Whether every request of a list is well formed.
pub open spec fn requests_wf(requests: Seq<Request>) -> bool {
    forall|k: int| 0 <= k < requests.len() ==> (#[trigger] requests[k]).wf()
}

/// A wish to steer one agent toward a point, with machine coordinates.
#[derive(Clone, Copy, Debug, PartialEq, Eq, Structural)]
pub struct SteeringRequest {
    /// The index of the agent in the flock.
    pub agent: usize,
    /// The point to head for.
    pub target: Vec2,
    /// How strongly.
    pub weight: i64,
}

impl View for SteeringRequest {
    type V = Request;

    open spec fn view(&self) -> Request {
        Request { agent: self.agent as int, target: self.target@, weight: self.weight as int }
    }
}

impl DeepView for SteeringRequest {
    type V = Request;

    open spec fn deep_view(&self) -> Request {
        self@
    }
}

impl SteeringRequest {
    /// Whether the target's coordinates lie within `REACH` of zero and the
    /// weight within `LIMIT` of zero.
    pub fn is_valid(&self) -> (b: bool)
        ensures
            b == self@.wf(),
    {
        self.target.is_within(REACH) && -LIMIT <= self.weight && self.weight <= LIMIT
    }
}

/// The three behaviors that average over neighbors.
#[derive(Clone, Copy, Debug)]
pub enum Rule {
    /// Move away from neighbors.
    Separation,
    /// Move the way the neighbors move.
    Alignment,
    /// Move to where the neighbors are.
    Cohesion,
}

/// Whether two points are nearer to each other than `radius`. Nothing is
/// nearer than a radius that is not positive.
pub open spec fn nearer_than(a: Vector, b: Vector, radius: int) -> bool {
    radius > 0 && a.minus(b).norm_sq() < radius * radius
}

/// Whether `me` senses `other` under `rule`: the two are nearer than
/// `radius`, and for separation they do not stand on the same point.
pub open spec fn senses(rule: Rule, me: AgentState, other: AgentState, radius: int) -> bool {
    &&& nearer_than(me.position, other.position, radius)
    &&& rule is Separation ==> me.position != other.position
}

/// What a sensed neighbor adds to the sum of `rule`: for separation the
/// vector of length one that points from the neighbor to `me`, for alignment
/// the neighbor's velocity, for cohesion its position.
pub open spec fn share(rule: Rule, me: AgentState, other: AgentState) -> Vector {
    match rule {
        Rule::Separation => me.position.minus(other.position).with_length(SCALE as int),
        Rule::Alignment => other.velocity,
        Rule::Cohesion => other.position,
    }
}

/// Whether agent `j` is a neighbor of agent `i` under `rule`. No agent is
/// its own neighbor.
pub open spec fn is_neighbor(rule: Rule, agents: Seq<AgentState>, i: int, j: int, radius: int)
    -> bool {
    j != i && senses(rule, agents[i], agents[j], radius)
}

/// How many of the first `k` agents are neighbors of agent `i`.
pub open spec fn neighbor_count(rule: Rule, agents: Seq<AgentState>, i: int, radius: int, k: int)
    -> int
    decreases k,
{
    if k <= 0 {
        0
    } else if is_neighbor(rule, agents, i, k - 1, radius) {
        neighbor_count(rule, agents, i, radius, k - 1) + 1
    } else {
        neighbor_count(rule, agents, i, radius, k - 1)
    }
}

/// The sum of the shares of those of the first `k` agents that are neighbors
/// of agent `i`.
pub open spec fn neighbor_sum(rule: Rule, agents: Seq<AgentState>, i: int, radius: int, k: int)
    -> Vector
    decreases k,
{
    if k <= 0 {
        Vector::zero()
    } else if is_neighbor(rule, agents, i, k - 1, radius) {
        neighbor_sum(rule, agents, i, radius, k - 1).plus(share(rule, agents[i], agents[k - 1]))
    } else {
        neighbor_sum(rule, agents, i, radius, k - 1)
    }
}

/// Where `rule` sends agent `i`, if it has a neighbor: the mean of the
/// neighbors' shares, taken as an offset from the agent's position for
/// separation and alignment, and as a point of the plane for cohesion.
pub open spec fn neighbor_target(rule: Rule, agents: Seq<AgentState>, i: int, radius: int)
    -> Option<Vector> {
    let count = neighbor_count(rule, agents, i, radius, agents.len() as int);
    let mean = neighbor_sum(rule, agents, i, radius, agents.len() as int).over(count);
    if count == 0 {
        None
    } else {
        Some(
            match rule {
                Rule::Cohesion => mean,
                _ => agents[i].position.plus(mean),
            },
        )
    }
}

/// The requests of `rule` for the first `k` agents, in the order of the
/// flock: one for each agent that has a neighbor.
pub open spec fn neighbor_requests(
    rule: Rule,
    agents: Seq<AgentState>,
    radius: int,
    strength: int,
    k: int,
) -> Seq<Request>
    decreases k,
{
    if k <= 0 {
        Seq::empty()
    } else {
        let before = neighbor_requests(rule, agents, radius, strength, k - 1);
        match neighbor_target(rule, agents, k - 1, radius) {
            Some(target) => before.push(Request { agent: k - 1, target, weight: strength }),
            None => before,
        }
    }
}

/// What separation asks for.
pub open spec fn separation_requests(agents: Seq<AgentState>, config: BehaviorConfig) -> Seq<
    Request,
> {
    if config.separation_enabled {
        neighbor_requests(
            Rule::Separation,
            agents,
            config.separation_radius as int,
            config.separation_strength as int,
            agents.len() as int,
        )
    } else {
        Seq::empty()
    }
}

/// What alignment asks for.
pub open spec fn alignment_requests(agents: Seq<AgentState>, config: BehaviorConfig) -> Seq<
    Request,
> {
    if config.alignment_enabled {
        neighbor_requests(
            Rule::Alignment,
            agents,
            config.alignment_radius as int,
            config.alignment_strength as int,
            agents.len() as int,
        )
    } else {
        Seq::empty()
    }
}

/// What cohesion asks for.
pub open spec fn cohesion_requests(agents: Seq<AgentState>, config: BehaviorConfig) -> Seq<
    Request,
> {
    if config.cohesion_enabled {
        neighbor_requests(
            Rule::Cohesion,
            agents,
            config.cohesion_radius as int,
            config.cohesion_strength as int,
            agents.len() as int,
        )
    } else {
        Seq::empty()
    }
}

/// The edge that a coordinate has gone past, if any.
pub open spec fn crossed_edge(coordinate: int) -> Option<int> {
    if coordinate < -HALF_EXTENT {
        Some(-(HALF_EXTENT as int))
    } else if coordinate > HALF_EXTENT {
        Some(HALF_EXTENT as int)
    } else {
        None
    }
}

/// What border avoidance asks of one agent: for each axis along which the
/// agent is outside the square, a request whose target is the agent's
/// position with that one coordinate moved back to the edge. The request for
/// the first axis comes first.
pub open spec fn border_requests_for(agent: int, position: Vector, strength: int) -> Seq<Request> {
    let first = match crossed_edge(position.x) {
        Some(edge) => seq![
            Request { agent, target: Vector { x: edge, y: position.y }, weight: strength },
        ],
        None => Seq::empty(),
    };
    let second = match crossed_edge(position.y) {
        Some(edge) => seq![
            Request { agent, target: Vector { x: position.x, y: edge }, weight: strength },
        ],
        None => Seq::empty(),
    };
    first + second
}

/// What border avoidance asks of the first `k` agents, in the order of the
/// flock.
pub open spec fn border_requests_upto(agents: Seq<AgentState>, strength: int, k: int) -> Seq<
    Request,
>
    decreases k,
{
    if k <= 0 {
        Seq::empty()
    } else {
        border_requests_upto(agents, strength, k - 1) + border_requests_for(
            k - 1,
            agents[k - 1].position,
            strength,
        )
    }
}

/// What border avoidance asks for.
pub open spec fn border_requests(agents: Seq<AgentState>, config: BehaviorConfig) -> Seq<Request> {
    if config.border_enabled {
        border_requests_upto(agents, config.border_strength as int, agents.len() as int)
    } else {
        Seq::empty()
    }
}

/// Whether seeking has a point to seek: the behavior is switched on and the
/// pointer is at a point whose coordinates lie within `REACH` of zero.
pub open spec fn seek_active(pointer: Option<Vector>, config: BehaviorConfig) -> bool {
    &&& config.seek_enabled
    &&& pointer is Some
    &&& pointer->0.within(REACH as int)
}

/// What seeking asks for: one request for every agent, toward the pointer.
pub open spec fn seek_requests(
    agents: Seq<AgentState>,
    pointer: Option<Vector>,
    config: BehaviorConfig,
) -> Seq<Request> {
    if seek_active(pointer, config) {
        Seq::new(
            agents.len(),
            |i: int| Request { agent: i, target: pointer->0, weight: config.seek_strength as int },
        )
    } else {
        Seq::empty()
    }
}

/// The view of an optional vector.
pub open spec fn view_of(pointer: Option<Vec2>) -> Option<Vector> {
    match pointer {
        Some(point) => Some(point@),
        None => None,
    }
}

/// The sum of the shares is no larger, coordinate by coordinate, than
/// `LIMIT` times the number of neighbors.
pub proof fn lemma_neighbor_sum_bound(
    rule: Rule,
    agents: Seq<AgentState>,
    i: int,
    radius: int,
    k: int,
)
    requires
        flock_in_range(agents),
        0 <= i < agents.len(),
        0 <= k <= agents.len(),
    ensures
        0 <= neighbor_count(rule, agents, i, radius, k) <= k,
        neighbor_sum(rule, agents, i, radius, k).within(
            neighbor_count(rule, agents, i, radius, k) * LIMIT,
        ),
    decreases k,
{
    if k > 0 {
        lemma_neighbor_sum_bound(rule, agents, i, radius, k - 1);
        lemma_share_in_range(rule, agents[i], agents[k - 1]);
    }
}

/// A share is in range.
pub proof fn lemma_share_in_range(rule: Rule, me: AgentState, other: AgentState)
    requires
        me.in_range(),
        other.in_range(),
    ensures
        share(rule, me, other).in_range(),
{
    lemma_with_length(me.position.minus(other.position), SCALE as int);
}

/// Every target that a neighbor behavior names has coordinates within
/// `REACH` of zero.
pub proof fn lemma_neighbor_target_within(
    rule: Rule,
    agents: Seq<AgentState>,
    i: int,
    radius: int,
)
    requires
        flock_in_range(agents),
        0 <= i < agents.len(),
    ensures
        neighbor_target(rule, agents, i, radius) is Some ==> neighbor_target(
            rule,
            agents,
            i,
            radius,
        )->0.within(REACH as int),
{
    let n = agents.len() as int;
    lemma_neighbor_sum_bound(rule, agents, i, radius, n);
    let count = neighbor_count(rule, agents, i, radius, n);
    let sum = neighbor_sum(rule, agents, i, radius, n);
    if count > 0 {
        assert(count * LIMIT == LIMIT * count) by (nonlinear_arith);
        lemma_trunc_div_within(sum.x, count, LIMIT as int);
        lemma_trunc_div_within(sum.y, count, LIMIT as int);
    }
}

/// Whether `me` senses `other` under `rule`.
fn senses_at(rule: Rule, me: &Agent, other: &Agent, radius: i64) -> (b: bool)
    requires
        me@.in_range(),
        other@.in_range(),
    ensures
        b == senses(rule, me@, other@, radius as int),
{
    if radius <= 0 {
        return false;
    }
    let gap: u128 = me.position.minus(other.position).norm_sq();
    let reach: i128 = wide_product(radius, radius);
    if gap < reach as u128 {
        match rule {
            Rule::Separation => me.position.x != other.position.x || me.position.y
                != other.position.y,
            _ => true,
        }
    } else {
        false
    }
}

/// What a sensed neighbor adds to the sum of `rule`.
fn share_of(rule: Rule, me: &Agent, other: &Agent) -> (s: Vec2)
    requires
        me@.in_range(),
        other@.in_range(),
    ensures
        s@ == share(rule, me@, other@),
        s@.in_range(),
{
    proof {
        lemma_share_in_range(rule, me@, other@);
    }
    match rule {
        Rule::Separation => me.position.minus(other.position).with_length(SCALE),
        Rule::Alignment => other.velocity,
        Rule::Cohesion => other.position,
    }
}

/// Where `rule` sends agent `i`, if it has a neighbor.
pub fn neighbor_target_of(rule: Rule, agents: &Vec<Agent>, i: usize, radius: i64) -> (target:
    Option<Vec2>)
    requires
        flock_in_range(agents.deep_view()),
        i < agents.len(),
    ensures
        view_of(target) == neighbor_target(rule, agents.deep_view(), i as int, radius as int),
        target is Some ==> target->0@.within(REACH as int),
{
    let ghost flock = agents.deep_view();
    let me = agents[i];
    assert(flock[i as int] == me@);
    let mut sum_x: i128 = 0;
    let mut sum_y: i128 = 0;
    let mut count: usize = 0;
    let mut j: usize = 0;
    while j < agents.len()
        invariant
            j <= agents.len(),
            i < agents.len(),
            flock == agents.deep_view(),
            flock_in_range(flock),
            flock[i as int] == me@,
            count <= j,
            count == neighbor_count(rule, flock, i as int, radius as int, j as int),
            (Vector { x: sum_x as int, y: sum_y as int }) == neighbor_sum(
                rule,
                flock,
                i as int,
                radius as int,
                j as int,
            ),
            -(count * LIMIT) <= sum_x <= count * LIMIT,
            -(count * LIMIT) <= sum_y <= count * LIMIT,
        decreases agents.len() - j,
    {
        let other = agents[j];
        assert(flock[j as int] == other@);
        if j != i && senses_at(rule, &me, &other, radius) {
            let s = share_of(rule, &me, &other);
            sum_x = sum_x + s.x as i128;
            sum_y = sum_y + s.y as i128;
            count = count + 1;
        }
        j += 1;
    }
    proof {
        lemma_neighbor_target_within(rule, flock, i as int, radius as int);
    }
    if count == 0 {
        None
    } else {
        let n: i128 = count as i128;
        proof {
            assert(count * LIMIT == LIMIT * n) by (nonlinear_arith)
                requires
                    n == count,
            ;
            lemma_trunc_div_within(sum_x as int, n as int, LIMIT as int);
            lemma_trunc_div_within(sum_y as int, n as int, LIMIT as int);
        }
        let mean = Vec2 { x: (sum_x / n) as i64, y: (sum_y / n) as i64 };
        match rule {
            Rule::Cohesion => Some(mean),
            _ => Some(me.position.plus(mean)),
        }
    }
}

/// The requests of `rule` for the whole flock.
fn neighbor_requests_of(rule: Rule, agents: &Vec<Agent>, radius: i64, strength: i64) -> (requests:
    Vec<SteeringRequest>)
    requires
        flock_in_range(agents.deep_view()),
        in_range(strength as int),
    ensures
        requests.deep_view() == neighbor_requests(
            rule,
            agents.deep_view(),
            radius as int,
            strength as int,
            agents.len() as int,
        ),
        requests_wf(requests.deep_view()),
{
    let ghost flock = agents.deep_view();
    let mut requests: Vec<SteeringRequest> = Vec::new();
    let mut i: usize = 0;
    assert(requests.deep_view() =~= Seq::<Request>::empty());
    while i < agents.len()
        invariant
            i <= agents.len(),
            flock == agents.deep_view(),
            flock_in_range(flock),
            in_range(strength as int),
            requests.deep_view() == neighbor_requests(
                rule,
                flock,
                radius as int,
                strength as int,
                i as int,
            ),
            requests_wf(requests.deep_view()),
        decreases agents.len() - i,
    {
        match neighbor_target_of(rule, agents, i, radius) {
            Some(target) => {
                let request = SteeringRequest { agent: i, target, weight: strength };
                let ghost before = requests.deep_view();
                requests.push(request);
                assert(requests.deep_view() =~= before.push(request@));
            },
            None => {},
        }
        i += 1;
    }
    requests
}

/// Separation: every agent that has neighbors nearer than the separation
/// radius is asked to head for the point that lies, from where it stands, at
/// the mean of the unit vectors that point away from those neighbors.
pub fn seperate(agents: &Vec<Agent>, config: &BehaviorConfig) -> (requests: Vec<SteeringRequest>)
    requires
        flock_in_range(agents.deep_view()),
        config.wf(),
    ensures
        requests.deep_view() == separation_requests(agents.deep_view(), *config),
        requests_wf(requests.deep_view()),
{
    if config.separation_enabled {
        neighbor_requests_of(
            Rule::Separation,
            agents,
            config.separation_radius,
            config.separation_strength,
        )
    } else {
        let requests: Vec<SteeringRequest> = Vec::new();
        assert(requests.deep_view() =~= Seq::<Request>::empty());
        requests
    }
}

/// Alignment: every agent that has neighbors nearer than the alignment
/// radius is asked to head for the point that lies, from where it stands, at
/// the mean of those neighbors' velocities.
pub fn align(agents: &Vec<Agent>, config: &BehaviorConfig) -> (requests: Vec<SteeringRequest>)
    requires
        flock_in_range(agents.deep_view()),
        config.wf(),
    ensures
        requests.deep_view() == alignment_requests(agents.deep_view(), *config),
        requests_wf(requests.deep_view()),
{
    if config.alignment_enabled {
        neighbor_requests_of(
            Rule::Alignment,
            agents,
            config.alignment_radius,
            config.alignment_strength,
        )
    } else {
        let requests: Vec<SteeringRequest> = Vec::new();
        assert(requests.deep_view() =~= Seq::<Request>::empty());
        requests
    }
}

/// Cohesion: every agent that has neighbors nearer than the cohesion radius
/// is asked to head for the mean of those neighbors' positions.
pub fn cohesion(agents: &Vec<Agent>, config: &BehaviorConfig) -> (requests: Vec<SteeringRequest>)
    requires
        flock_in_range(agents.deep_view()),
        config.wf(),
    ensures
        requests.deep_view() == cohesion_requests(agents.deep_view(), *config),
        requests_wf(requests.deep_view()),
{
    if config.cohesion_enabled {
        neighbor_requests_of(
            Rule::Cohesion,
            agents,
            config.cohesion_radius,
            config.cohesion_strength,
        )
    } else {
        let requests: Vec<SteeringRequest> = Vec::new();
        assert(requests.deep_view() =~= Seq::<Request>::empty());
        requests
    }
}

/// Border avoidance: every agent outside the square is asked, once for each
/// axis along which it is outside, to head for its own position with that
/// coordinate moved back to the edge.
pub fn avoid_border(agents: &Vec<Agent>, config: &BehaviorConfig) -> (requests: Vec<
    SteeringRequest,
>)
    requires
        flock_in_range(agents.deep_view()),
        config.wf(),
    ensures
        requests.deep_view() == border_requests(agents.deep_view(), *config),
        requests_wf(requests.deep_view()),
{
    let ghost flock = agents.deep_view();
    let mut requests: Vec<SteeringRequest> = Vec::new();
    assert(requests.deep_view() =~= Seq::<Request>::empty());
    if !config.border_enabled {
        return requests;
    }
    let strength: i64 = config.border_strength;
    let mut i: usize = 0;
    while i < agents.len()
        invariant
            i <= agents.len(),
            flock == agents.deep_view(),
            flock_in_range(flock),
            in_range(strength as int),
            requests.deep_view() == border_requests_upto(flock, strength as int, i as int),
            requests_wf(requests.deep_view()),
        decreases agents.len() - i,
    {
        let position = agents[i].position;
        assert(flock[i as int].position == position@);
        let ghost before = requests.deep_view();
        let ghost first = before;
        if position.x < -HALF_EXTENT {
            let request = SteeringRequest {
                agent: i,
                target: Vec2 { x: -HALF_EXTENT, y: position.y },
                weight: strength,
            };
            requests.push(request);
            assert(requests.deep_view() =~= before.push(request@));
        } else if position.x > HALF_EXTENT {
            let request = SteeringRequest {
                agent: i,
                target: Vec2 { x: HALF_EXTENT, y: position.y },
                weight: strength,
            };
            requests.push(request);
            assert(requests.deep_view() =~= before.push(request@));
        }
        let ghost middle = requests.deep_view();
        if position.y < -HALF_EXTENT {
            let request = SteeringRequest {
                agent: i,
                target: Vec2 { x: position.x, y: -HALF_EXTENT },
                weight: strength,
            };
            requests.push(request);
            assert(requests.deep_view() =~= middle.push(request@));
        } else if position.y > HALF_EXTENT {
            let request = SteeringRequest {
                agent: i,
                target: Vec2 { x: position.x, y: HALF_EXTENT },
                weight: strength,
            };
            requests.push(request);
            assert(requests.deep_view() =~= middle.push(request@));
        }
        assert(requests.deep_view() =~= before + border_requests_for(
            i as int,
            position@,
            strength as int,
        ));
        i += 1;
    }
    requests
}

/// Seeking: while the behavior is switched on and the pointer is at a point
/// within `REACH`, every agent is asked to head for that point.
pub fn seek_mouse(agents: &Vec<Agent>, pointer: Option<Vec2>, config: &BehaviorConfig) -> (requests:
    Vec<SteeringRequest>)
    requires
        config.wf(),
    ensures
        requests.deep_view() == seek_requests(agents.deep_view(), view_of(pointer), *config),
        requests_wf(requests.deep_view()),
{
    let mut requests: Vec<SteeringRequest> = Vec::new();
    assert(requests.deep_view() =~= Seq::<Request>::empty());
    if !config.seek_enabled {
        return requests;
    }
    match pointer {
        Some(point) => {
            if point.is_within(REACH) {
                let strength: i64 = config.seek_strength;
                let mut i: usize = 0;
                while i < agents.len()
                    invariant
                        i <= agents.len(),
                        in_range(strength as int),
                        point@.within(REACH as int),
                        requests.deep_view() == Seq::new(
                            i as nat,
                            |k: int|
                                Request { agent: k, target: point@, weight: strength as int },
                        ),
                    decreases agents.len() - i,
                {
                    let request = SteeringRequest { agent: i, target: point, weight: strength };
                    let ghost before = requests.deep_view();
                    requests.push(request);
                    assert(requests.deep_view() =~= before.push(request@));
                    assert(requests.deep_view() =~= Seq::new(
                        (i + 1) as nat,
                        |k: int| Request { agent: k, target: point@, weight: strength as int },
                    ));
                    i += 1;
                }
                assert(agents.deep_view().len() == agents.len());
                assert(requests.deep_view() =~= seek_requests(
                    agents.deep_view(),
                    view_of(pointer),
                    *config,
                ));
            }
        },
        None => {},
    }
    requests
}

} // verus!
