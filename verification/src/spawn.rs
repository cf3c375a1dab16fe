//! The flock at the start: agents scattered at random.
//!
//! Each coordinate comes from thirty-two random bits. The upper twenty-four
//! of them are read as a fraction of one, and the fraction is spread evenly
//! over an interval centered at zero: a thousand world units wide for a
//! position, ten for an acceleration. What the generator hands out cannot be
//! foretold; what is made of it is fixed by [`spawned`].
//!
//! The generator is seeded by the operating system. Where the system has no
//! randomness to give, there is no flock.

use crate::agent::{flock_in_range, initial_heading, Agent, AgentState};
use crate::fixed::SCALE;
use crate::vec2::{Vec2, Vector};
use rand::{Rng, SeedableRng};
use vstd::prelude::*;

verus! {

/// The width of the interval that positions are scattered over: a thousand
/// world units.
pub const POSITION_SPAN: i64 = 1_000_000_000;

/// The width of the interval that accelerations are scattered over: ten
/// world units per second squared.
pub const ACCELERATION_SPAN: i64 = 10_000_000;

/// The standard generator of the crate `rand`. Nothing is known of what it
/// holds.
#[verifier::external_type_specification]
#[verifier::external_body]
pub struct ExStdRng(rand::rngs::StdRng);

/// `StdRng::from_rng` on `OsRng`: a generator seeded with thirty-two bytes
/// from the operating system, or nothing if the system gives none. Nothing
/// is claimed of the generator, nor of when there is one.
#[verifier::external_body]
fn seeded_generator() -> (generator: Option<rand::rngs::StdRng>) {
    rand::rngs::StdRng::from_rng(rand::rngs::OsRng).ok()
}

/// `Rng::gen` at the type `u32`: the generator's next thirty-two bits.
/// Nothing is claimed of them.
#[verifier::external_body]
fn random_bits(generator: &mut rand::rngs::StdRng) -> (bits: u32) {
    generator.gen::<u32>()
}

/// The coordinate that `bits` stand for in an interval of width `span`
/// centered at zero.
pub open spec fn spread(bits: u32, span: int) -> int {
    (bits as int / 256) * span / 16_777_216 - span / 2
}

/// The agent that four draws of random bits stand for: at rest, with the
/// initial heading, its position from the first two and its acceleration
/// from the last two.
pub open spec fn spawned(first: u32, second: u32, third: u32, fourth: u32) -> AgentState {
    AgentState {
        position: Vector {
            x: spread(first, POSITION_SPAN as int),
            y: spread(second, POSITION_SPAN as int),
        },
        velocity: Vector::zero(),
        acceleration: Vector {
            x: spread(third, ACCELERATION_SPAN as int),
            y: spread(fourth, ACCELERATION_SPAN as int),
        },
        heading: initial_heading(),
    }
}

/// Whether some four draws stand for `agent`.
pub open spec fn is_spawn(agent: AgentState) -> bool {
    exists|first: u32, second: u32, third: u32, fourth: u32|
        agent == #[trigger] spawned(first, second, third, fourth)
}

/// A spread coordinate lies in the half-open interval of width `span`
/// centered at zero.
pub proof fn lemma_spread_bounds(bits: u32, span: int)
    requires
        span >= 0,
        span % 2 == 0,
    ensures
        -(span / 2) <= spread(bits, span),
        span > 0 ==> spread(bits, span) < span / 2,
{
    let fraction = bits as int / 256;
    assert(0 <= fraction < 16_777_216);
    assert(0 <= fraction * span) by (nonlinear_arith)
        requires
            0 <= fraction,
            0 <= span,
    ;
    if span > 0 {
        assert(fraction * span < 16_777_216 * span) by (nonlinear_arith)
            requires
                fraction < 16_777_216,
                0 < span,
        ;
    }
}

/// The coordinate that `bits` stand for in an interval of width `span`.
fn spread_of(bits: u32, span: i64) -> (coordinate: i64)
    requires
        0 <= span <= POSITION_SPAN,
    ensures
        coordinate == spread(bits, span as int),
{
    let fraction: i64 = (bits / 256) as i64;
    assert(0 <= fraction * span <= 16_777_216 * 1_000_000_000) by (nonlinear_arith)
        requires
            0 <= fraction < 16_777_216,
            0 <= span <= 1_000_000_000,
    ;
    fraction * span / 16_777_216 - span / 2
}

/// The agent that four draws of random bits stand for.
pub fn spawn_agent(first: u32, second: u32, third: u32, fourth: u32) -> (agent: Agent)
    ensures
        agent@ == spawned(first, second, third, fourth),
        agent@.in_range(),
        agent@.position.within(POSITION_SPAN / 2),
        agent@.acceleration.within(ACCELERATION_SPAN / 2),
{
    proof {
        lemma_spread_bounds(first, POSITION_SPAN as int);
        lemma_spread_bounds(second, POSITION_SPAN as int);
        lemma_spread_bounds(third, ACCELERATION_SPAN as int);
        lemma_spread_bounds(fourth, ACCELERATION_SPAN as int);
    }
    Agent {
        position: Vec2 { x: spread_of(first, POSITION_SPAN), y: spread_of(second, POSITION_SPAN) },
        velocity: Vec2 { x: 0, y: 0 },
        acceleration: Vec2 {
            x: spread_of(third, ACCELERATION_SPAN),
            y: spread_of(fourth, ACCELERATION_SPAN),
        },
        heading: Vec2 { x: 0, y: -SCALE },
    }
}

/// Whether a flock is one that `count` times four draws stand for: each
/// agent at rest, within five hundred world units of the origin along either
/// axis, with an acceleration within five.
pub open spec fn is_scattered(agents: Seq<AgentState>, count: int) -> bool {
    &&& agents.len() == count
    &&& flock_in_range(agents)
    &&& forall|i: int| 0 <= i < count ==> is_spawn(#[trigger] agents[i])
    &&& forall|i: int|
        0 <= i < count ==> {
            let agent = #[trigger] agents[i];
            &&& agent.position.within(POSITION_SPAN / 2)
            &&& agent.velocity == Vector::zero()
            &&& agent.acceleration.within(ACCELERATION_SPAN / 2)
            &&& agent.heading == initial_heading()
        }
}

/// A flock of `count` agents made of the draws of `generator`.
fn scatter(generator: &mut rand::rngs::StdRng, count: usize) -> (agents: Vec<Agent>)
    ensures
        is_scattered(agents.deep_view(), count as int),
{
    let mut agents: Vec<Agent> = Vec::new();
    while agents.len() < count
        invariant
            agents.len() <= count,
            forall|i: int|
                0 <= i < agents.len() ==> {
                    let agent = #[trigger] agents.deep_view()[i];
                    &&& is_spawn(agent)
                    &&& agent.in_range()
                    &&& agent.position.within(POSITION_SPAN / 2)
                    &&& agent.velocity == Vector::zero()
                    &&& agent.acceleration.within(ACCELERATION_SPAN / 2)
                    &&& agent.heading == initial_heading()
                },
        decreases count - agents.len(),
    {
        let first = random_bits(generator);
        let second = random_bits(generator);
        let third = random_bits(generator);
        let fourth = random_bits(generator);
        let agent = spawn_agent(first, second, third, fourth);
        let ghost before = agents.deep_view();
        agents.push(agent);
        assert(agents.deep_view() =~= before.push(agent@));
    }
    agents
}

/// A flock of `count` agents scattered at random, if the operating system
/// has randomness to seed the generator with. A flock of no agents needs
/// none and is always there.
pub fn setup(count: usize) -> (flock: Option<Vec<Agent>>)
    ensures
        count == 0 ==> flock is Some,
        flock is Some ==> is_scattered(flock->0.deep_view(), count as int),
{
    if count == 0 {
        let agents: Vec<Agent> = Vec::new();
        assert(agents.deep_view() =~= Seq::<AgentState>::empty());
        return Some(agents);
    }
    match seeded_generator() {
        Some(generator) => {
            let mut generator = generator;
            Some(scatter(&mut generator, count))
        },
        None => None,
    }
}

} // verus!
