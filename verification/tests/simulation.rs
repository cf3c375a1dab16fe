use boids::agent::{flock_is_valid, Agent};
use boids::behaviors::SteeringRequest;
use boids::config::BehaviorConfig;
use boids::simulation::{evaluate, step};
use boids::spawn::{setup, spawn_agent};
use boids::vec2::Vec2;

const UNIT: i64 = 1_000_000;
const TICK: i64 = 15_625;

fn at(x: i64, y: i64) -> Agent {
    Agent::new(Vec2::new(x * UNIT, y * UNIT), Vec2::zero(), Vec2::zero()).unwrap()
}

#[test]
fn flock_that_nothing_disturbs_stays_as_it_is() {
    let before = vec![at(0, 0), at(500, 0), at(0, -500), at(-750, 750)];
    let config = BehaviorConfig { seek_strength: 5 * UNIT, ..BehaviorConfig::default() };
    assert_eq!(evaluate(&before, None, &config), vec![]);
    let mut agents = before.clone();
    step(&mut agents, None, &config, TICK);
    assert_eq!(agents, before);
}

#[test]
fn undisturbed_agent_in_motion_keeps_its_velocity() {
    let mover = Agent::new(Vec2::zero(), Vec2::new(64 * UNIT, -128 * UNIT), Vec2::zero()).unwrap();
    let mut agents = vec![mover, at(500, 500)];
    let config = BehaviorConfig { seek_enabled: false, ..BehaviorConfig::default() };
    step(&mut agents, Some(Vec2::new(1, 1)), &config, TICK);
    assert_eq!(agents[0].velocity, mover.velocity);
    assert_eq!(agents[0].acceleration, Vec2::zero());
    assert_eq!(agents[0].position, Vec2::new(UNIT, -2 * UNIT));
    assert_eq!(agents[1], at(500, 500));
}

#[test]
fn evaluate_asks_the_behaviors_in_turn() {
    let agents = vec![at(0, 0), at(50, 0), at(900, 0)];
    let config = BehaviorConfig {
        seek_strength: UNIT,
        separation_radius: 150 * UNIT,
        alignment_radius: 60 * UNIT,
        cohesion_radius: 60 * UNIT,
        ..BehaviorConfig::default()
    };
    let pointer = Vec2::new(UNIT, UNIT);
    let requests = evaluate(&agents, Some(pointer), &config);
    assert_eq!(requests, vec![
        SteeringRequest { agent: 0, target: pointer, weight: UNIT },
        SteeringRequest { agent: 1, target: pointer, weight: UNIT },
        SteeringRequest { agent: 2, target: pointer, weight: UNIT },
        SteeringRequest { agent: 0, target: Vec2::new(-UNIT, 0), weight: 10 * UNIT },
        SteeringRequest { agent: 1, target: Vec2::new(51 * UNIT, 0), weight: 10 * UNIT },
        SteeringRequest { agent: 0, target: Vec2::new(0, 0), weight: 2 * UNIT },
        SteeringRequest { agent: 1, target: Vec2::new(50 * UNIT, 0), weight: 2 * UNIT },
        SteeringRequest { agent: 0, target: Vec2::new(50 * UNIT, 0), weight: UNIT / 100 },
        SteeringRequest { agent: 1, target: Vec2::new(0, 0), weight: UNIT / 100 },
        SteeringRequest { agent: 2, target: Vec2::new(750 * UNIT, 0), weight: 4 * UNIT },
    ]);
}

#[test]
fn step_pulls_an_agent_back_from_beyond_the_border() {
    let mut agents = vec![at(900, 0)];
    step(&mut agents, None, &BehaviorConfig::default(), TICK);
    // Force (-150, 0): v' = -150 / 64, p' = 900 + v' / 64.
    assert_eq!(agents[0].velocity, Vec2::new(-2_343_750, 0));
    assert_eq!(agents[0].position, Vec2::new(899_963_379, 0));
    assert_eq!(agents[0].acceleration, Vec2::zero());
    assert_eq!(agents[0].heading, Vec2::new(0, 2_343_750));
}

#[test]
fn forces_of_several_behaviors_are_not_cut_again() {
    // Separation pushes agent 0 to the left with the full 150, and so does
    // border avoidance from beyond the right edge.
    let mut agents = vec![at(900, 0), at(950, 0)];
    let config = BehaviorConfig {
        alignment_enabled: false,
        cohesion_enabled: false,
        ..BehaviorConfig::default()
    };
    step(&mut agents, None, &config, UNIT);
    assert_eq!(agents[0].velocity, Vec2::new(-300 * UNIT, 0));
    assert_eq!(agents[0].position, Vec2::new(600 * UNIT, 0));
    // Agent 1 is pushed right by separation and left by the border.
    assert_eq!(agents[1].velocity, Vec2::zero());
    assert_eq!(agents[1].position, Vec2::new(950 * UNIT, 0));
}

#[test]
fn behaviors_see_the_flock_as_it_was_at_the_start_of_the_tick() {
    let mut agents = vec![at(0, 0), at(50, 0)];
    let config = BehaviorConfig {
        border_enabled: false,
        alignment_enabled: false,
        cohesion_enabled: false,
        ..BehaviorConfig::default()
    };
    step(&mut agents, None, &config, TICK);
    // Both are pushed apart with the same strength.
    assert_eq!(agents[0].velocity, Vec2::new(-2_343_750, 0));
    assert_eq!(agents[1].velocity, Vec2::new(2_343_750, 0));
    assert_eq!(agents[0].position.x, -(agents[1].position.x - 50 * UNIT));
}

#[test]
fn seeking_draws_the_flock_to_the_pointer() {
    let mut agents = vec![at(0, 0), at(0, 300)];
    let config = BehaviorConfig {
        seek_strength: UNIT / 5,
        separation_enabled: false,
        alignment_enabled: false,
        cohesion_enabled: false,
        ..BehaviorConfig::default()
    };
    step(&mut agents, Some(Vec2::new(0, 100 * UNIT)), &config, UNIT);
    assert_eq!(agents[0].velocity, Vec2::new(0, 50 * UNIT));
    assert_eq!(agents[1].velocity, Vec2::new(0, -50 * UNIT));
}

#[test]
fn acceleration_left_from_the_start_is_spent_in_the_first_tick() {
    let mut agents =
        vec![Agent::new(Vec2::zero(), Vec2::zero(), Vec2::new(4 * UNIT, -2 * UNIT)).unwrap()];
    step(&mut agents, None, &BehaviorConfig::default(), UNIT / 2);
    assert_eq!(agents[0].velocity, Vec2::new(2 * UNIT, -UNIT));
    assert_eq!(agents[0].position, Vec2::new(UNIT, -UNIT / 2));
    assert_eq!(agents[0].acceleration, Vec2::zero());
}

#[test]
fn flock_stays_valid_over_many_ticks() {
    let mut agents = Vec::new();
    for i in 0..40i64 {
        let position = Vec2::new((i % 8 - 4) * 30 * UNIT, (i / 8 - 2) * 30 * UNIT + i);
        let velocity = Vec2::new((i % 3 - 1) * 20 * UNIT, (i % 5 - 2) * 20 * UNIT);
        agents.push(Agent::new(position, velocity, Vec2::zero()).unwrap());
    }
    let config = BehaviorConfig::default();
    for _ in 0..200 {
        step(&mut agents, Some(Vec2::new(100 * UNIT, 100 * UNIT)), &config, TICK);
        assert!(flock_is_valid(&agents));
        assert_eq!(agents.len(), 40);
        for agent in &agents {
            assert_eq!(agent.acceleration, Vec2::zero());
        }
    }
}

#[test]
fn step_is_reproducible() {
    let start = vec![at(0, 0), at(30, 40), at(-20, 10), at(800, -800)];
    let config = BehaviorConfig::default();
    let mut first = start.clone();
    let mut second = start.clone();
    for _ in 0..50 {
        step(&mut first, None, &config, TICK);
        step(&mut second, None, &config, TICK);
    }
    assert_eq!(first, second);
    assert_ne!(first, start);
}

#[test]
fn spawn_agent_spreads_the_bits_over_the_intervals() {
    let lowest = spawn_agent(0, 0, 0, 0);
    assert_eq!(lowest.position, Vec2::new(-500 * UNIT, -500 * UNIT));
    assert_eq!(lowest.acceleration, Vec2::new(-5 * UNIT, -5 * UNIT));
    assert_eq!(lowest.velocity, Vec2::zero());
    assert_eq!(lowest.heading, Vec2::new(0, -UNIT));
    let middle = spawn_agent(1 << 31, 1 << 30, 1 << 31, 3 << 30);
    assert_eq!(middle.position, Vec2::new(0, -250 * UNIT));
    assert_eq!(middle.acceleration, Vec2::new(0, 2_500_000));
    let highest = spawn_agent(u32::MAX, u32::MAX, u32::MAX, u32::MAX);
    assert_eq!(highest.position, Vec2::new(499_999_940, 499_999_940));
    assert_eq!(highest.acceleration, Vec2::new(4_999_999, 4_999_999));
}

#[test]
fn spawn_agent_reads_the_upper_twenty_four_bits() {
    assert_eq!(spawn_agent(255, 0, 0, 0), spawn_agent(0, 0, 0, 0));
    assert_eq!(spawn_agent(256, 0, 0, 0).position.x, -500 * UNIT + 59);
    assert_eq!(spawn_agent(0, 0, 0, 512).acceleration.y, -5 * UNIT + 1);
}

#[test]
fn setup_scatters_agents_at_rest() {
    let agents = setup(200).unwrap();
    assert_eq!(agents.len(), 200);
    assert!(flock_is_valid(&agents));
    for agent in &agents {
        assert!(-500 * UNIT <= agent.position.x && agent.position.x < 500 * UNIT);
        assert!(-500 * UNIT <= agent.position.y && agent.position.y < 500 * UNIT);
        assert!(-5 * UNIT <= agent.acceleration.x && agent.acceleration.x < 5 * UNIT);
        assert!(-5 * UNIT <= agent.acceleration.y && agent.acceleration.y < 5 * UNIT);
        assert_eq!(agent.velocity, Vec2::zero());
        assert_eq!(agent.heading, Vec2::new(0, -UNIT));
    }
    assert_eq!(setup(0), Some(Vec::new()));
}

#[test]
fn setup_of_many_agents_goes_on_past_the_first_blocks() {
    let agents = setup(5_000).unwrap();
    assert_eq!(agents.len(), 5_000);
    assert!(flock_is_valid(&agents));
}

#[test]
fn setup_does_not_put_everybody_on_one_point() {
    let agents = setup(50).unwrap();
    let first = agents[0].position;
    assert!(agents.iter().any(|agent| agent.position != first));
}
