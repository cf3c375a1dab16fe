use boids::agent::Agent;
use boids::behaviors::{neighbor_target_of, Rule};
use boids::config::BehaviorConfig;
use boids::physics::integrate;
use boids::simulation::step;
use boids::steering::steering_force_of;
use boids::vec2::Vec2;

const UNIT: f64 = 1_000_000.0;
const MAX_SPEED: f64 = 250.0;
const MAX_FORCE: f64 = 150.0;

#[derive(Clone, Copy)]
struct Body {
    position: (f64, f64),
    velocity: (f64, f64),
    acceleration: (f64, f64),
}

fn next(state: &mut u64) -> u64 {
    *state = state.wrapping_mul(6364136223846793005).wrapping_add(1442695040888963407);
    *state >> 33
}

fn raw(state: &mut u64, span: i64) -> i64 {
    (next(state) % (2 * span as u64 + 1)) as i64 - span
}

fn world(value: i64) -> f64 {
    value as f64 / UNIT
}

fn pair(v: Vec2) -> (f64, f64) {
    (world(v.x), world(v.y))
}

fn body_of(agent: &Agent) -> Body {
    Body {
        position: pair(agent.position),
        velocity: pair(agent.velocity),
        acceleration: pair(agent.acceleration),
    }
}

fn random_agent(state: &mut u64, place: i64, speed: i64) -> Agent {
    Agent::new(
        Vec2::new(raw(state, place), raw(state, place)),
        Vec2::new(raw(state, speed), raw(state, speed)),
        Vec2::zero(),
    )
    .unwrap()
}

fn close(got: (f64, f64), want: (f64, f64), tolerance: f64) -> bool {
    (got.0 - want.0).abs() <= tolerance && (got.1 - want.1).abs() <= tolerance
}

fn length(v: (f64, f64)) -> f64 {
    (v.0 * v.0 + v.1 * v.1).sqrt()
}

fn float_force(body: &Body, target: (f64, f64), weight: f64) -> (f64, f64) {
    let offset = (target.0 - body.position.0, target.1 - body.position.1);
    let distance = length(offset);
    let desired = if distance == 0.0 {
        (0.0, 0.0)
    } else {
        (offset.0 / distance * MAX_SPEED, offset.1 / distance * MAX_SPEED)
    };
    let steering = (desired.0 - body.velocity.0, desired.1 - body.velocity.1);
    let force = (steering.0 * weight, steering.1 * weight);
    let size = length(force);
    if size > MAX_FORCE {
        (force.0 / size * MAX_FORCE, force.1 / size * MAX_FORCE)
    } else {
        force
    }
}

fn float_target(rule: Rule, bodies: &[Body], i: usize, radius: f64) -> Option<(f64, f64)> {
    let me = bodies[i];
    let mut sum = (0.0, 0.0);
    let mut count = 0;
    for (j, other) in bodies.iter().enumerate() {
        if j == i {
            continue;
        }
        let away = (me.position.0 - other.position.0, me.position.1 - other.position.1);
        let distance = length(away);
        if distance < radius {
            match rule {
                Rule::Separation => {
                    if distance == 0.0 {
                        continue;
                    }
                    sum.0 += away.0 / distance;
                    sum.1 += away.1 / distance;
                }
                Rule::Alignment => {
                    sum.0 += other.velocity.0;
                    sum.1 += other.velocity.1;
                }
                Rule::Cohesion => {
                    sum.0 += other.position.0;
                    sum.1 += other.position.1;
                }
            }
            count += 1;
        }
    }
    if count == 0 {
        return None;
    }
    let mean = (sum.0 / count as f64, sum.1 / count as f64);
    match rule {
        Rule::Cohesion => Some(mean),
        _ => Some((me.position.0 + mean.0, me.position.1 + mean.1)),
    }
}

fn float_integrate(body: &Body, dt: f64) -> Body {
    let velocity = (
        body.velocity.0 + body.acceleration.0 * dt,
        body.velocity.1 + body.acceleration.1 * dt,
    );
    Body {
        position: (body.position.0 + velocity.0 * dt, body.position.1 + velocity.1 * dt),
        velocity,
        acceleration: (0.0, 0.0),
    }
}

fn float_step(bodies: &[Body], config: &BehaviorConfig, pointer: Option<(f64, f64)>, dt: f64) -> Vec<Body> {
    let mut after: Vec<Body> = bodies.to_vec();
    let mut push = |i: usize, target: (f64, f64), weight: i64| {
        let force = float_force(&bodies[i], target, world(weight));
        after[i].acceleration.0 += force.0;
        after[i].acceleration.1 += force.1;
    };
    for i in 0..bodies.len() {
        if let Some(point) = pointer {
            push(i, point, config.seek_strength);
        }
        if let Some(t) = float_target(Rule::Separation, bodies, i, world(config.separation_radius)) {
            push(i, t, config.separation_strength);
        }
        if let Some(t) = float_target(Rule::Alignment, bodies, i, world(config.alignment_radius)) {
            push(i, t, config.alignment_strength);
        }
        if let Some(t) = float_target(Rule::Cohesion, bodies, i, world(config.cohesion_radius)) {
            push(i, t, config.cohesion_strength);
        }
        let p = bodies[i].position;
        if p.0 < -750.0 {
            push(i, (-750.0, p.1), config.border_strength);
        } else if p.0 > 750.0 {
            push(i, (750.0, p.1), config.border_strength);
        }
        if p.1 < -750.0 {
            push(i, (p.0, -750.0), config.border_strength);
        } else if p.1 > 750.0 {
            push(i, (p.0, 750.0), config.border_strength);
        }
    }
    after.iter().map(|body| float_integrate(body, dt)).collect()
}

#[test]
fn steering_force_agrees_with_floating_point() {
    let mut state: u64 = 1;
    for _ in 0..2000 {
        let agent = random_agent(&mut state, 1_000_000_000, 400_000_000);
        let target = Vec2::new(raw(&mut state, 1_000_000_000), raw(&mut state, 1_000_000_000));
        let weight = raw(&mut state, 10_000_000);
        let got = pair(steering_force_of(&agent, target, weight));
        let want = float_force(&body_of(&agent), pair(target), world(weight));
        assert!(close(got, want, 0.0001), "{:?} against {:?}", got, want);
    }
}

#[test]
fn steering_force_agrees_with_floating_point_near_the_target() {
    let mut state: u64 = 11;
    for span in [1i64, 2, 10, 1_000, 1_000_000] {
        for _ in 0..400 {
            let agent = random_agent(&mut state, 1_000_000_000, 400_000_000);
            let target = Vec2::new(
                agent.position.x + raw(&mut state, span),
                agent.position.y + raw(&mut state, span),
            );
            let weight = raw(&mut state, 10_000_000);
            let got = pair(steering_force_of(&agent, target, weight));
            let want = float_force(&body_of(&agent), pair(target), world(weight));
            assert!(close(got, want, 0.0001), "{:?} against {:?}", got, want);
        }
    }
}

#[test]
fn neighbor_targets_agree_with_floating_point_for_crowded_agents() {
    let mut state: u64 = 12;
    for span in [1i64, 2, 5, 100, 10_000] {
        for _ in 0..40 {
            let agents: Vec<Agent> = (0..6).map(|_| random_agent(&mut state, span, span)).collect();
            let bodies: Vec<Body> = agents.iter().map(body_of).collect();
            for i in 0..agents.len() {
                for rule in [Rule::Separation, Rule::Alignment, Rule::Cohesion] {
                    let got = neighbor_target_of(rule, &agents, i, 1_000_000).map(pair);
                    let want = float_target(rule, &bodies, i, 1.0);
                    match (got, want) {
                        (Some(g), Some(w)) => {
                            assert!(close(g, w, 0.00001), "{:?} against {:?}", g, w)
                        }
                        (None, None) => {}
                        _ => panic!("{:?} against {:?}", got, want),
                    }
                }
            }
        }
    }
}

#[test]
fn neighbor_targets_agree_with_floating_point() {
    let mut state: u64 = 2;
    for round in 0..40 {
        let agents: Vec<Agent> =
            (0..25).map(|_| random_agent(&mut state, 200_000_000, 300_000_000)).collect();
        let bodies: Vec<Body> = agents.iter().map(body_of).collect();
        let radius: i64 = 20_000_000 + round * 5_000_000;
        for i in 0..agents.len() {
            for rule in [Rule::Separation, Rule::Alignment, Rule::Cohesion] {
                let got = neighbor_target_of(rule, &agents, i, radius).map(pair);
                let want = float_target(rule, &bodies, i, world(radius));
                match (got, want) {
                    (Some(g), Some(w)) => assert!(close(g, w, 0.0001), "{:?} against {:?}", g, w),
                    (None, None) => {}
                    _ => panic!("{:?} against {:?}", got, want),
                }
            }
        }
    }
}

#[test]
fn integration_agrees_with_floating_point() {
    let mut state: u64 = 3;
    for _ in 0..2000 {
        let mut agent = random_agent(&mut state, 1_000_000_000, 400_000_000);
        agent.acceleration = Vec2::new(raw(&mut state, 900_000_000), raw(&mut state, 900_000_000));
        let dt = (next(&mut state) % 100_000) as i64;
        let moved = integrate(&agent, dt);
        let want = float_integrate(&body_of(&agent), world(dt));
        assert!(close(pair(moved.velocity), want.velocity, 0.0001));
        assert!(close(pair(moved.position), want.position, 0.0001));
        assert_eq!(moved.acceleration, Vec2::zero());
    }
}

#[test]
fn step_agrees_with_floating_point() {
    let mut state: u64 = 4;
    let config = BehaviorConfig { seek_strength: 1_500_000, ..BehaviorConfig::default() };
    for round in 0..20 {
        let mut agents: Vec<Agent> =
            (0..30).map(|_| random_agent(&mut state, 800_000_000, 100_000_000)).collect();
        let bodies: Vec<Body> = agents.iter().map(body_of).collect();
        let pointer = if round % 2 == 0 {
            Some(Vec2::new(raw(&mut state, 500_000_000), raw(&mut state, 500_000_000)))
        } else {
            None
        };
        step(&mut agents, pointer, &config, 15_625);
        let want = float_step(&bodies, &config, pointer.map(pair), 0.015625);
        for (agent, body) in agents.iter().zip(want.iter()) {
            assert!(close(pair(agent.velocity), body.velocity, 0.0001));
            assert!(close(pair(agent.position), body.position, 0.0001));
        }
    }
}

#[test]
fn ten_ticks_stay_close_to_floating_point() {
    let mut state: u64 = 5;
    let config = BehaviorConfig::default();
    let mut agents: Vec<Agent> =
        (0..20).map(|_| random_agent(&mut state, 300_000_000, 50_000_000)).collect();
    let mut bodies: Vec<Body> = agents.iter().map(body_of).collect();
    for _ in 0..10 {
        step(&mut agents, None, &config, 15_625);
        bodies = float_step(&bodies, &config, None, 0.015625);
    }
    for (agent, body) in agents.iter().zip(bodies.iter()) {
        assert!(close(pair(agent.position), body.position, 0.01));
        assert!(close(pair(agent.velocity), body.velocity, 0.01));
    }
}
