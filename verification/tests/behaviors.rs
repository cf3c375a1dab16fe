use boids::agent::{flock_is_valid, Agent};
use boids::behaviors::{
    align, avoid_border, cohesion, neighbor_target_of, seek_mouse, seperate, Rule,
    SteeringRequest, HALF_EXTENT,
};
use boids::config::BehaviorConfig;
use boids::vec2::Vec2;

const UNIT: i64 = 1_000_000;

fn at(x: i64, y: i64) -> Agent {
    Agent::new(Vec2::new(x * UNIT, y * UNIT), Vec2::zero(), Vec2::zero()).unwrap()
}

fn moving(x: i64, y: i64, vx: i64, vy: i64) -> Agent {
    Agent::new(Vec2::new(x * UNIT, y * UNIT), Vec2::new(vx * UNIT, vy * UNIT), Vec2::zero())
        .unwrap()
}

fn config_with_radius(radius: i64) -> BehaviorConfig {
    BehaviorConfig {
        separation_radius: radius * UNIT,
        alignment_radius: radius * UNIT,
        cohesion_radius: radius * UNIT,
        ..BehaviorConfig::default()
    }
}

#[test]
fn default_config_is_the_standard_tuning() {
    let config = BehaviorConfig::default();
    assert!(config.is_valid());
    assert!(config.seek_enabled && config.border_enabled && config.separation_enabled);
    assert!(config.alignment_enabled && config.cohesion_enabled);
    assert_eq!(config.seek_strength, 0);
    assert_eq!(config.border_strength, 4 * UNIT);
    assert_eq!(config.alignment_strength, 2 * UNIT);
    assert_eq!(config.separation_strength, 10 * UNIT);
    assert_eq!(config.cohesion_strength, UNIT / 100);
    assert_eq!(config.alignment_radius, 100 * UNIT);
    assert_eq!(config.separation_radius, 100 * UNIT);
    assert_eq!(config.cohesion_radius, 70 * UNIT);
}

#[test]
fn config_with_a_strength_out_of_range_is_not_valid() {
    let config = BehaviorConfig { seek_strength: 1_000_000_000_001, ..BehaviorConfig::default() };
    assert!(!config.is_valid());
    let config = BehaviorConfig { cohesion_strength: -1_000_000_000_001, ..BehaviorConfig::default() };
    assert!(!config.is_valid());
    let config = BehaviorConfig { border_strength: -1_000_000_000_000, ..BehaviorConfig::default() };
    assert!(config.is_valid());
}

#[test]
fn separation_of_two_agents_points_away_from_the_other() {
    let agents = vec![at(0, 0), at(50, 0)];
    let config = config_with_radius(150);
    let requests = seperate(&agents, &config);
    assert_eq!(requests, vec![
        SteeringRequest { agent: 0, target: Vec2::new(-UNIT, 0), weight: 10 * UNIT },
        SteeringRequest { agent: 1, target: Vec2::new(51 * UNIT, 0), weight: 10 * UNIT },
    ]);
}

#[test]
fn separation_of_two_agents_a_hair_apart_is_a_full_unit() {
    let first = Agent::new(Vec2::new(1, 1), Vec2::zero(), Vec2::zero()).unwrap();
    let second = Agent::new(Vec2::new(0, 0), Vec2::zero(), Vec2::zero()).unwrap();
    let agents = vec![first, second];
    // (1, 1) / sqrt(2) = (0.707106.., 0.707106..)
    assert_eq!(
        neighbor_target_of(Rule::Separation, &agents, 0, UNIT),
        Some(Vec2::new(707_107, 707_107))
    );
    assert_eq!(
        neighbor_target_of(Rule::Separation, &agents, 1, UNIT),
        Some(Vec2::new(-707_106, -707_106))
    );
}

#[test]
fn separation_averages_the_unit_vectors() {
    // Neighbors to the right and above: the unit vectors are (-1, 0) and
    // (0, -1), their mean is (-0.5, -0.5).
    let agents = vec![at(10, 10), at(13, 10), at(10, 14)];
    let target = neighbor_target_of(Rule::Separation, &agents, 0, 6 * UNIT);
    assert_eq!(target, Some(Vec2::new(10 * UNIT - 500_000, 10 * UNIT - 500_000)));
}

#[test]
fn separation_ignores_agents_at_or_beyond_the_radius() {
    let agents = vec![at(0, 0), at(150, 0), at(0, -151)];
    let config = config_with_radius(150);
    assert_eq!(seperate(&agents, &config), vec![]);
}

#[test]
fn separation_passes_over_an_agent_on_the_same_point() {
    let agents = vec![at(7, 7), at(7, 7)];
    let config = config_with_radius(150);
    assert_eq!(seperate(&agents, &config), vec![]);
    let agents = vec![at(7, 7), at(7, 7), at(7, 8)];
    let requests = seperate(&agents, &config);
    assert_eq!(requests.len(), 3);
    assert_eq!(requests[0].target, Vec2::new(7 * UNIT, 6 * UNIT));
    assert_eq!(requests[1].target, Vec2::new(7 * UNIT, 6 * UNIT));
    assert_eq!(requests[2].target, Vec2::new(7 * UNIT, 9 * UNIT));
}

#[test]
fn alignment_heads_for_the_mean_velocity_of_the_neighbors() {
    let agents = vec![moving(0, 0, 9, 9), moving(10, 0, 4, 0), moving(0, 10, 0, -2), moving(500, 0, 77, 77)];
    let config = config_with_radius(100);
    let requests = align(&agents, &config);
    assert_eq!(requests.len(), 3);
    assert_eq!(requests[0], SteeringRequest {
        agent: 0,
        target: Vec2::new(2 * UNIT, -UNIT),
        weight: 2 * UNIT,
    });
    // Agent 1 sees agents 0 and 2: mean velocity (4.5, 3.5).
    assert_eq!(requests[1].target, Vec2::new(10 * UNIT + 4_500_000, 3_500_000));
    assert_eq!(requests[2].agent, 2);
}

#[test]
fn alignment_counts_an_agent_on_the_same_point() {
    let agents = vec![moving(3, 3, 0, 0), moving(3, 3, 8, -6)];
    let target = neighbor_target_of(Rule::Alignment, &agents, 0, UNIT);
    assert_eq!(target, Some(Vec2::new(11 * UNIT, -3 * UNIT)));
}

#[test]
fn cohesion_heads_for_the_mean_position_of_the_neighbors() {
    let agents = vec![at(0, 0), at(30, 0), at(0, 60), at(-400, 0)];
    let config = config_with_radius(70);
    let requests = cohesion(&agents, &config);
    assert_eq!(requests.len(), 3);
    assert_eq!(requests[0], SteeringRequest {
        agent: 0,
        target: Vec2::new(15 * UNIT, 30 * UNIT),
        weight: UNIT / 100,
    });
    // Agent 1 sees agents 0 and 2 (the latter at distance 67.08).
    assert_eq!(requests[1].target, Vec2::new(0, 30 * UNIT));
    assert_eq!(requests[2].target, Vec2::new(15 * UNIT, 0));
}

#[test]
fn mean_is_rounded_toward_zero() {
    let first = Agent::new(Vec2::new(0, 0), Vec2::zero(), Vec2::zero()).unwrap();
    let second = Agent::new(Vec2::new(-3, 5), Vec2::zero(), Vec2::zero()).unwrap();
    let third = Agent::new(Vec2::new(-4, 2), Vec2::zero(), Vec2::zero()).unwrap();
    let agents = vec![first, second, third];
    // Sum (-7, 7) over two neighbors.
    assert_eq!(neighbor_target_of(Rule::Cohesion, &agents, 0, UNIT), Some(Vec2::new(-3, 3)));
}

#[test]
fn agent_without_neighbors_gets_no_target() {
    let agents = vec![at(0, 0), at(200, 0)];
    assert_eq!(neighbor_target_of(Rule::Separation, &agents, 0, 150 * UNIT), None);
    assert_eq!(neighbor_target_of(Rule::Alignment, &agents, 0, 150 * UNIT), None);
    assert_eq!(neighbor_target_of(Rule::Cohesion, &agents, 1, 150 * UNIT), None);
    let alone = vec![at(1, 1)];
    assert_eq!(neighbor_target_of(Rule::Cohesion, &alone, 0, 150 * UNIT), None);
}

#[test]
fn radius_that_is_not_positive_senses_nothing() {
    let agents = vec![at(0, 0), at(0, 0), at(1, 0)];
    assert_eq!(neighbor_target_of(Rule::Cohesion, &agents, 0, 0), None);
    assert_eq!(neighbor_target_of(Rule::Alignment, &agents, 0, -5 * UNIT), None);
    assert_eq!(neighbor_target_of(Rule::Separation, &agents, 2, i64::MIN), None);
}

#[test]
fn huge_radius_senses_everybody() {
    let agents = vec![at(-1_000_000, -1_000_000), at(1_000_000, 1_000_000)];
    assert_eq!(
        neighbor_target_of(Rule::Cohesion, &agents, 0, i64::MAX),
        Some(Vec2::new(1_000_000 * UNIT, 1_000_000 * UNIT))
    );
}

#[test]
fn disabled_behaviors_ask_for_nothing() {
    let agents = vec![at(0, 0), at(1, 0), at(900, 900)];
    let config = BehaviorConfig {
        seek_enabled: false,
        border_enabled: false,
        separation_enabled: false,
        alignment_enabled: false,
        cohesion_enabled: false,
        ..BehaviorConfig::default()
    };
    assert_eq!(seperate(&agents, &config), vec![]);
    assert_eq!(align(&agents, &config), vec![]);
    assert_eq!(cohesion(&agents, &config), vec![]);
    assert_eq!(avoid_border(&agents, &config), vec![]);
    assert_eq!(seek_mouse(&agents, Some(Vec2::new(1, 1)), &config), vec![]);
}

#[test]
fn border_avoidance_pulls_back_to_the_right_edge() {
    let agents = vec![at(900, 123)];
    let requests = avoid_border(&agents, &BehaviorConfig::default());
    assert_eq!(requests, vec![SteeringRequest {
        agent: 0,
        target: Vec2::new(750 * UNIT, 123 * UNIT),
        weight: 4 * UNIT,
    }]);
}

#[test]
fn border_avoidance_handles_each_edge() {
    let agents = vec![at(-751, 0), at(0, 751), at(0, -900), at(0, 0)];
    let requests = avoid_border(&agents, &BehaviorConfig::default());
    assert_eq!(requests.len(), 3);
    assert_eq!((requests[0].agent, requests[0].target), (0, Vec2::new(-HALF_EXTENT, 0)));
    assert_eq!((requests[1].agent, requests[1].target), (1, Vec2::new(0, HALF_EXTENT)));
    assert_eq!((requests[2].agent, requests[2].target), (2, Vec2::new(0, -HALF_EXTENT)));
}

#[test]
fn border_avoidance_asks_twice_in_a_corner() {
    let agents = vec![at(0, 0), at(800, -800)];
    let requests = avoid_border(&agents, &BehaviorConfig::default());
    assert_eq!(requests, vec![
        SteeringRequest {
            agent: 1,
            target: Vec2::new(750 * UNIT, -800 * UNIT),
            weight: 4 * UNIT,
        },
        SteeringRequest {
            agent: 1,
            target: Vec2::new(800 * UNIT, -750 * UNIT),
            weight: 4 * UNIT,
        },
    ]);
}

#[test]
fn agent_on_the_edge_is_inside() {
    let agents = vec![at(750, -750), at(-750, 750)];
    assert_eq!(avoid_border(&agents, &BehaviorConfig::default()), vec![]);
    let just_outside =
        vec![Agent::new(Vec2::new(HALF_EXTENT + 1, 0), Vec2::zero(), Vec2::zero()).unwrap()];
    assert_eq!(avoid_border(&just_outside, &BehaviorConfig::default()).len(), 1);
}

#[test]
fn seeking_asks_every_agent_to_head_for_the_pointer() {
    let agents = vec![at(0, 0), at(5, 5), at(-900, 0)];
    let config = BehaviorConfig { seek_strength: 3 * UNIT, ..BehaviorConfig::default() };
    let pointer = Vec2::new(12 * UNIT, -34 * UNIT);
    let requests = seek_mouse(&agents, Some(pointer), &config);
    assert_eq!(requests, vec![
        SteeringRequest { agent: 0, target: pointer, weight: 3 * UNIT },
        SteeringRequest { agent: 1, target: pointer, weight: 3 * UNIT },
        SteeringRequest { agent: 2, target: pointer, weight: 3 * UNIT },
    ]);
}

#[test]
fn seeking_without_a_pointer_asks_for_nothing() {
    let agents = vec![at(0, 0), at(5, 5)];
    let config = BehaviorConfig { seek_strength: 3 * UNIT, ..BehaviorConfig::default() };
    assert_eq!(seek_mouse(&agents, None, &config), vec![]);
}

#[test]
fn seeking_a_pointer_out_of_reach_asks_for_nothing() {
    let agents = vec![at(0, 0)];
    let config = BehaviorConfig { seek_strength: 3 * UNIT, ..BehaviorConfig::default() };
    assert_eq!(seek_mouse(&agents, Some(Vec2::new(2_000_000_000_001, 0)), &config), vec![]);
    assert_eq!(seek_mouse(&agents, Some(Vec2::new(0, i64::MIN)), &config), vec![]);
    assert_eq!(seek_mouse(&agents, Some(Vec2::new(2_000_000_000_000, 0)), &config).len(), 1);
}

#[test]
fn requests_of_the_behaviors_are_valid() {
    let agents = vec![at(1_000_000, 1_000_000), at(1_000_000, 999_999), at(-1_000_000, 0)];
    assert!(flock_is_valid(&agents));
    let config = config_with_radius(10);
    for request in seperate(&agents, &config) {
        assert!(request.is_valid());
    }
    for request in avoid_border(&agents, &config) {
        assert!(request.is_valid());
    }
    let far = SteeringRequest { agent: 0, target: Vec2::new(2_000_000_000_001, 0), weight: 0 };
    assert!(!far.is_valid());
    let heavy = SteeringRequest { agent: 0, target: Vec2::zero(), weight: 1_000_000_000_001 };
    assert!(!heavy.is_valid());
}

#[test]
fn agent_out_of_range_is_not_made() {
    let far = Vec2::new(1_000_000_000_001, 0);
    assert_eq!(Agent::new(far, Vec2::zero(), Vec2::zero()), None);
    assert_eq!(Agent::new(Vec2::zero(), far, Vec2::zero()), None);
    assert_eq!(Agent::new(Vec2::zero(), Vec2::zero(), far), None);
    let edge = Vec2::new(-1_000_000_000_000, 1_000_000_000_000);
    assert!(Agent::new(edge, edge, edge).is_some());
}

#[test]
fn new_agent_has_the_heading_of_its_velocity() {
    let resting = Agent::new(Vec2::new(1, 2), Vec2::zero(), Vec2::new(3, 4)).unwrap();
    assert_eq!(resting.position, Vec2::new(1, 2));
    assert_eq!(resting.acceleration, Vec2::new(3, 4));
    assert_eq!(resting.heading, Vec2::new(0, -UNIT));
    let moving = Agent::new(Vec2::zero(), Vec2::new(3, 4), Vec2::zero()).unwrap();
    assert_eq!(moving.heading, Vec2::new(4, -3));
}

#[test]
fn flock_with_an_agent_out_of_range_is_not_valid() {
    let mut agents = vec![at(0, 0), at(1, 1)];
    assert!(flock_is_valid(&agents));
    assert!(agents[1].is_valid());
    agents[1].velocity.y = -1_000_000_000_001;
    assert!(!agents[1].is_valid());
    assert!(!flock_is_valid(&agents));
    assert!(flock_is_valid(&Vec::new()));
}
