//! Tests of the geometry, the speed curve, and the per-individual physics.

use pandemic_sim::constants::{
    MAX_DESIRED_VELOCITY, MAX_PARTICLE_RADIUS, MIN_PARTICLE_RADIUS, SIMULATION_LENGTH,
    TARGET_RADIUS, distance,
};
use pandemic_sim::individual::{Individual, InfectionState};
use pandemic_sim::math::{div_trunc, isqrt};
use pandemic_sim::target::Target;

fn agent_at(x: i64, y: i64, radius: i64) -> Individual {
    let home = (1_000_000, 1_000_000);
    Individual {
        id: 0,
        x,
        y,
        vx: 0,
        vy: 0,
        radius,
        state: InfectionState::Susceptible,
        to_infect: 0,
        residence: home,
        targets: [
            Target { location: (1_500_000, 1_000_000), radius: TARGET_RADIUS },
            Target { location: (500_000, 1_000_000), radius: TARGET_RADIUS },
            Target { location: home, radius: TARGET_RADIUS },
        ],
        target_idx: 0,
        day_done: false,
    }
}

#[test]
fn isqrt_exact_values() {
    assert_eq!(isqrt(0), 0);
    assert_eq!(isqrt(1), 1);
    assert_eq!(isqrt(15), 3);
    assert_eq!(isqrt(16), 4);
    assert_eq!(isqrt(2_500_000_000), 50_000);
    assert_eq!(isqrt(4_000_000_000_000_000_000), 2_000_000_000);
}

#[test]
fn distance_exact_values() {
    // a 3-4-5 triangle in subunits
    assert_eq!(distance((0, 0), (30_000, 40_000)), 50_000);
    assert_eq!(distance((30_000, 40_000), (0, 0)), 50_000);
    assert_eq!(distance((7, 7), (7, 7)), 0);
    assert_eq!(distance((0, 0), (10, 0)), 10);
}

#[test]
fn div_trunc_rounds_toward_zero() {
    assert_eq!(div_trunc(99, 40), 2);
    assert_eq!(div_trunc(-99, 40), -2);
    assert_eq!(div_trunc(0, 40), 0);
}

#[test]
fn speed_curve_is_zero_at_min_radius() {
    assert_eq!(Individual::calculate_desired_velocity(MIN_PARTICLE_RADIUS), 0);
}

#[test]
fn speed_curve_is_capped_at_max_radius() {
    assert_eq!(
        Individual::calculate_desired_velocity(MAX_PARTICLE_RADIUS),
        MAX_DESIRED_VELOCITY
    );
}

#[test]
fn speed_curve_first_step_exact() {
    // t = 1: the fraction is 4096/2700 -> 1, the tenth root of 4096 is 2,
    // and 20000 * 2 / 4096 = 9.
    assert_eq!(Individual::calculate_desired_velocity(MIN_PARTICLE_RADIUS + 1), 9);
}

#[test]
fn speed_curve_is_monotone() {
    let mut last = 0;
    let mut r = MIN_PARTICLE_RADIUS;
    while r <= MAX_PARTICLE_RADIUS {
        let v = Individual::calculate_desired_velocity(r);
        assert!(v >= last);
        assert!(v <= MAX_DESIRED_VELOCITY);
        last = v;
        r += 185;
    }
}

#[test]
fn wall_collision_near_left_wall() {
    // position (0.05, 10), range 0.1, domain of size 200: collision at (0, 10)
    let a = agent_at(500, 100_000, 1_000);
    let walls = a.check_wall_collisions();
    assert_eq!(walls, vec![(0, 100_000)]);
}

#[test]
fn wall_collision_at_corner_yields_two_points() {
    let a = agent_at(500, 700, 1_000);
    let walls = a.check_wall_collisions();
    assert_eq!(walls, vec![(0, 700), (500, 0)]);
}

#[test]
fn no_wall_collision_in_the_open() {
    let a = agent_at(1_000_000, 1_000_000, MAX_PARTICLE_RADIUS);
    assert!(a.check_wall_collisions().is_empty());
}

#[test]
fn wall_collision_at_far_walls() {
    let a = agent_at(SIMULATION_LENGTH - 500, SIMULATION_LENGTH - 700, 1_000);
    let walls = a.check_wall_collisions();
    assert_eq!(
        walls,
        vec![
            (SIMULATION_LENGTH, SIMULATION_LENGTH - 700),
            (SIMULATION_LENGTH - 500, SIMULATION_LENGTH),
        ]
    );
}

#[test]
fn colliding_is_symmetric_in_scenarios() {
    let a = agent_at(1_000_000, 1_000_000, 1_000);
    let b = agent_at(1_001_500, 1_000_000, 1_000);
    assert!(a.is_colliding(&b));
    assert!(b.is_colliding(&a));
    let far = agent_at(1_500_000, 1_000_000, 1_000);
    assert!(!a.is_colliding(&far));
    assert!(!far.is_colliding(&a));
}

#[test]
fn colliding_boundary_is_inclusive() {
    // distance exactly equal to the radius sum counts as a collision
    let a = agent_at(1_000_000, 1_000_000, 1_000);
    let b = agent_at(1_002_000, 1_000_000, 1_000);
    assert!(a.is_colliding(&b));
    let c = agent_at(1_002_001, 1_000_000, 1_000);
    assert!(!a.is_colliding(&c));
}

#[test]
fn step_integrates_velocity() {
    let mut a = agent_at(1_000_000, 1_000_000, 1_000);
    a.vx = 20_000;
    a.vy = -20_000;
    a.step();
    assert_eq!((a.x, a.y), (1_000_500, 999_500));
}

#[test]
fn step_stops_at_the_domain_boundary() {
    let mut a = agent_at(SIMULATION_LENGTH - 100, 50, 1_000);
    a.vx = 20_000;
    a.vy = -20_000;
    a.step();
    assert_eq!((a.x, a.y), (SIMULATION_LENGTH, 0));
}

#[test]
fn update_desired_walks_straight_at_the_target() {
    let mut a = agent_at(1_000_000, 1_000_000, MAX_PARTICLE_RADIUS);
    a.update_desired();
    // radius already at the cap; the first target lies straight to the right
    assert_eq!(a.radius, MAX_PARTICLE_RADIUS);
    assert_eq!(a.vx, MAX_DESIRED_VELOCITY);
    assert_eq!(a.vy, 0);
}

#[test]
fn update_desired_grows_the_radius() {
    let mut a = agent_at(1_000_000, 1_000_000, MIN_PARTICLE_RADIUS);
    a.update_desired();
    assert_eq!(a.radius, MIN_PARTICLE_RADIUS + 185);
    let mut b = agent_at(1_000_000, 1_000_000, MAX_PARTICLE_RADIUS - 10);
    b.update_desired();
    assert_eq!(b.radius, MAX_PARTICLE_RADIUS);
}

#[test]
fn update_desired_rests_on_its_own_target() {
    let mut a = agent_at(1_500_000, 1_000_000, 1_000);
    a.update_desired();
    assert_eq!((a.vx, a.vy), (0, 0));
}

#[test]
fn update_escape_flees_a_single_collision_point() {
    let mut a = agent_at(1_000_000, 1_000_000, 2_000);
    a.update_escape(&vec![(990_000, 1_000_000)]);
    assert_eq!(a.radius, MIN_PARTICLE_RADIUS);
    assert_eq!(a.vx, MAX_DESIRED_VELOCITY);
    assert_eq!(a.vy, 0);
}

#[test]
fn update_escape_symmetric_points_keep_velocity_defined() {
    // two collision points at (x - 1, y) and (x + 1, y): the escape
    // directions cancel and the previous velocity is retained
    let mut a = agent_at(1_000_000, 1_000_000, 2_000);
    a.vx = 123;
    a.vy = -456;
    a.update_escape(&vec![(990_000, 1_000_000), (1_010_000, 1_000_000)]);
    assert_eq!(a.radius, MIN_PARTICLE_RADIUS);
    assert_eq!(a.vx, 123);
    assert_eq!(a.vy, -456);
}

#[test]
fn update_escape_composes_two_directions() {
    // collision points left and below: the escape velocity points up-right
    let mut a = agent_at(1_000_000, 1_000_000, 2_000);
    a.update_escape(&vec![(990_000, 1_000_000), (1_000_000, 990_000)]);
    assert_eq!(a.radius, MIN_PARTICLE_RADIUS);
    assert!(a.vx > 0);
    assert!(a.vy > 0);
    assert_eq!(a.vx, a.vy);
}

#[test]
fn update_target_advances_the_itinerary() {
    let mut a = agent_at(1_499_000, 1_000_000, 1_000);
    // inside the first target's circle: 1000 subunits away, radii 3000+1000
    assert!(!a.update_target());
    assert_eq!(a.target_idx, 1);
    assert!(!a.day_done);
}

#[test]
fn update_target_far_away_does_nothing() {
    let mut a = agent_at(1_000_000, 1_000_000, 1_000);
    assert!(!a.update_target());
    assert_eq!(a.target_idx, 0);
}

#[test]
fn update_target_reaching_home_ends_the_day() {
    let mut a = agent_at(1_000_100, 1_000_000, 1_000);
    a.target_idx = 2;
    assert!(a.update_target());
    assert!(a.day_done);
}

#[test]
fn in_target_boundary_is_inclusive() {
    let a = agent_at(1_004_000, 1_000_000, 1_000);
    let t = Target { location: (1_000_000, 1_000_000), radius: 3_000 };
    assert!(t.in_target(&a));
    let b = agent_at(1_004_001, 1_000_000, 1_000);
    assert!(!t.in_target(&b));
}

#[test]
fn new_target_lies_inside_the_margins() {
    for _ in 0..50 {
        let t = Target::new(TARGET_RADIUS);
        assert_eq!(t.radius, TARGET_RADIUS);
        assert!(t.location.0 >= MIN_PARTICLE_RADIUS);
        assert!(t.location.0 <= SIMULATION_LENGTH - MIN_PARTICLE_RADIUS);
        assert!(t.location.1 >= MIN_PARTICLE_RADIUS);
        assert!(t.location.1 <= SIMULATION_LENGTH - MIN_PARTICLE_RADIUS);
    }
}

#[test]
fn generated_itinerary_ends_at_home() {
    let home = (700_000, 800_000);
    let ts = pandemic_sim::target::generate_targets(home);
    assert_eq!(ts[2].location, home);
    assert_eq!(ts[0].radius, TARGET_RADIUS);
    assert_eq!(ts[1].radius, TARGET_RADIUS);
    assert_eq!(ts[2].radius, TARGET_RADIUS);
}

#[test]
fn new_individual_starts_at_home_susceptible() {
    let home = (500_000, 600_000);
    let a = Individual::new(7, home);
    assert_eq!(a.id, 7);
    assert_eq!((a.x, a.y), home);
    assert_eq!((a.vx, a.vy), (0, 0));
    assert_eq!(a.radius, MIN_PARTICLE_RADIUS);
    assert!(matches!(a.state, InfectionState::Susceptible));
    assert_eq!(a.to_infect, 0);
    assert_eq!(a.targets[2].location, home);
    assert_eq!(a.target_idx, 0);
    assert!(!a.day_done);
}
