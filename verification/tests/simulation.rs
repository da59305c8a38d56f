use boids::boids::{BoidSnap, BoidSystem};
use boids::components::{BoidData, ObstacleData, Position, Velocity};
use boids::entities::{fill_boid, get_boid_vel, load_world, new_obstacle, MAX_VEL};
use boids::math::{cap_velocity, div_i64, isqrt_u128, Vec2};
use boids::mouse::MouseInputSystem;
use boids::world::{Obstacle, World};

fn v(x: i64, y: i64) -> Vec2 {
    Vec2 { x, y }
}

fn norm_sq(a: Vec2) -> i128 {
    (a.x as i128) * (a.x as i128) + (a.y as i128) * (a.y as i128)
}

fn snap(id: usize, px: i64, py: i64, vx: i64, vy: i64) -> BoidSnap {
    BoidSnap { id, position: v(px, py), velocity: v(vx, vy) }
}

fn quiet_data() -> BoidData {
    BoidData { noise_weight: 0, ..BoidData::default() }
}

#[test]
fn speed_cap_after_ticks() {
    let mut world = World::new();
    let mut data = BoidData::default();
    data.max_speed = 40;
    world.spawn_boid(Position(v(0, 0)), Velocity(v(0, 0)), data);
    world.spawn_boid(Position(v(10, 0)), Velocity(v(30, 20)), data);
    world.spawn_boid(Position(v(0, 12)), Velocity(v(-25, 5)), data);
    for _ in 0..5 {
        world.tick(1);
        for b in world.boids.iter() {
            let ms = b.data.max_speed as i128;
            assert!(norm_sq(b.velocity.0) <= ms * ms);
        }
    }
}

#[test]
fn lone_boid_zero_noise_velocity_unchanged() {
    let mut world = World::new();
    world.spawn_boid(Position(v(0, 0)), Velocity(v(7, -3)), quiet_data());
    let noise = vec![v(0, 0)];
    world.tick_with_noise(2, &noise);
    assert_eq!(world.boids[0].velocity.0, v(7, -3));
    assert_eq!(world.boids[0].position.0, v(14, -6));
}

#[test]
fn lone_boid_moves_only_by_noise() {
    let mut world = World::new();
    let mut data = BoidData::default();
    data.noise_weight = 100;
    world.spawn_boid(Position(v(0, 0)), Velocity(v(0, 0)), data);
    let noise = vec![v(50, 0)];
    world.tick_with_noise(1, &noise);
    assert_eq!(world.boids[0].velocity.0, v(50, 0));
    assert_eq!(world.boids[0].position.0, v(50, 0));
}

#[test]
fn separation_points_away_from_neighbour() {
    let system = BoidSystem;
    let data = BoidData::default();
    let all = vec![snap(0, 0, 0, 0, 0), snap(1, 30, 0, 0, 0)];
    let nbrs = system.neighbour_boids(Some(0), v(0, 0), data.separation_radius, v(0, 0), None, &all);
    assert_eq!(nbrs.len(), 1);
    let sep = system.separation(&data, v(0, 0), v(0, 0), &nbrs);
    assert_eq!(sep, v(-30, 0));
    assert!(sep.x < 0);
}

#[test]
fn separation_boundary_is_strict() {
    let system = BoidSystem;
    let data = BoidData::default();
    let all = vec![snap(0, 0, 0, 0, 0), snap(1, 75, 0, 0, 0)];
    let nbrs = system.neighbour_boids(Some(0), v(0, 0), data.separation_radius, v(0, 0), None, &all);
    assert_eq!(nbrs.len(), 0);
    let sep = system.separation(&data, v(0, 0), v(0, 0), &nbrs);
    assert_eq!(sep, v(0, 0));
}

#[test]
fn alignment_matches_neighbourhood_heading() {
    let system = BoidSystem;
    let data = BoidData::default();
    let nbrs = vec![snap(1, 5, 0, 1, 0), snap(2, 0, 5, 1, 0), snap(3, 5, 5, 1, 0)];
    let ali = system.alignment(&data, v(0, 0), v(0, 0), &nbrs);
    assert_eq!(ali, v(1, 0));
}

#[test]
fn cohesion_steers_toward_neighbour() {
    let system = BoidSystem;
    let data = BoidData::default();
    let nbrs = vec![snap(1, 10, 0, 0, 0)];
    let coh = system.cohesion(&data, v(0, 0), v(0, 0), &nbrs);
    assert_eq!(coh, v(10, 0));
}

#[test]
fn self_is_never_a_neighbour() {
    let system = BoidSystem;
    let all = vec![snap(0, 0, 0, 0, 0)];
    let nbrs = system.neighbour_boids(Some(0), v(0, 0), 1000, v(0, 0), None, &all);
    assert_eq!(nbrs.len(), 0);
    let anon = system.neighbour_boids(None, v(0, 0), 1000, v(0, 0), None, &all);
    assert_eq!(anon.len(), 1);
}

#[test]
fn fov_filters_by_heading_angle() {
    let system = BoidSystem;
    // A half-angle of 90 degrees: stored cosine 0. The filter compares
    // the candidate's velocity against the querying boid's velocity.
    let fov = Some(0);
    let facing = v(1, 0);
    let along = vec![snap(1, 5, 0, 1, 0)];
    let opposite = vec![snap(1, 5, 0, -1, 0)];
    let perpendicular = vec![snap(1, 5, 0, 0, 1)];
    let still = vec![snap(1, 5, 0, 0, 0)];
    assert_eq!(system.neighbour_boids(None, v(0, 0), 100, facing, fov, &along).len(), 1);
    assert_eq!(system.neighbour_boids(None, v(0, 0), 100, facing, fov, &opposite).len(), 0);
    // Exactly at the half-angle: excluded, the comparison is strict.
    assert_eq!(system.neighbour_boids(None, v(0, 0), 100, facing, fov, &perpendicular).len(), 0);
    // The angle to a motionless candidate is undefined: excluded.
    assert_eq!(system.neighbour_boids(None, v(0, 0), 100, facing, fov, &still).len(), 0);
}

#[test]
fn obstacle_exclusion_boundary() {
    let system = BoidSystem;
    let obstacle = Obstacle {
        position: Position(v(0, 0)),
        data: ObstacleData::default(),
    };
    let obstacles = vec![obstacle];
    // Exactly at the separation radius (200): strict comparison, no push.
    let at_radius = vec![snap(0, 200, 0, 0, 0)];
    let r = system.calculate_obstacles(&at_radius, &obstacles);
    assert_eq!(r[0], v(0, 0));
    // Just inside: pushed away, scaled by the obstacle weight (20).
    let inside = vec![snap(0, 199, 0, 0, 0)];
    let r = system.calculate_obstacles(&inside, &obstacles);
    assert_eq!(r[0], v(199 * 20, 0));
    assert!(r[0].x > 0);
}

#[test]
fn spawn_on_release_edge_only() {
    let mut world = World::new();
    let mut mouse = MouseInputSystem::default();
    let cursor = Some(v(5, 7));
    let signals = [false, true, true, false];
    let mut counts = Vec::new();
    for s in signals {
        mouse.run(s, cursor, &mut world);
        counts.push(world.boids.len());
    }
    assert_eq!(counts, vec![0, 0, 0, 1]);
    assert_eq!(world.boids[0].position.0, v(5, 7));
    let d = world.boids[0].data;
    assert_eq!(d.cohesion_weight, 100);
    assert_eq!(d.max_speed, 500);
    let ms = MAX_VEL as i128;
    assert!(norm_sq(world.boids[0].velocity.0) <= ms * ms);
}

#[test]
fn no_spawn_while_held() {
    let mut world = World::new();
    let mut mouse = MouseInputSystem::default();
    let cursor = Some(v(1, 2));
    for s in [false, true, true, true] {
        mouse.run(s, cursor, &mut world);
    }
    assert_eq!(world.boids.len(), 0);
}

#[test]
fn unresolved_cursor_skips_the_spawn() {
    let mut world = World::new();
    let mut mouse = MouseInputSystem::default();
    mouse.run(true, None, &mut world);
    mouse.run(false, None, &mut world);
    assert_eq!(world.boids.len(), 0);
    assert!(!mouse.place_prev_pressed);
}

#[test]
fn integrator_round_trip() {
    let mut world = World::new();
    let mut data = quiet_data();
    data.separation_weight = 0;
    data.alignment_weight = 0;
    data.cohesion_weight = 0;
    world.spawn_boid(Position(v(100, -200)), Velocity(v(3, 4)), data);
    let n: i64 = 5;
    let dt: i64 = 2;
    for _ in 0..n {
        world.tick(dt);
    }
    assert_eq!(world.boids[0].velocity.0, v(3, 4));
    assert_eq!(world.boids[0].position.0, v(100 + n * dt * 3, -200 + n * dt * 4));
}

#[test]
fn cohesion_only_flock_drifts_together() {
    let mut world = World::new();
    let mut data = quiet_data();
    data.separation_weight = 0;
    data.alignment_weight = 0;
    // Cohesion weight 100 stands for 1.0: the impulse is the full
    // offset to the neighbourhood centroid.
    world.spawn_boid(Position(v(0, 0)), Velocity(v(0, 0)), data);
    world.spawn_boid(Position(v(10, 0)), Velocity(v(0, 0)), data);
    let noise = vec![v(0, 0), v(0, 0)];
    world.tick_with_noise(1, &noise);
    assert_eq!(world.boids[0].velocity.0, v(10, 0));
    assert_eq!(world.boids[1].velocity.0, v(-10, 0));
    assert_eq!(world.boids[0].position.0, v(10, 0));
    assert_eq!(world.boids[1].position.0, v(0, 0));
}

#[test]
fn empty_world_ticks() {
    let mut world = World::new();
    world.tick(1);
    world.tick_with_noise(0, &Vec::new());
    assert_eq!(world.boids.len(), 0);
    assert_eq!(world.obstacles.len(), 0);
}

#[test]
fn zero_tick_duration_freezes_positions() {
    let mut world = World::new();
    world.spawn_boid(Position(v(9, 9)), Velocity(v(100, 100)), quiet_data());
    let noise = vec![v(0, 0)];
    world.tick_with_noise(0, &noise);
    assert_eq!(world.boids[0].position.0, v(9, 9));
}

#[test]
fn world_perimeter_layout() {
    let mut world = World::new();
    load_world(&mut world);
    assert_eq!(world.obstacles.len(), 44);
    assert_eq!(world.obstacles[0].position.0, v(-835, -430));
    assert_eq!(world.obstacles[1].position.0, v(-835, 430));
    assert_eq!(world.obstacles[26].position.0, v(13 * 120 - 835, -430));
    assert_eq!(world.obstacles[28].position.0, v(-815, -450));
    assert_eq!(world.obstacles[29].position.0, v(815, -450));
    assert_eq!(world.obstacles[43].position.0, v(815, 7 * 120 - 450));
    for o in world.obstacles.iter() {
        assert_eq!(o.data.separation_weight, 20);
        assert_eq!(o.data.separation_radius, 200);
    }
}

#[test]
fn fill_boid_uses_defaults() {
    let mut world = World::new();
    let id = fill_boid(&mut world, v(42, -17));
    assert_eq!(id, 0);
    assert_eq!(world.boids.len(), 1);
    assert_eq!(world.boids[0].position.0, v(42, -17));
    assert_eq!(world.boids[0].data.separation_radius, 75);
    assert_eq!(world.boids[0].data.alignment_radius, 150);
    let ms = MAX_VEL as i128;
    assert!(norm_sq(world.boids[0].velocity.0) <= ms * ms);
}

#[test]
fn new_obstacle_appends() {
    let mut world = World::new();
    let id = new_obstacle(&mut world, v(3, 4));
    assert_eq!(id, 0);
    assert_eq!(world.obstacles.len(), 1);
    assert_eq!(world.obstacles[0].position.0, v(3, 4));
}

#[test]
fn random_velocity_is_bounded() {
    for _ in 0..100 {
        let r = get_boid_vel(500);
        assert!(norm_sq(r) <= 500 * 500);
        let z = get_boid_vel(0);
        assert_eq!(z, v(0, 0));
    }
}

#[test]
fn cap_rescales_exactly() {
    assert_eq!(cap_velocity(v(30, 40), 5), v(3, 4));
    assert_eq!(cap_velocity(v(3, 4), 5), v(3, 4));
    assert_eq!(cap_velocity(v(-30, 40), 5), v(-3, 4));
    assert_eq!(cap_velocity(v(7, 0), 0), v(0, 0));
}

#[test]
fn integer_helpers_truncate_and_root() {
    assert_eq!(div_i64(7, 2), 3);
    assert_eq!(div_i64(-7, 2), -3);
    assert_eq!(div_i64(0, 5), 0);
    assert_eq!(isqrt_u128(0), 0);
    assert_eq!(isqrt_u128(15), 3);
    assert_eq!(isqrt_u128(16), 4);
    assert_eq!(isqrt_u128(u64::MAX as u128 * u64::MAX as u128), u64::MAX as u128);
}

#[test]
fn averages_truncate_toward_zero() {
    let system = BoidSystem;
    let data = BoidData::default();
    // Two neighbours at x = -3 and x = -4: the centroid average
    // -7 / 2 truncates toward zero to -3.
    let nbrs = vec![snap(1, -3, 0, 0, 0), snap(2, -4, 0, 0, 0)];
    let coh = system.cohesion(&data, v(0, 0), v(0, 0), &nbrs);
    assert_eq!(coh, v(-3, 0));
}
