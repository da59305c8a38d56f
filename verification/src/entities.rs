//! Agent creation: interactively placed boids, obstacles, and the
//! initial perimeter of obstacles around the playing field.

use crate::components::{
    default_boid_data, default_obstacle_data, BoidData, ObstacleData, Position, Velocity,
};
use crate::math::{cap_velocity, in_box, norm2, Vec2};
use crate::world::{world_ok, Obstacle, World};
use vstd::prelude::*;

verus! {

/// Top speed, and bound on the random initial speed, of a placed boid.
pub const MAX_VEL: i64 = 500;

/// A random initial velocity: direction and length vary per call, the
/// magnitude never exceeds `max_vel`.
pub fn get_boid_vel(max_vel: i64) -> (r: Vec2)
    requires
        0 <= max_vel <= crate::V_MAX,
    ensures
        norm2(r) <= max_vel * max_vel,
        in_box(r, max_vel as int),
{
    let dx = crate::rng::rand_range_i64(-max_vel, max_vel);
    let dy = crate::rng::rand_range_i64(-max_vel, max_vel);
    cap_velocity(Vec2 { x: dx, y: dy }, max_vel)
}

/// Place one boid at `start_pos` with the default tunables and a
/// random initial velocity of magnitude at most `MAX_VEL`.
pub fn fill_boid(world: &mut World, start_pos: Vec2) -> (id: usize)
    requires
        world_ok(*old(world)),
        in_box(start_pos, crate::P_MAX as int),
        old(world).boids@.len() < usize::MAX,
    ensures
        id == old(world).boids@.len(),
        final(world).boids@.len() == old(world).boids@.len() + 1,
        forall|j: int|
            0 <= j < old(world).boids@.len() ==> #[trigger] final(world).boids@[j] == old(
                world,
            ).boids@[j],
        final(world).boids@[id as int].position.0 == start_pos,
        final(world).boids@[id as int].data == default_boid_data(),
        norm2(final(world).boids@[id as int].velocity.0) <= MAX_VEL * MAX_VEL,
        final(world).obstacles@ == old(world).obstacles@,
        world_ok(*final(world)),
{
    let data = BoidData::default();
    let vel = Velocity(get_boid_vel(MAX_VEL));
    world.spawn_boid(Position(start_pos), vel, data)
}

/// Place one obstacle at `start_pos` with the default tunables.
pub fn new_obstacle(world: &mut World, start_pos: Vec2) -> (id: usize)
    requires
        world_ok(*old(world)),
        in_box(start_pos, crate::P_MAX as int),
        old(world).obstacles@.len() < crate::N_MAX as int,
    ensures
        id == old(world).obstacles@.len(),
        final(world).obstacles@ == old(world).obstacles@.push(
            Obstacle { position: Position(start_pos), data: default_obstacle_data() },
        ),
        final(world).boids@ == old(world).boids@,
        world_ok(*final(world)),
{
    world.spawn_obstacle(Position(start_pos), ObstacleData::default())
}

/// The position of the `k`-th perimeter obstacle: two horizontal rows
/// of 14 at `y = -430` and `y = 430` (alternating), then two vertical
/// columns of 8 at `x = -815` and `x = 815` (alternating), on a grid
/// spacing of 120.
pub open spec fn perimeter_position(k: int) -> Vec2 {
    if k < 28 {
        Vec2 {
            x: ((k / 2) * 120 - 835) as i64,
            y: if k % 2 == 0 {
                -430i64
            } else {
                430i64
            },
        }
    } else {
        Vec2 {
            x: if k % 2 == 0 {
                -815i64
            } else {
                815i64
            },
            y: (((k - 28) / 2) * 120 - 450) as i64,
        }
    }
}

/// Build the initial world layout: a rectangular perimeter of 44
/// obstacles with the default obstacle tunables, appended in order.
pub fn load_world(world: &mut World)
    requires
        world_ok(*old(world)),
        old(world).obstacles@.len() + 44 <= crate::N_MAX as int,
    ensures
        final(world).boids@ == old(world).boids@,
        final(world).obstacles@.len() == old(world).obstacles@.len() + 44,
        forall|j: int|
            0 <= j < old(world).obstacles@.len() ==> #[trigger] final(world).obstacles@[j] == old(
                world,
            ).obstacles@[j],
        forall|k: int| #![trigger perimeter_position(k)]
            0 <= k < 44 ==> final(world).obstacles@[old(world).obstacles@.len() + k] == (Obstacle {
                position: Position(perimeter_position(k)),
                data: default_obstacle_data(),
            }),
        world_ok(*final(world)),
{
    let ghost base = old(world).obstacles@.len() as int;
    let mut i: usize = 0;
    while i < 14
        invariant
            i <= 14,
            world.boids@ == old(world).boids@,
            world_ok(*world),
            base == old(world).obstacles@.len() as int,
            world.obstacles@.len() == base + 2 * (i as int),
            base + 44 <= crate::N_MAX as int,
            forall|j: int|
                0 <= j < base ==> #[trigger] world.obstacles@[j] == old(world).obstacles@[j],
            forall|k: int| #![trigger perimeter_position(k)]
                0 <= k < 2 * (i as int) ==> world.obstacles@[base + k] == (Obstacle {
                    position: Position(perimeter_position(k)),
                    data: default_obstacle_data(),
                }),
        decreases 14 - i,
    {
        let x: i64 = (i as i64) * 120 - 835;
        new_obstacle(world, Vec2 { x, y: -430 });
        new_obstacle(world, Vec2 { x, y: 430 });
        proof {
            assert(perimeter_position(2 * (i as int)) == (Vec2 { x, y: -430i64 }));
            assert(perimeter_position(2 * (i as int) + 1) == (Vec2 { x, y: 430i64 }));
        }
        i = i + 1;
    }
    let mut i2: usize = 0;
    while i2 < 8
        invariant
            i2 <= 8,
            world.boids@ == old(world).boids@,
            world_ok(*world),
            base == old(world).obstacles@.len() as int,
            world.obstacles@.len() == base + 28 + 2 * (i2 as int),
            base + 44 <= crate::N_MAX as int,
            forall|j: int|
                0 <= j < base ==> #[trigger] world.obstacles@[j] == old(world).obstacles@[j],
            forall|k: int| #![trigger perimeter_position(k)]
                0 <= k < 28 + 2 * (i2 as int) ==> world.obstacles@[base + k] == (Obstacle {
                    position: Position(perimeter_position(k)),
                    data: default_obstacle_data(),
                }),
        decreases 8 - i2,
    {
        let y: i64 = (i2 as i64) * 120 - 450;
        new_obstacle(world, Vec2 { x: -815, y });
        new_obstacle(world, Vec2 { x: 815, y });
        proof {
            assert(perimeter_position(28 + 2 * (i2 as int)) == (Vec2 { x: -815i64, y }));
            assert(perimeter_position(28 + 2 * (i2 as int) + 1) == (Vec2 { x: 815i64, y }));
        }
        i2 = i2 + 1;
    }
}

} // verus!
