//! The integrator: advances every boid's position by its velocity
//! times the tick duration. Pure and stateless; it runs strictly after
//! the steering pass has finalized every velocity for the tick.

use crate::math::in_box;
use crate::world::{boid_ok, world_ok, World};
use vstd::prelude::*;

verus! {

/// The velocity-integration pass.
pub struct PhysicsSystem;

impl PhysicsSystem {
    /// Advance each position by `velocity * dt`, exactly. Velocities
    /// and tunables are untouched.
    pub fn run(&self, world: &mut World, dt: i64)
        requires
            world_ok(*old(world)),
            0 <= dt <= crate::DT_MAX,
            forall|i: int|
                0 <= i < old(world).boids@.len() ==> in_box(
                    #[trigger] old(world).boids@[i].position.0,
                    crate::P_ROOM as int,
                ),
        ensures
            final(world).boids@.len() == old(world).boids@.len(),
            forall|i: int| #![trigger final(world).boids@[i]]
                0 <= i < old(world).boids@.len() ==> {
                    &&& final(world).boids@[i].velocity == old(world).boids@[i].velocity
                    &&& final(world).boids@[i].data == old(world).boids@[i].data
                    &&& final(world).boids@[i].position.0.x as int == old(
                        world,
                    ).boids@[i].position.0.x + old(world).boids@[i].velocity.0.x * dt
                    &&& final(world).boids@[i].position.0.y as int == old(
                        world,
                    ).boids@[i].position.0.y + old(world).boids@[i].velocity.0.y * dt
                },
            final(world).obstacles@ == old(world).obstacles@,
            world_ok(*final(world)),
    {
        let n = world.boids.len();
        let mut new_boids: Vec<crate::world::Boid> = Vec::new();
        let mut i: usize = 0;
        while i < n
            invariant
                i <= n,
                n == world.boids@.len(),
                *world == *old(world),
                world_ok(*world),
                0 <= dt <= crate::DT_MAX,
                forall|j: int|
                    0 <= j < world.boids@.len() ==> in_box(
                        #[trigger] world.boids@[j].position.0,
                        crate::P_ROOM as int,
                    ),
                new_boids@.len() == i as int,
                forall|j: int| #![trigger new_boids@[j]]
                    0 <= j < i as int ==> new_boids@[j].velocity == world.boids@[j].velocity
                        && new_boids@[j].data == world.boids@[j].data
                        && new_boids@[j].position.0.x as int == world.boids@[j].position.0.x
                        + world.boids@[j].velocity.0.x * dt && new_boids@[j].position.0.y as int
                        == world.boids@[j].position.0.y + world.boids@[j].velocity.0.y * dt
                        && boid_ok(new_boids@[j]),
            decreases n - i,
        {
            let b = world.boids[i];
            proof {
                assert(boid_ok(world.boids@[i as int]));
                assert(in_box(world.boids@[i as int].position.0, crate::P_ROOM as int));
                crate::components::lemma_norm_in_box(b.velocity.0, b.data.max_speed as int);
                assert(-0x4000_0000int <= (b.velocity.0.x as int) * (dt as int)
                    <= 0x4000_0000int && -0x4000_0000int <= (b.velocity.0.y as int) * (
                dt as int) <= 0x4000_0000int) by (nonlinear_arith)
                    requires
                        -(crate::V_MAX as int) <= b.velocity.0.x <= crate::V_MAX as int,
                        -(crate::V_MAX as int) <= b.velocity.0.y <= crate::V_MAX as int,
                        0 <= dt <= crate::DT_MAX,
                ;
            }
            let nx: i128 = (b.position.0.x as i128) + (b.velocity.0.x as i128) * (dt as i128);
            let ny: i128 = (b.position.0.y as i128) + (b.velocity.0.y as i128) * (dt as i128);
            new_boids.push(
                crate::world::Boid {
                    position: crate::components::Position(
                        crate::math::Vec2 { x: nx as i64, y: ny as i64 },
                    ),
                    velocity: b.velocity,
                    data: b.data,
                },
            );
            i = i + 1;
        }
        world.boids = new_boids;
    }
}

} // verus!
