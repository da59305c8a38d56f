//! The agent store: the live population of boids and obstacles, its
//! well-formedness invariant, and the population mutators.

use crate::boids::{new_vel_spec, BoidSystem};
use crate::components::{
    boid_data_ok, obstacle_data_ok, BoidData, ObstacleData, Position, Velocity,
};
use crate::math::{in_box, norm2, Vec2};
use crate::physics::PhysicsSystem;
use vstd::prelude::*;

verus! {

/// One flocking agent: mutable position and velocity plus tunables.
#[derive(Clone, Copy, Debug)]
pub struct Boid {
    pub position: Position,
    pub velocity: Velocity,
    pub data: BoidData,
}

/// One static obstacle.
#[derive(Clone, Copy, Debug)]
pub struct Obstacle {
    pub position: Position,
    pub data: ObstacleData,
}

/// The live population. A boid's identity is its index, stable for the
/// boid's lifetime (there is no removal path).
pub struct World {
    pub boids: Vec<Boid>,
    pub obstacles: Vec<Obstacle>,
}

/// A boid is well formed when its tunables are in range, its position
/// lies in the world box, and its speed respects its own cap.
pub open spec fn boid_ok(b: Boid) -> bool {
    &&& boid_data_ok(b.data)
    &&& in_box(b.position.0, crate::P_MAX as int)
    &&& norm2(b.velocity.0) <= b.data.max_speed * b.data.max_speed
}

pub open spec fn obstacle_ok(o: Obstacle) -> bool {
    obstacle_data_ok(o.data) && in_box(o.position.0, crate::P_MAX as int)
}

/// The store invariant: every agent is well formed and the obstacle
/// population is small enough for the avoidance accumulation.
pub open spec fn world_ok(w: World) -> bool {
    &&& forall|i: int| 0 <= i < w.boids@.len() ==> boid_ok(#[trigger] w.boids@[i])
    &&& forall|i: int| 0 <= i < w.obstacles@.len() ==> obstacle_ok(#[trigger] w.obstacles@[i])
    &&& w.obstacles@.len() <= crate::N_MAX as int
}

impl World {
    /// An empty population.
    pub fn new() -> (w: World)
        ensures
            w.boids@ == Seq::<Boid>::empty(),
            w.obstacles@ == Seq::<Obstacle>::empty(),
            world_ok(w),
    {
        World { boids: Vec::new(), obstacles: Vec::new() }
    }

    /// Append one boid; its id is its index, stable from here on.
    pub fn spawn_boid(&mut self, position: Position, velocity: Velocity, data: BoidData) -> (id:
        usize)
        requires
            world_ok(*old(self)),
            boid_ok(Boid { position, velocity, data }),
            old(self).boids@.len() < usize::MAX,
        ensures
            id == old(self).boids@.len(),
            final(self).boids@ == old(self).boids@.push(Boid { position, velocity, data }),
            final(self).obstacles@ == old(self).obstacles@,
            world_ok(*final(self)),
    {
        let id = self.boids.len();
        self.boids.push(Boid { position, velocity, data });
        id
    }

    /// Append one obstacle; obstacles are immutable and permanent.
    pub fn spawn_obstacle(&mut self, position: Position, data: ObstacleData) -> (id: usize)
        requires
            world_ok(*old(self)),
            obstacle_ok(Obstacle { position, data }),
            old(self).obstacles@.len() < crate::N_MAX as int,
        ensures
            id == old(self).obstacles@.len(),
            final(self).obstacles@ == old(self).obstacles@.push(Obstacle { position, data }),
            final(self).boids@ == old(self).boids@,
            world_ok(*final(self)),
    {
        let id = self.obstacles.len();
        self.obstacles.push(Obstacle { position, data });
        id
    }

    /// Advance the simulation one step with the given noise vectors:
    /// one steering pass writes every boid's new velocity against the
    /// tick-start snapshot, then the integrator advances every position
    /// by the just-resolved velocity times `dt`.
    pub fn tick_with_noise(&mut self, dt: i64, noise: &Vec<Vec2>)
        requires
            world_ok(*old(self)),
            0 <= dt <= crate::DT_MAX,
            forall|i: int|
                0 <= i < old(self).boids@.len() ==> in_box(
                    #[trigger] old(self).boids@[i].position.0,
                    crate::P_ROOM as int,
                ),
            noise@.len() == old(self).boids@.len(),
            forall|i: int|
                0 <= i < noise@.len() ==> in_box(#[trigger] noise@[i], crate::V_MAX as int),
        ensures
            final(self).boids@.len() == old(self).boids@.len(),
            final(self).obstacles@ == old(self).obstacles@,
            forall|i: int| #![trigger final(self).boids@[i]]
                0 <= i < old(self).boids@.len() ==> {
                    &&& final(self).boids@[i].data == old(self).boids@[i].data
                    &&& (
                        final(self).boids@[i].velocity.0.x as int,
                        final(self).boids@[i].velocity.0.y as int,
                    ) == new_vel_spec(old(self).boids@, old(self).obstacles@, noise@, i)
                    &&& final(self).boids@[i].position.0.x as int == old(
                        self,
                    ).boids@[i].position.0.x + new_vel_spec(
                        old(self).boids@,
                        old(self).obstacles@,
                        noise@,
                        i,
                    ).0 * dt
                    &&& final(self).boids@[i].position.0.y as int == old(
                        self,
                    ).boids@[i].position.0.y + new_vel_spec(
                        old(self).boids@,
                        old(self).obstacles@,
                        noise@,
                        i,
                    ).1 * dt
                },
            world_ok(*final(self)),
    {
        let system = BoidSystem;
        system.run(self, noise);
        proof {
            assert forall|i: int|
                0 <= i < self.boids@.len() implies in_box(
                #[trigger] self.boids@[i].position.0,
                crate::P_ROOM as int,
            ) by {
                assert(self.boids@[i].position == old(self).boids@[i].position);
                assert(in_box(old(self).boids@[i].position.0, crate::P_ROOM as int));
            }
        }
        let physics = PhysicsSystem;
        physics.run(self, dt);
    }

    /// Advance the simulation one step, drawing one fresh noise vector
    /// per boid: the returned ghost sequence is the noise that was
    /// drawn, so the rest of the step is exactly `tick_with_noise`.
    pub fn tick(&mut self, dt: i64) -> (gnoise: Ghost<Seq<Vec2>>)
        requires
            world_ok(*old(self)),
            0 <= dt <= crate::DT_MAX,
            forall|i: int|
                0 <= i < old(self).boids@.len() ==> in_box(
                    #[trigger] old(self).boids@[i].position.0,
                    crate::P_ROOM as int,
                ),
        ensures
            final(self).boids@.len() == old(self).boids@.len(),
            final(self).obstacles@ == old(self).obstacles@,
            gnoise@.len() == old(self).boids@.len(),
            forall|i: int|
                0 <= i < gnoise@.len() ==> in_box(#[trigger] gnoise@[i], crate::V_MAX as int),
            forall|i: int| #![trigger final(self).boids@[i]]
                0 <= i < old(self).boids@.len() ==> {
                    &&& final(self).boids@[i].data == old(self).boids@[i].data
                    &&& (
                        final(self).boids@[i].velocity.0.x as int,
                        final(self).boids@[i].velocity.0.y as int,
                    ) == new_vel_spec(old(self).boids@, old(self).obstacles@, gnoise@, i)
                    &&& final(self).boids@[i].position.0.x as int == old(
                        self,
                    ).boids@[i].position.0.x + new_vel_spec(
                        old(self).boids@,
                        old(self).obstacles@,
                        gnoise@,
                        i,
                    ).0 * dt
                    &&& final(self).boids@[i].position.0.y as int == old(
                        self,
                    ).boids@[i].position.0.y + new_vel_spec(
                        old(self).boids@,
                        old(self).obstacles@,
                        gnoise@,
                        i,
                    ).1 * dt
                },
            world_ok(*final(self)),
    {
        let system = BoidSystem;
        let n = self.boids.len();
        let mut noise: Vec<Vec2> = Vec::new();
        let mut i: usize = 0;
        while i < n
            invariant
                i <= n,
                n == self.boids@.len(),
                *self == *old(self),
                world_ok(*self),
                noise@.len() == i as int,
                forall|j: int|
                    0 <= j < noise@.len() ==> in_box(#[trigger] noise@[j], crate::V_MAX as int),
            decreases n - i,
        {
            proof {
                assert(boid_ok(self.boids@[i as int]));
            }
            let b = &self.boids[i];
            let v = system.noise(&b.data);
            noise.push(v);
            i = i + 1;
        }
        self.tick_with_noise(dt, &noise);
        Ghost(noise@)
    }
}

} // verus!
