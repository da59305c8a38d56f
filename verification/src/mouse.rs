//! The spawn controller: edge-detects the logical "place" signal and,
//! on its release, places one boid at the supplied world coordinate.

use crate::components::default_boid_data;
use crate::entities::{fill_boid, MAX_VEL};
use crate::math::{in_box, norm2, Vec2};
use crate::world::{world_ok, World};
use vstd::prelude::*;

verus! {

/// A spawn happens exactly when the remembered signal was held and the
/// sampled signal has been released.
pub open spec fn spawn_edge(prev_pressed: bool, pressed: bool) -> bool {
    prev_pressed && !pressed
}

/// Samples the place signal once per tick and remembers it, spawning
/// on release edges only.
pub struct MouseInputSystem {
    pub place_prev_pressed: bool,
}

impl Default for MouseInputSystem {
    /// Starts with the signal remembered as released.
    fn default() -> (s: MouseInputSystem)
        ensures
            s.place_prev_pressed == false,
    {
        MouseInputSystem { place_prev_pressed: false }
    }
}

impl MouseInputSystem {
    /// Sample the place signal. On a release edge (held before, released
    /// now) with a resolved cursor coordinate, place one boid there with
    /// the default tunables — release-edge triggering debounces rapid
    /// re-presses. An unresolved coordinate skips the spawn: that is a
    /// missed opportunity, not an error. The remembered signal is
    /// updated either way.
    pub fn run(&mut self, place_pressed: bool, mouse_pos: Option<Vec2>, world: &mut World)
        requires
            world_ok(*old(world)),
            old(world).boids@.len() < usize::MAX,
            match mouse_pos {
                Option::Some(p) => in_box(p, crate::P_MAX as int),
                Option::None => true,
            },
        ensures
            final(self).place_prev_pressed == place_pressed,
            world_ok(*final(world)),
            final(world).obstacles@ == old(world).obstacles@,
            match mouse_pos {
                Option::Some(p) => {
                    if spawn_edge(old(self).place_prev_pressed, place_pressed) {
                        &&& final(world).boids@.len() == old(world).boids@.len() + 1
                        &&& forall|j: int|
                            0 <= j < old(world).boids@.len()
                                ==> #[trigger] final(world).boids@[j] == old(world).boids@[j]
                        &&& final(world).boids@.last().position.0 == p
                        &&& final(world).boids@.last().data == default_boid_data()
                        &&& norm2(final(world).boids@.last().velocity.0) <= MAX_VEL * MAX_VEL
                    } else {
                        final(world).boids@ == old(world).boids@
                    }
                },
                Option::None => final(world).boids@ == old(world).boids@,
            },
    {
        match mouse_pos {
            Some(pos) => {
                if !place_pressed && self.place_prev_pressed {
                    fill_boid(world, pos);
                }
            },
            None => {},
        }
        self.place_prev_pressed = place_pressed;
    }
}

} // verus!
