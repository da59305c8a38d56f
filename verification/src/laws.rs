//! Global properties of the simulation, stated and proved against the
//! spec-level model that the executable functions are verified to
//! implement.

use crate::boids::{
    alignment_spec, avoid_spec, cohesion_spec, combined_spec, filter_snaps, nbr_pred,
    new_vel_spec, resolve_spec, separation_spec, snap_of, sum_pos, sum_sep, sum_vel, BoidSnap,
};
use crate::math::{dist2, div_tz, norm2, Vec2};
use crate::world::{boid_ok, world_ok, Boid, Obstacle, World};
use vstd::prelude::*;

verus! {

/// The speed cap law: in any well-formed population — in particular
/// after `World::tick`, which ensures well-formedness — every boid's
/// squared speed is within its own `max_speed` squared.
pub proof fn lemma_speed_cap(w: World, i: int)
    requires
        world_ok(w),
        0 <= i < w.boids@.len(),
    ensures
        norm2(w.boids@[i].velocity.0) <= w.boids@[i].data.max_speed * w.boids@[i].data.max_speed,
{
    assert(boid_ok(w.boids@[i]));
}

/// No obstacle within its radius contributes: the avoidance vector
/// over a set of obstacles all at or beyond their own separation radii
/// is zero.
pub proof fn lemma_avoid_zero(pos: Vec2, obs: Seq<Obstacle>)
    requires
        forall|k: int|
            0 <= k < obs.len() ==> dist2(pos, #[trigger] obs[k].position.0) >= (
            obs[k].data.separation_radius as int) * (obs[k].data.separation_radius as int),
    ensures
        avoid_spec(pos, obs) == (0int, 0int),
    decreases obs.len(),
{
    if obs.len() == 0 {
    } else {
        assert(obs.last() == obs[obs.len() - 1]);
        assert forall|k: int|
            0 <= k < obs.drop_last().len() implies dist2(
            pos,
            #[trigger] obs.drop_last()[k].position.0,
        ) >= (obs.drop_last()[k].data.separation_radius as int) * (
        obs.drop_last()[k].data.separation_radius as int) by {
            assert(obs.drop_last()[k] == obs[k]);
        }
        lemma_avoid_zero(pos, obs.drop_last());
    }
}

/// Empty-neighborhood stability: a lone boid — no other boid strictly
/// within any of its three radii, no obstacle strictly within its own
/// separation radius — gets zero separation, alignment, cohesion and
/// avoidance, so its resolved velocity depends on the noise term alone.
pub proof fn lemma_lone_boid(boids: Seq<Boid>, obstacles: Seq<Obstacle>, noise: Seq<Vec2>, i: int)
    requires
        0 <= i < boids.len(),
        noise.len() == boids.len(),
        forall|j: int|
            0 <= j < boids.len() && j != i ==> dist2(
                boids[i].position.0,
                #[trigger] boids[j].position.0,
            ) >= (boids[i].data.separation_radius as int) * (
            boids[i].data.separation_radius as int),
        forall|j: int|
            0 <= j < boids.len() && j != i ==> dist2(
                boids[i].position.0,
                #[trigger] boids[j].position.0,
            ) >= (boids[i].data.alignment_radius as int) * (boids[i].data.alignment_radius as int),
        forall|j: int|
            0 <= j < boids.len() && j != i ==> dist2(
                boids[i].position.0,
                #[trigger] boids[j].position.0,
            ) >= (boids[i].data.cohesion_radius as int) * (boids[i].data.cohesion_radius as int),
        forall|k: int|
            0 <= k < obstacles.len() ==> dist2(
                boids[i].position.0,
                #[trigger] obstacles[k].position.0,
            ) >= (obstacles[k].data.separation_radius as int) * (
            obstacles[k].data.separation_radius as int),
    ensures
        new_vel_spec(boids, obstacles, noise, i) == resolve_spec(
            boids[i].velocity.0,
            boids[i].data.max_speed as int,
            combined_spec(
                boids[i].data,
                (0int, 0int),
                (0int, 0int),
                (0int, 0int),
                (noise[i].x as int, noise[i].y as int),
                (0int, 0int),
            ),
        ),
{
    let b = boids[i];
    lemma_avoid_zero(b.position.0, obstacles);
    assert(dist2_far(boids, i, b.data.separation_radius));
    assert(dist2_far(boids, i, b.data.alignment_radius));
    assert(dist2_far(boids, i, b.data.cohesion_radius));
    lemma_lone_filter_empty(boids, i, b.data.separation_radius, b.data.separation_fov);
    lemma_lone_filter_empty(boids, i, b.data.alignment_radius, b.data.alignment_fov);
    lemma_lone_filter_empty(boids, i, b.data.cohesion_radius, b.data.cohesion_fov);
}

/// Every other boid is at or beyond squared distance `r * r` from boid
/// `i`.
pub open spec fn dist2_far(boids: Seq<Boid>, i: int, r: i64) -> bool {
    forall|j: int|
        0 <= j < boids.len() && j != i ==> dist2(
            boids[i].position.0,
            #[trigger] boids[j].position.0,
        ) >= (r as int) * (r as int)
}

/// A boid whose every peer is at or beyond `r` has an empty neighbor
/// list at radius `r`, whatever the angular restriction.
proof fn lemma_lone_filter_empty(boids: Seq<Boid>, i: int, r: i64, f: Option<i64>)
    requires
        0 <= i < boids.len(),
        dist2_far(boids, i, r),
    ensures
        filter_snaps(
            snap_of(boids),
            Option::Some(i as usize),
            boids[i].position.0,
            r as int,
            boids[i].velocity.0,
            f,
        ) == Seq::<BoidSnap>::empty(),
{
    let b = boids[i];
    let pop = snap_of(boids);
    assert forall|j: int|
        0 <= j < pop.len() implies !nbr_pred(
        Option::Some(i as usize),
        b.position.0,
        r as int,
        b.velocity.0,
        f,
        #[trigger] pop[j],
    ) by {
        if j == i {
            assert(pop[j].id == i as usize);
        } else {
            assert(dist2(b.position.0, boids[j].position.0) >= (r as int) * (r as int));
            assert(pop[j].position == boids[j].position.0);
        }
    }
    crate::boids::lemma_filter_snaps_empty(
        pop,
        Option::Some(i as usize),
        b.position.0,
        r as int,
        b.velocity.0,
        f,
    );
}

/// Separation direction: two boids at `(0, 0)` and `(d, 0)` with
/// `0 < d` strictly within the first boid's separation radius, both at
/// rest and without angular restriction — the separation steering of
/// the boid at the origin is exactly `(-d, 0)`: away from its
/// neighbor, with positive magnitude.
pub proof fn lemma_separation_direction(b0: Boid, b1: Boid, d: i64)
    requires
        b0.position.0 == (Vec2 { x: 0i64, y: 0i64 }),
        b0.velocity.0 == (Vec2 { x: 0i64, y: 0i64 }),
        b1.position.0 == (Vec2 { x: d, y: 0i64 }),
        b1.velocity.0 == (Vec2 { x: 0i64, y: 0i64 }),
        0 < d < b0.data.separation_radius,
        b0.data.separation_fov == Option::<i64>::None,
    ensures
        separation_spec(
            b0.position.0,
            filter_snaps(
                snap_of(seq![b0, b1]),
                Option::Some(0usize),
                b0.position.0,
                b0.data.separation_radius as int,
                b0.velocity.0,
                b0.data.separation_fov,
            ),
        ) == (-(d as int), 0int),
{
    let pop = snap_of(seq![b0, b1]);
    let r = b0.data.separation_radius as int;
    assert(pop.len() == 2);
    assert(pop[0].id == 0usize && pop[1].id == 1usize);
    assert(pop[1].position == b1.position.0);
    assert((d as int) * (d as int) < r * r) by (nonlinear_arith)
        requires
            0 < d < r,
    ;
    assert(dist2(b0.position.0, pop[1].position) == (d as int) * (d as int)) by (nonlinear_arith)
        requires
            b0.position.0 == (Vec2 { x: 0i64, y: 0i64 }),
            pop[1].position == (Vec2 { x: d, y: 0i64 }),
    ;
    let e = Seq::<BoidSnap>::empty();
    let nbrs = filter_snaps(pop, Option::Some(0usize), b0.position.0, r, b0.velocity.0, Option::None);
    assert(pop.drop_last().drop_last() =~= e);
    assert(pop.drop_last().last() == pop[0]);
    assert(pop.last() == pop[1]);
    assert(!nbr_pred(Option::Some(0usize), b0.position.0, r, b0.velocity.0, Option::None, pop[0]));
    assert(nbr_pred(Option::Some(0usize), b0.position.0, r, b0.velocity.0, Option::None, pop[1]));
    assert(filter_snaps(e, Option::Some(0usize), b0.position.0, r, b0.velocity.0, Option::None)
        =~= e);
    assert(filter_snaps(pop.drop_last(), Option::Some(0usize), b0.position.0, r, b0.velocity.0,
        Option::None) =~= e);
    assert(nbrs =~= seq![pop[1]]);
    assert(nbrs.drop_last() =~= e);
    assert(nbrs.last() == pop[1]);
    assert(sum_sep(b0.position.0, nbrs.drop_last()) == (0int, 0int));
    assert(sum_sep(b0.position.0, nbrs) == (-(d as int), 0int));
    assert(div_tz(-(d as int), 1) == -(d as int) && div_tz(0int, 1) == 0int) by (nonlinear_arith)
        requires
            d > 0,
    ;
}

/// The velocity sum over neighbors that all move at `(1, 0)` is
/// `(len, 0)`.
proof fn lemma_sum_vel_ones(nbrs: Seq<BoidSnap>)
    requires
        forall|j: int| 0 <= j < nbrs.len() ==> #[trigger] nbrs[j].velocity == (Vec2 { x: 1i64, y: 0i64 }),
    ensures
        sum_vel(nbrs) == (nbrs.len() as int, 0int),
    decreases nbrs.len(),
{
    if nbrs.len() == 0 {
    } else {
        assert forall|j: int|
            0 <= j < nbrs.drop_last().len() implies #[trigger] nbrs.drop_last()[j].velocity == (
            Vec2 { x: 1i64, y: 0i64 }) by {
            assert(nbrs.drop_last()[j] == nbrs[j]);
        }
        lemma_sum_vel_ones(nbrs.drop_last());
        assert(nbrs.last() == nbrs[nbrs.len() - 1]);
    }
}

/// Alignment convergence: a boid at rest whose neighbors all move at
/// `(1, 0)` gets the alignment steering vector `(1, 0)` exactly.
pub proof fn lemma_alignment_convergence(vel: Vec2, nbrs: Seq<BoidSnap>)
    requires
        vel == (Vec2 { x: 0i64, y: 0i64 }),
        nbrs.len() > 0,
        forall|j: int| 0 <= j < nbrs.len() ==> #[trigger] nbrs[j].velocity == (Vec2 { x: 1i64, y: 0i64 }),
    ensures
        alignment_spec(vel, nbrs) == (1int, 0int),
{
    lemma_sum_vel_ones(nbrs);
    let n = nbrs.len() as int;
    assert(div_tz(n, n) == 1 && div_tz(0int, n) == 0int) by (nonlinear_arith)
        requires
            n >= 1,
    ;
}

/// Cohesion attraction: with exactly one neighbor, the cohesion
/// steering vector is the full offset from the boid to that neighbor —
/// for a boid at the origin and a neighbor at `(10, 0)`, exactly
/// `(10, 0)`.
pub proof fn lemma_cohesion_single(pos: Vec2, c: BoidSnap)
    ensures
        cohesion_spec(pos, seq![c]) == (
            c.position.x - pos.x as int,
            c.position.y - pos.y as int,
        ),
{
    let s = seq![c];
    assert(s.drop_last() =~= Seq::<BoidSnap>::empty());
    assert(s.last() == c);
    assert(sum_pos(s.drop_last()) == (0int, 0int));
    assert(sum_pos(s) == (c.position.x as int, c.position.y as int));
    assert(div_tz(c.position.x as int, 1) == c.position.x && div_tz(c.position.y as int, 1)
        == c.position.y) by (nonlinear_arith);
}

/// Obstacle exclusion boundary: from a single obstacle, a boid at or
/// beyond the obstacle's separation radius receives nothing (the
/// distance comparison is strict), and a boid strictly inside receives
/// the offset away from the obstacle scaled by the obstacle's weight.
pub proof fn lemma_obstacle_boundary(pos: Vec2, o: Obstacle)
    ensures
        dist2(pos, o.position.0) >= (o.data.separation_radius as int) * (
        o.data.separation_radius as int) ==> avoid_spec(pos, seq![o]) == (0int, 0int),
        dist2(pos, o.position.0) < (o.data.separation_radius as int) * (
        o.data.separation_radius as int) ==> avoid_spec(pos, seq![o]) == (
            (pos.x - o.position.0.x) * o.data.separation_weight,
            (pos.y - o.position.0.y) * o.data.separation_weight,
        ),
{
    let s = seq![o];
    assert(s.drop_last() =~= Seq::<Obstacle>::empty());
    assert(s.last() == o);
    assert(avoid_spec(pos, s.drop_last()) == (0int, 0int));
}

/// No steering: with all four steering weights zero and no obstacles,
/// the combined impulse is exactly zero and the resolved velocity of a
/// well-formed boid is its previous velocity, unchanged.
pub proof fn lemma_no_steering_velocity_fixed(boids: Seq<Boid>, noise: Seq<Vec2>, i: int)
    requires
        0 <= i < boids.len(),
        noise.len() == boids.len(),
        boids[i].data.separation_weight == 0,
        boids[i].data.alignment_weight == 0,
        boids[i].data.cohesion_weight == 0,
        boids[i].data.noise_weight == 0,
        boid_ok(boids[i]),
    ensures
        new_vel_spec(boids, Seq::<Obstacle>::empty(), noise, i) == (
            boids[i].velocity.0.x as int,
            boids[i].velocity.0.y as int,
        ),
{
    let b = boids[i];
    assert(avoid_spec(b.position.0, Seq::<Obstacle>::empty()) == (0int, 0int));
    assert(div_tz(0int, crate::WEIGHT_SCALE as int) == 0int) by (nonlinear_arith);
}

/// A position advanced by `v * dt` once per tick, starting from `p`.
pub open spec fn iterate_pos(p: int, v: int, dt: int, n: nat) -> int
    decreases n,
{
    if n == 0 {
        p
    } else {
        iterate_pos(p, v, dt, (n - 1) as nat) + v * dt
    }
}

/// Integrator round trip: a coordinate integrated `n` times at
/// constant velocity `v` and duration `dt` lands exactly at
/// `p + n * dt * v`. Together with `lemma_no_steering_velocity_fixed`,
/// a boid with all weights zero and no obstacles moves in a straight
/// line at its initial velocity.
pub proof fn lemma_integrator_round_trip(p: int, v: int, dt: int, n: nat)
    ensures
        iterate_pos(p, v, dt, n) == p + n * dt * v,
    decreases n,
{
    if n == 0 {
        assert(n * dt * v == 0) by (nonlinear_arith)
            requires
                n == 0,
        ;
    } else {
        lemma_integrator_round_trip(p, v, dt, (n - 1) as nat);
        assert(((n - 1) as nat) * dt * v + v * dt == n * dt * v) by (nonlinear_arith)
            requires
                n >= 1,
        ;
    }
}

} // verus!
