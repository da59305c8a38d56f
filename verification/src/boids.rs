//! The per-tick flocking computation: neighbor discovery over a
//! population snapshot, the three steering vectors, noise, obstacle
//! avoidance, and the velocity resolver.

use crate::components::{boid_data_ok, fov_ok, BoidData, Velocity};
use crate::math::{
    ang_lt, angle_within, cap_spec, cap_velocity, dist2, dist_sq, div_i128, div_tz, in_box, norm2,
    Vec2,
};
use crate::world::{boid_ok, obstacle_ok, world_ok, Boid, Obstacle, World};
use vstd::prelude::*;

verus! {

/// One entry of the tick-start snapshot: a boid's id (its index in the
/// store) with its position and velocity at snapshot time.
#[derive(Clone, Copy, Debug)]
pub struct BoidSnap {
    pub id: usize,
    pub position: Vec2,
    pub velocity: Vec2,
}

/// Every snapshot entry lies in the world box with a velocity within
/// the global speed bound.
pub open spec fn snaps_ok(s: Seq<BoidSnap>) -> bool {
    forall|i: int| #![trigger s[i]]
        0 <= i < s.len() ==> in_box(s[i].position, crate::P_MAX as int) && in_box(
            s[i].velocity,
            crate::V_MAX as int,
        )
}

/// The snapshot of a boid population: entry `i` carries id `i` and the
/// position and velocity of boid `i`.
pub open spec fn snap_of(boids: Seq<Boid>) -> Seq<BoidSnap> {
    Seq::new(
        boids.len(),
        |i: int|
            BoidSnap {
                id: i as usize,
                position: boids[i].position.0,
                velocity: boids[i].velocity.0,
            },
    )
}

/// The neighbor criterion: a candidate is a neighbor when it is not the
/// querying boid itself, lies strictly within `radius` of `pos`, and —
/// when an angular restriction is supplied — moves within that angle of
/// the querying boid's facing.
pub open spec fn nbr_pred(
    origin: Option<usize>,
    pos: Vec2,
    radius: int,
    facing: Vec2,
    fov: Option<i64>,
    c: BoidSnap,
) -> bool {
    &&& match origin {
        Option::Some(id) => c.id != id,
        Option::None => true,
    }
    &&& dist2(pos, c.position) < radius * radius
    &&& match fov {
        Option::Some(cf) => ang_lt(facing, c.velocity, cf as int),
        Option::None => true,
    }
}

/// The subsequence of `s` satisfying the neighbor criterion, in
/// snapshot order.
pub open spec fn filter_snaps(
    s: Seq<BoidSnap>,
    origin: Option<usize>,
    pos: Vec2,
    radius: int,
    facing: Vec2,
    fov: Option<i64>,
) -> Seq<BoidSnap>
    decreases s.len(),
{
    if s.len() == 0 {
        Seq::empty()
    } else {
        let rest = filter_snaps(s.drop_last(), origin, pos, radius, facing, fov);
        if nbr_pred(origin, pos, radius, facing, fov, s.last()) {
            rest.push(s.last())
        } else {
            rest
        }
    }
}

/// When nothing satisfies the criterion the neighbor list is empty.
pub proof fn lemma_filter_snaps_empty(
    s: Seq<BoidSnap>,
    origin: Option<usize>,
    pos: Vec2,
    radius: int,
    facing: Vec2,
    fov: Option<i64>,
)
    requires
        forall|i: int| 0 <= i < s.len() ==> !nbr_pred(origin, pos, radius, facing, fov, #[trigger] s[i]),
    ensures
        filter_snaps(s, origin, pos, radius, facing, fov) == Seq::<BoidSnap>::empty(),
    decreases s.len(),
{
    if s.len() == 0 {
        assert(filter_snaps(s, origin, pos, radius, facing, fov) =~= Seq::<BoidSnap>::empty());
    } else {
        assert(forall|i: int|
            0 <= i < s.drop_last().len() ==> !nbr_pred(
                origin,
                pos,
                radius,
                facing,
                fov,
                #[trigger] s.drop_last()[i],
            ));
        lemma_filter_snaps_empty(s.drop_last(), origin, pos, radius, facing, fov);
        assert(!nbr_pred(origin, pos, radius, facing, fov, s.last()));
    }
}

/// Sum over `s` of the offsets `pos - entry.position`.
pub open spec fn sum_sep(pos: Vec2, s: Seq<BoidSnap>) -> (int, int)
    decreases s.len(),
{
    if s.len() == 0 {
        (0, 0)
    } else {
        let r = sum_sep(pos, s.drop_last());
        (r.0 + (pos.x - s.last().position.x), r.1 + (pos.y - s.last().position.y))
    }
}

/// Sum over `s` of the entries' velocities.
pub open spec fn sum_vel(s: Seq<BoidSnap>) -> (int, int)
    decreases s.len(),
{
    if s.len() == 0 {
        (0, 0)
    } else {
        let r = sum_vel(s.drop_last());
        (r.0 + s.last().velocity.x, r.1 + s.last().velocity.y)
    }
}

/// Sum over `s` of the entries' positions.
pub open spec fn sum_pos(s: Seq<BoidSnap>) -> (int, int)
    decreases s.len(),
{
    if s.len() == 0 {
        (0, 0)
    } else {
        let r = sum_pos(s.drop_last());
        (r.0 + s.last().position.x, r.1 + s.last().position.y)
    }
}

proof fn lemma_sum_sep_bound(pos: Vec2, s: Seq<BoidSnap>)
    requires
        in_box(pos, crate::P_MAX as int),
        snaps_ok(s),
    ensures
        -(s.len() as int) * (2 * crate::P_MAX as int) <= sum_sep(pos, s).0 <= (s.len() as int) * (2
            * crate::P_MAX as int),
        -(s.len() as int) * (2 * crate::P_MAX as int) <= sum_sep(pos, s).1 <= (s.len() as int) * (2
            * crate::P_MAX as int),
    decreases s.len(),
{
    if s.len() == 0 {
    } else {
        assert(snaps_ok(s.drop_last()));
        lemma_sum_sep_bound(pos, s.drop_last());
        assert(in_box(s.last().position, crate::P_MAX as int));
        crate::math::lemma_acc_step(
            sum_sep(pos, s.drop_last()).0,
            pos.x - s.last().position.x,
            s.len() - 1,
            2 * crate::P_MAX as int,
        );
        crate::math::lemma_acc_step(
            sum_sep(pos, s.drop_last()).1,
            pos.y - s.last().position.y,
            s.len() - 1,
            2 * crate::P_MAX as int,
        );
    }
}

proof fn lemma_sum_vel_bound(s: Seq<BoidSnap>)
    requires
        snaps_ok(s),
    ensures
        -(s.len() as int) * (crate::V_MAX as int) <= sum_vel(s).0 <= (s.len() as int) * (
        crate::V_MAX as int),
        -(s.len() as int) * (crate::V_MAX as int) <= sum_vel(s).1 <= (s.len() as int) * (
        crate::V_MAX as int),
    decreases s.len(),
{
    if s.len() == 0 {
    } else {
        assert(snaps_ok(s.drop_last()));
        lemma_sum_vel_bound(s.drop_last());
        assert(in_box(s.last().velocity, crate::V_MAX as int));
        crate::math::lemma_acc_step(
            sum_vel(s.drop_last()).0,
            s.last().velocity.x as int,
            s.len() - 1,
            crate::V_MAX as int,
        );
        crate::math::lemma_acc_step(
            sum_vel(s.drop_last()).1,
            s.last().velocity.y as int,
            s.len() - 1,
            crate::V_MAX as int,
        );
    }
}

proof fn lemma_sum_pos_bound(s: Seq<BoidSnap>)
    requires
        snaps_ok(s),
    ensures
        -(s.len() as int) * (crate::P_MAX as int) <= sum_pos(s).0 <= (s.len() as int) * (
        crate::P_MAX as int),
        -(s.len() as int) * (crate::P_MAX as int) <= sum_pos(s).1 <= (s.len() as int) * (
        crate::P_MAX as int),
    decreases s.len(),
{
    if s.len() == 0 {
    } else {
        assert(snaps_ok(s.drop_last()));
        lemma_sum_pos_bound(s.drop_last());
        assert(in_box(s.last().position, crate::P_MAX as int));
        crate::math::lemma_acc_step(
            sum_pos(s.drop_last()).0,
            s.last().position.x as int,
            s.len() - 1,
            crate::P_MAX as int,
        );
        crate::math::lemma_acc_step(
            sum_pos(s.drop_last()).1,
            s.last().position.y as int,
            s.len() - 1,
            crate::P_MAX as int,
        );
    }
}

/// The separation steering vector: the average over the neighbors of
/// `own position - neighbor position` — a vector pointing away from the
/// neighborhood's centroid. Zero without neighbors.
pub open spec fn separation_spec(pos: Vec2, nbrs: Seq<BoidSnap>) -> (int, int) {
    if nbrs.len() == 0 {
        (0, 0)
    } else {
        (
            div_tz(sum_sep(pos, nbrs).0, nbrs.len() as int),
            div_tz(sum_sep(pos, nbrs).1, nbrs.len() as int),
        )
    }
}

/// The alignment steering vector: the average neighbor velocity minus
/// the boid's own velocity. Zero without neighbors.
pub open spec fn alignment_spec(vel: Vec2, nbrs: Seq<BoidSnap>) -> (int, int) {
    if nbrs.len() == 0 {
        (0, 0)
    } else {
        (
            div_tz(sum_vel(nbrs).0, nbrs.len() as int) - vel.x,
            div_tz(sum_vel(nbrs).1, nbrs.len() as int) - vel.y,
        )
    }
}

/// The cohesion steering vector: the neighborhood centroid minus the
/// boid's own position. Zero without neighbors.
pub open spec fn cohesion_spec(pos: Vec2, nbrs: Seq<BoidSnap>) -> (int, int) {
    if nbrs.len() == 0 {
        (0, 0)
    } else {
        (
            div_tz(sum_pos(nbrs).0, nbrs.len() as int) - pos.x,
            div_tz(sum_pos(nbrs).1, nbrs.len() as int) - pos.y,
        )
    }
}

/// Every obstacle of `s` is well formed.
pub open spec fn obstacles_ok(s: Seq<Obstacle>) -> bool {
    forall|i: int| 0 <= i < s.len() ==> obstacle_ok(#[trigger] s[i])
}

proof fn lemma_obstacles_ok_drop_last(s: Seq<Obstacle>)
    requires
        obstacles_ok(s),
        s.len() > 0,
    ensures
        obstacles_ok(s.drop_last()),
        obstacle_ok(s.last()),
{
    assert(s.last() == s[s.len() - 1]);
    assert forall|i: int| 0 <= i < s.drop_last().len() implies obstacle_ok(
        #[trigger] s.drop_last()[i],
    ) by {
        assert(s.drop_last()[i] == s[i]);
    }
}

/// The accumulated obstacle-avoidance vector for a boid at `pos`: for
/// every obstacle strictly within its own separation radius of the
/// boid, the offset away from the obstacle scaled by the obstacle's
/// weight. The weight is applied here, so the resolver adds this term
/// unweighted.
pub open spec fn avoid_spec(pos: Vec2, obs: Seq<Obstacle>) -> (int, int)
    decreases obs.len(),
{
    if obs.len() == 0 {
        (0, 0)
    } else {
        let rest = avoid_spec(pos, obs.drop_last());
        let o = obs.last();
        if dist2(pos, o.position.0) < (o.data.separation_radius as int) * (
        o.data.separation_radius as int) {
            (
                rest.0 + (pos.x - o.position.0.x) * o.data.separation_weight,
                rest.1 + (pos.y - o.position.0.y) * o.data.separation_weight,
            )
        } else {
            rest
        }
    }
}

/// The avoidance accumulation grows by at most `2 * P_MAX * W_MAX` per
/// obstacle.
proof fn lemma_avoid_bound(pos: Vec2, obs: Seq<Obstacle>)
    requires
        in_box(pos, crate::P_MAX as int),
        obstacles_ok(obs),
    ensures
        -(obs.len() as int) * (2 * crate::P_MAX as int * crate::W_MAX as int) <= avoid_spec(
            pos,
            obs,
        ).0 <= (obs.len() as int) * (2 * crate::P_MAX as int * crate::W_MAX as int),
        -(obs.len() as int) * (2 * crate::P_MAX as int * crate::W_MAX as int) <= avoid_spec(
            pos,
            obs,
        ).1 <= (obs.len() as int) * (2 * crate::P_MAX as int * crate::W_MAX as int),
    decreases obs.len(),
{
    if obs.len() == 0 {
    } else {
        lemma_obstacles_ok_drop_last(obs);
        lemma_avoid_bound(pos, obs.drop_last());
        let o = obs.last();
        let m = 2 * crate::P_MAX as int * crate::W_MAX as int;
        let tx = (pos.x - o.position.0.x) * o.data.separation_weight;
        let ty = (pos.y - o.position.0.y) * o.data.separation_weight;
        assert(-m <= tx <= m && -m <= ty <= m) by (nonlinear_arith)
            requires
                -(2 * crate::P_MAX as int) <= pos.x - o.position.0.x <= 2 * crate::P_MAX as int,
                -(2 * crate::P_MAX as int) <= pos.y - o.position.0.y <= 2 * crate::P_MAX as int,
                -(crate::W_MAX as int) <= o.data.separation_weight <= crate::W_MAX as int,
                m == 2 * crate::P_MAX as int * crate::W_MAX as int,
                tx == (pos.x - o.position.0.x) * o.data.separation_weight,
                ty == (pos.y - o.position.0.y) * o.data.separation_weight,
        ;
        crate::math::lemma_acc_step(avoid_spec(pos, obs.drop_last()).0, tx, obs.len() - 1, m);
        crate::math::lemma_acc_step(avoid_spec(pos, obs.drop_last()).1, ty, obs.len() - 1, m);
        crate::math::lemma_acc_step(avoid_spec(pos, obs.drop_last()).0, 0, obs.len() - 1, m);
        crate::math::lemma_acc_step(avoid_spec(pos, obs.drop_last()).1, 0, obs.len() - 1, m);
    }
}

/// The combined steering impulse: the four per-boid-weighted vectors
/// plus the (pre-weighted) obstacle vector, scaled back from
/// hundredths.
pub open spec fn combined_spec(
    data: BoidData,
    sep: (int, int),
    ali: (int, int),
    coh: (int, int),
    noise: (int, int),
    avoid: (int, int),
) -> (int, int) {
    (
        div_tz(
            data.separation_weight * sep.0 + data.alignment_weight * ali.0 + data.cohesion_weight
                * coh.0 + data.noise_weight * noise.0 + avoid.0,
            crate::WEIGHT_SCALE as int,
        ),
        div_tz(
            data.separation_weight * sep.1 + data.alignment_weight * ali.1 + data.cohesion_weight
                * coh.1 + data.noise_weight * noise.1 + avoid.1,
            crate::WEIGHT_SCALE as int,
        ),
    )
}

/// The resolved velocity: unchanged when the combined impulse is
/// exactly zero (the degenerate guard), else the old velocity plus the
/// impulse; the speed cap applies either way. The original's guard
/// against not-a-number components has no integer counterpart.
pub open spec fn resolve_spec(vel: Vec2, ms: int, comb: (int, int)) -> (int, int) {
    if comb == (0int, 0int) {
        cap_spec(vel.x as int, vel.y as int, ms)
    } else {
        cap_spec(vel.x + comb.0, vel.y + comb.1, ms)
    }
}

/// The new velocity of boid `i` after one steering pass: each steering
/// vector is computed from the tick-start snapshot, combined by the
/// boid's weights, and resolved against the boid's previous velocity.
pub open spec fn new_vel_spec(
    boids: Seq<Boid>,
    obstacles: Seq<Obstacle>,
    noise: Seq<Vec2>,
    i: int,
) -> (int, int) {
    let b = boids[i];
    let pop = snap_of(boids);
    let nbr_s = filter_snaps(
        pop,
        Option::Some(i as usize),
        b.position.0,
        b.data.separation_radius as int,
        b.velocity.0,
        b.data.separation_fov,
    );
    let nbr_a = filter_snaps(
        pop,
        Option::Some(i as usize),
        b.position.0,
        b.data.alignment_radius as int,
        b.velocity.0,
        b.data.alignment_fov,
    );
    let nbr_c = filter_snaps(
        pop,
        Option::Some(i as usize),
        b.position.0,
        b.data.cohesion_radius as int,
        b.velocity.0,
        b.data.cohesion_fov,
    );
    resolve_spec(
        b.velocity.0,
        b.data.max_speed as int,
        combined_spec(
            b.data,
            separation_spec(b.position.0, nbr_s),
            alignment_spec(b.velocity.0, nbr_a),
            cohesion_spec(b.position.0, nbr_c),
            (noise[i].x as int, noise[i].y as int),
            avoid_spec(b.position.0, obstacles),
        ),
    )
}

/// The steering computation pass: runs once per tick over a snapshot of
/// the whole population.
pub struct BoidSystem;

impl BoidSystem {
    /// The boids of `all_boids` that satisfy the spatial (and optional
    /// angular) neighbor filter around `position`, excluding the
    /// querying boid itself when its id is supplied. Order is snapshot
    /// order.
    pub fn neighbour_boids(
        &self,
        origin: Option<usize>,
        position: Vec2,
        radius: i64,
        facing: Vec2,
        fov: Option<i64>,
        all_boids: &Vec<BoidSnap>,
    ) -> (r: Vec<BoidSnap>)
        requires
            in_box(position, crate::P_MAX as int),
            0 <= radius <= crate::P_MAX,
            in_box(facing, crate::V_MAX as int),
            fov_ok(fov),
            snaps_ok(all_boids@),
        ensures
            r@ == filter_snaps(all_boids@, origin, position, radius as int, facing, fov),
            snaps_ok(r@),
    {
        proof {
            assert(0 <= (radius as int) * (radius as int) <= 0x1_0000_0000_0000_0000_0000int)
                by (nonlinear_arith)
                requires
                    0 <= radius <= crate::P_MAX,
            ;
        }
        let rsq: u128 = (radius as u128) * (radius as u128);
        let mut r: Vec<BoidSnap> = Vec::new();
        let n = all_boids.len();
        let mut i: usize = 0;
        while i < n
            invariant
                i <= n,
                n == all_boids@.len(),
                in_box(position, crate::P_MAX as int),
                0 <= radius <= crate::P_MAX,
                in_box(facing, crate::V_MAX as int),
                fov_ok(fov),
                snaps_ok(all_boids@),
                rsq as int == (radius as int) * (radius as int),
                r@ == filter_snaps(
                    all_boids@.subrange(0, i as int),
                    origin,
                    position,
                    radius as int,
                    facing,
                    fov,
                ),
                snaps_ok(r@),
            decreases n - i,
        {
            let c = all_boids[i];
            let mut keep = match origin {
                Some(id) => c.id != id,
                None => true,
            };
            if keep {
                let d = dist_sq(position, c.position);
                keep = d < rsq;
            }
            if keep {
                keep = match fov {
                    Some(cf) => angle_within(facing, c.velocity, cf),
                    None => true,
                };
            }
            proof {
                assert(all_boids@.subrange(0, i + 1).drop_last() =~= all_boids@.subrange(
                    0,
                    i as int,
                ));
                assert(all_boids@.subrange(0, i + 1).last() == all_boids@[i as int]);
            }
            if keep {
                assert(nbr_pred(origin, position, radius as int, facing, fov, all_boids@[i as int]));
                r.push(c);
            } else {
                assert(!nbr_pred(
                    origin,
                    position,
                    radius as int,
                    facing,
                    fov,
                    all_boids@[i as int],
                ));
            }
            i = i + 1;
        }
        proof {
            assert(all_boids@.subrange(0, n as int) =~= all_boids@);
        }
        r
    }

    /// The separation steering vector for one boid: see
    /// `separation_spec`.
    pub fn separation(
        &self,
        _data: &BoidData,
        position: Vec2,
        _velocity: Vec2,
        neighbours: &Vec<BoidSnap>,
    ) -> (r: Vec2)
        requires
            in_box(position, crate::P_MAX as int),
            snaps_ok(neighbours@),
        ensures
            (r.x as int, r.y as int) == separation_spec(position, neighbours@),
            in_box(r, 2 * crate::P_MAX as int),
    {
        let n = neighbours.len();
        if n == 0 {
            return Vec2 { x: 0, y: 0 };
        }
        let mut sx: i128 = 0;
        let mut sy: i128 = 0;
        let mut i: usize = 0;
        while i < n
            invariant
                i <= n,
                n == neighbours@.len(),
                in_box(position, crate::P_MAX as int),
                snaps_ok(neighbours@),
                sx as int == sum_sep(position, neighbours@.subrange(0, i as int)).0,
                sy as int == sum_sep(position, neighbours@.subrange(0, i as int)).1,
                -(i as int) * (2 * crate::P_MAX as int) <= sx as int <= (i as int) * (2
                    * crate::P_MAX as int),
                -(i as int) * (2 * crate::P_MAX as int) <= sy as int <= (i as int) * (2
                    * crate::P_MAX as int),
            decreases n - i,
        {
            let c = neighbours[i];
            proof {
                assert(neighbours@.subrange(0, i + 1).drop_last() =~= neighbours@.subrange(
                    0,
                    i as int,
                ));
                assert(neighbours@.subrange(0, i + 1).last() == neighbours@[i as int]);
                assert(in_box(neighbours@[i as int].position, crate::P_MAX as int));
                crate::math::lemma_acc_step(
                    sx as int,
                    position.x - c.position.x,
                    i as int,
                    2 * crate::P_MAX as int,
                );
                crate::math::lemma_acc_step(
                    sy as int,
                    position.y - c.position.y,
                    i as int,
                    2 * crate::P_MAX as int,
                );
                crate::math::lemma_acc_fits(
                    sx as int + (position.x - c.position.x),
                    i as int + 1,
                    2 * crate::P_MAX as int,
                );
                crate::math::lemma_acc_fits(
                    sy as int + (position.y - c.position.y),
                    i as int + 1,
                    2 * crate::P_MAX as int,
                );
            }
            sx = sx + (position.x as i128 - c.position.x as i128);
            sy = sy + (position.y as i128 - c.position.y as i128);
            i = i + 1;
        }
        proof {
            assert(neighbours@.subrange(0, n as int) =~= neighbours@);
            crate::math::lemma_scaled_comm(n as int, 2 * crate::P_MAX as int);
            crate::math::lemma_acc_fits(sx as int, n as int, 2 * crate::P_MAX as int);
            crate::math::lemma_acc_fits(sy as int, n as int, 2 * crate::P_MAX as int);
            crate::math::lemma_div_tz_bound(sx as int, n as int, 2 * crate::P_MAX as int);
            crate::math::lemma_div_tz_bound(sy as int, n as int, 2 * crate::P_MAX as int);
        }
        let qx = div_i128(sx, n as i128);
        let qy = div_i128(sy, n as i128);
        Vec2 { x: qx as i64, y: qy as i64 }
    }

    /// The alignment steering vector for one boid: see `alignment_spec`.
    pub fn alignment(
        &self,
        _data: &BoidData,
        _position: Vec2,
        velocity: Vec2,
        neighbours: &Vec<BoidSnap>,
    ) -> (r: Vec2)
        requires
            in_box(velocity, crate::V_MAX as int),
            snaps_ok(neighbours@),
        ensures
            (r.x as int, r.y as int) == alignment_spec(velocity, neighbours@),
            in_box(r, 2 * crate::V_MAX as int),
    {
        let n = neighbours.len();
        if n == 0 {
            return Vec2 { x: 0, y: 0 };
        }
        let mut sx: i128 = 0;
        let mut sy: i128 = 0;
        let mut i: usize = 0;
        while i < n
            invariant
                i <= n,
                n == neighbours@.len(),
                snaps_ok(neighbours@),
                sx as int == sum_vel(neighbours@.subrange(0, i as int)).0,
                sy as int == sum_vel(neighbours@.subrange(0, i as int)).1,
                -(i as int) * (crate::V_MAX as int) <= sx as int <= (i as int) * (
                crate::V_MAX as int),
                -(i as int) * (crate::V_MAX as int) <= sy as int <= (i as int) * (
                crate::V_MAX as int),
            decreases n - i,
        {
            let c = neighbours[i];
            proof {
                assert(neighbours@.subrange(0, i + 1).drop_last() =~= neighbours@.subrange(
                    0,
                    i as int,
                ));
                assert(neighbours@.subrange(0, i + 1).last() == neighbours@[i as int]);
                assert(in_box(neighbours@[i as int].velocity, crate::V_MAX as int));
                crate::math::lemma_acc_step(
                    sx as int,
                    c.velocity.x as int,
                    i as int,
                    crate::V_MAX as int,
                );
                crate::math::lemma_acc_step(
                    sy as int,
                    c.velocity.y as int,
                    i as int,
                    crate::V_MAX as int,
                );
                crate::math::lemma_acc_fits(
                    sx as int + c.velocity.x,
                    i as int + 1,
                    crate::V_MAX as int,
                );
                crate::math::lemma_acc_fits(
                    sy as int + c.velocity.y,
                    i as int + 1,
                    crate::V_MAX as int,
                );
            }
            sx = sx + c.velocity.x as i128;
            sy = sy + c.velocity.y as i128;
            i = i + 1;
        }
        proof {
            assert(neighbours@.subrange(0, n as int) =~= neighbours@);
            crate::math::lemma_scaled_comm(n as int, crate::V_MAX as int);
            crate::math::lemma_acc_fits(sx as int, n as int, crate::V_MAX as int);
            crate::math::lemma_acc_fits(sy as int, n as int, crate::V_MAX as int);
            crate::math::lemma_div_tz_bound(sx as int, n as int, crate::V_MAX as int);
            crate::math::lemma_div_tz_bound(sy as int, n as int, crate::V_MAX as int);
        }
        let qx = div_i128(sx, n as i128);
        let qy = div_i128(sy, n as i128);
        Vec2 { x: (qx as i64) - velocity.x, y: (qy as i64) - velocity.y }
    }

    /// The cohesion steering vector for one boid: see `cohesion_spec`.
    pub fn cohesion(
        &self,
        _data: &BoidData,
        position: Vec2,
        _velocity: Vec2,
        neighbours: &Vec<BoidSnap>,
    ) -> (r: Vec2)
        requires
            in_box(position, crate::P_MAX as int),
            snaps_ok(neighbours@),
        ensures
            (r.x as int, r.y as int) == cohesion_spec(position, neighbours@),
            in_box(r, 2 * crate::P_MAX as int),
    {
        let n = neighbours.len();
        if n == 0 {
            return Vec2 { x: 0, y: 0 };
        }
        let mut sx: i128 = 0;
        let mut sy: i128 = 0;
        let mut i: usize = 0;
        while i < n
            invariant
                i <= n,
                n == neighbours@.len(),
                snaps_ok(neighbours@),
                sx as int == sum_pos(neighbours@.subrange(0, i as int)).0,
                sy as int == sum_pos(neighbours@.subrange(0, i as int)).1,
                -(i as int) * (crate::P_MAX as int) <= sx as int <= (i as int) * (
                crate::P_MAX as int),
                -(i as int) * (crate::P_MAX as int) <= sy as int <= (i as int) * (
                crate::P_MAX as int),
            decreases n - i,
        {
            let c = neighbours[i];
            proof {
                assert(neighbours@.subrange(0, i + 1).drop_last() =~= neighbours@.subrange(
                    0,
                    i as int,
                ));
                assert(neighbours@.subrange(0, i + 1).last() == neighbours@[i as int]);
                assert(in_box(neighbours@[i as int].position, crate::P_MAX as int));
                crate::math::lemma_acc_step(
                    sx as int,
                    c.position.x as int,
                    i as int,
                    crate::P_MAX as int,
                );
                crate::math::lemma_acc_step(
                    sy as int,
                    c.position.y as int,
                    i as int,
                    crate::P_MAX as int,
                );
                crate::math::lemma_acc_fits(
                    sx as int + c.position.x,
                    i as int + 1,
                    crate::P_MAX as int,
                );
                crate::math::lemma_acc_fits(
                    sy as int + c.position.y,
                    i as int + 1,
                    crate::P_MAX as int,
                );
            }
            sx = sx + c.position.x as i128;
            sy = sy + c.position.y as i128;
            i = i + 1;
        }
        proof {
            assert(neighbours@.subrange(0, n as int) =~= neighbours@);
            crate::math::lemma_scaled_comm(n as int, crate::P_MAX as int);
            crate::math::lemma_acc_fits(sx as int, n as int, crate::P_MAX as int);
            crate::math::lemma_acc_fits(sy as int, n as int, crate::P_MAX as int);
            crate::math::lemma_div_tz_bound(sx as int, n as int, crate::P_MAX as int);
            crate::math::lemma_div_tz_bound(sy as int, n as int, crate::P_MAX as int);
        }
        let qx = div_i128(sx, n as i128);
        let qy = div_i128(sy, n as i128);
        Vec2 { x: (qx as i64) - position.x, y: (qy as i64) - position.y }
    }

    /// A random steering jolt, freshly sampled per boid per tick so the
    /// flock never freezes: each call may differ, but the magnitude
    /// never exceeds the boid's top speed.
    pub fn noise(&self, boid_data: &BoidData) -> (r: Vec2)
        requires
            boid_data_ok(*boid_data),
        ensures
            norm2(r) <= (boid_data.max_speed as int) * (boid_data.max_speed as int),
            in_box(r, boid_data.max_speed as int),
    {
        let ms = boid_data.max_speed;
        let dx = crate::rng::rand_range_i64(-ms, ms);
        let dy = crate::rng::rand_range_i64(-ms, ms);
        cap_velocity(Vec2 { x: dx, y: dy }, ms)
    }

    /// The avoidance vector of every boid of the snapshot, accumulated
    /// obstacle-major (obstacles are few and static): entry `i` is
    /// `avoid_spec` of boid `i`'s position over the whole obstacle set.
    pub fn calculate_obstacles(&self, all_boids: &Vec<BoidSnap>, obstacles: &Vec<Obstacle>) -> (r:
        Vec<Vec2>)
        requires
            snaps_ok(all_boids@),
            obstacles_ok(obstacles@),
            obstacles@.len() <= crate::N_MAX as int,
        ensures
            r@.len() == all_boids@.len(),
            forall|i: int| #![trigger r@[i]]
                0 <= i < r@.len() ==> (r@[i].x as int, r@[i].y as int) == avoid_spec(
                    all_boids@[i].position,
                    obstacles@,
                ) && in_box(r@[i], crate::AV_MAX as int),
    {
        let nb = all_boids.len();
        let m_ghost: Ghost<int> = Ghost(2 * crate::P_MAX as int * crate::W_MAX as int);
        let mut acc: Vec<Vec2> = Vec::new();
        let mut i: usize = 0;
        while i < nb
            invariant
                i <= nb,
                acc@.len() == i as int,
                forall|idx: int| #![trigger acc@[idx]]
                    0 <= idx < i as int ==> acc@[idx] == (Vec2 { x: 0i64, y: 0i64 }),
            decreases nb - i,
        {
            acc.push(Vec2 { x: 0, y: 0 });
            i = i + 1;
        }
        proof {
            assert(obstacles@.subrange(0, 0) =~= Seq::<Obstacle>::empty());
        }
        let mut k: usize = 0;
        while k < obstacles.len()
            invariant
                k <= obstacles@.len(),
                nb == all_boids@.len(),
                acc@.len() == nb as int,
                snaps_ok(all_boids@),
                obstacles_ok(obstacles@),
                obstacles@.len() <= crate::N_MAX as int,
                m_ghost@ == 2 * crate::P_MAX as int * crate::W_MAX as int,
                forall|idx: int| #![trigger acc@[idx]]
                    0 <= idx < nb as int ==> (acc@[idx].x as int, acc@[idx].y as int) == avoid_spec(
                        all_boids@[idx].position,
                        obstacles@.subrange(0, k as int),
                    ) && -(k as int) * m_ghost@ <= acc@[idx].x as int <= (k as int) * m_ghost@ && -(
                    k as int) * m_ghost@ <= acc@[idx].y as int <= (k as int) * m_ghost@,
            decreases obstacles@.len() - k,
        {
            let o = obstacles[k];
            proof {
                assert(obstacle_ok(obstacles@[k as int]));
                assert(0 <= (o.data.separation_radius as int) * (o.data.separation_radius as int)
                    <= 0x1_0000_0000_0000_0000_0000int) by (nonlinear_arith)
                    requires
                        0 <= o.data.separation_radius <= crate::P_MAX,
                ;
            }
            let rsq: u128 = (o.data.separation_radius as u128) * (o.data.separation_radius as u128);
            let mut j: usize = 0;
            while j < nb
                invariant
                    j <= nb,
                    k < obstacles@.len(),
                    nb == all_boids@.len(),
                    acc@.len() == nb as int,
                    snaps_ok(all_boids@),
                    obstacles_ok(obstacles@),
                    obstacles@.len() <= crate::N_MAX as int,
                    m_ghost@ == 2 * crate::P_MAX as int * crate::W_MAX as int,
                    o == obstacles@[k as int],
                    rsq as int == (o.data.separation_radius as int) * (
                    o.data.separation_radius as int),
                    forall|idx: int| #![trigger acc@[idx]]
                        0 <= idx < j as int ==> (acc@[idx].x as int, acc@[idx].y as int)
                            == avoid_spec(
                            all_boids@[idx].position,
                            obstacles@.subrange(0, k as int + 1),
                        ) && -(k as int + 1) * m_ghost@ <= acc@[idx].x as int <= (k as int + 1)
                            * m_ghost@ && -(k as int + 1) * m_ghost@ <= acc@[idx].y as int <= (
                        k as int + 1) * m_ghost@,
                    forall|idx: int| #![trigger acc@[idx]]
                        j as int <= idx < nb as int ==> (acc@[idx].x as int, acc@[idx].y as int)
                            == avoid_spec(
                            all_boids@[idx].position,
                            obstacles@.subrange(0, k as int),
                        ) && -(k as int) * m_ghost@ <= acc@[idx].x as int <= (k as int) * m_ghost@
                            && -(k as int) * m_ghost@ <= acc@[idx].y as int <= (k as int)
                            * m_ghost@,
                decreases nb - j,
            {
                let c = all_boids[j];
                proof {
                    assert(obstacles@.subrange(0, k as int + 1).drop_last() =~= obstacles@.subrange(
                        0,
                        k as int,
                    ));
                    assert(obstacles@.subrange(0, k as int + 1).last() == obstacles@[k as int]);
                }
                let d: u128 = dist_sq(c.position, o.position.0);
                let cur = acc[j];
                if d < rsq {
                    let dx: i128 = (c.position.x as i128) - (o.position.0.x as i128);
                    let dy: i128 = (c.position.y as i128) - (o.position.0.y as i128);
                    proof {
                        assert(-m_ghost@ <= dx * (o.data.separation_weight as int) <= m_ghost@
                            && -m_ghost@ <= dy * (o.data.separation_weight as int) <= m_ghost@)
                            by (nonlinear_arith)
                            requires
                                -(2 * crate::P_MAX as int) <= dx <= 2 * crate::P_MAX as int,
                                -(2 * crate::P_MAX as int) <= dy <= 2 * crate::P_MAX as int,
                                -(crate::W_MAX as int) <= o.data.separation_weight
                                    <= crate::W_MAX as int,
                                m_ghost@ == 2 * crate::P_MAX as int * crate::W_MAX as int,
                        ;
                        crate::math::lemma_acc_step(
                            cur.x as int,
                            dx * (o.data.separation_weight as int),
                            k as int,
                            m_ghost@,
                        );
                        crate::math::lemma_acc_step(
                            cur.y as int,
                            dy * (o.data.separation_weight as int),
                            k as int,
                            m_ghost@,
                        );
                        crate::math::lemma_acc_fits_i64(
                            cur.x as int + dx * (o.data.separation_weight as int),
                            k as int + 1,
                            m_ghost@,
                        );
                        crate::math::lemma_acc_fits_i64(
                            cur.y as int + dy * (o.data.separation_weight as int),
                            k as int + 1,
                            m_ghost@,
                        );
                    }
                    let tx: i128 = dx * (o.data.separation_weight as i128);
                    let ty: i128 = dy * (o.data.separation_weight as i128);
                    let nx: i128 = (cur.x as i128) + tx;
                    let ny: i128 = (cur.y as i128) + ty;
                    acc[j] = Vec2 { x: nx as i64, y: ny as i64 };
                } else {
                    proof {
                        crate::math::lemma_acc_step(cur.x as int, 0, k as int, m_ghost@);
                        crate::math::lemma_acc_step(cur.y as int, 0, k as int, m_ghost@);
                    }
                    acc[j] = cur;
                }
                j = j + 1;
            }
            k = k + 1;
        }
        proof {
            assert(obstacles@.subrange(0, obstacles@.len() as int) =~= obstacles@);
            assert forall|idx: int| 0 <= idx < nb as int implies in_box(
                #[trigger] acc@[idx],
                crate::AV_MAX as int,
            ) by {
                crate::math::lemma_acc_fits_i64(acc@[idx].x as int, obstacles@.len() as int, m_ghost@);
                crate::math::lemma_acc_fits_i64(acc@[idx].y as int, obstacles@.len() as int, m_ghost@);
            }
        }
        acc
    }

    /// Combine the five steering vectors for one boid and resolve its
    /// new velocity: weighted sum (the obstacle vector arrives already
    /// weighted), degenerate-zero guard, additive impulse, speed cap.
    pub fn resolve(
        &self,
        data: &BoidData,
        velocity: Vec2,
        v_sep: Vec2,
        v_align: Vec2,
        v_coh: Vec2,
        v_noise: Vec2,
        v_obstacle: Vec2,
    ) -> (r: Vec2)
        requires
            boid_data_ok(*data),
            norm2(velocity) <= (data.max_speed as int) * (data.max_speed as int),
            in_box(v_sep, 2 * crate::P_MAX as int),
            in_box(v_align, 2 * crate::V_MAX as int),
            in_box(v_coh, 2 * crate::P_MAX as int),
            in_box(v_noise, crate::V_MAX as int),
            in_box(v_obstacle, crate::AV_MAX as int),
        ensures
            (r.x as int, r.y as int) == resolve_spec(
                velocity,
                data.max_speed as int,
                combined_spec(
                    *data,
                    (v_sep.x as int, v_sep.y as int),
                    (v_align.x as int, v_align.y as int),
                    (v_coh.x as int, v_coh.y as int),
                    (v_noise.x as int, v_noise.y as int),
                    (v_obstacle.x as int, v_obstacle.y as int),
                ),
            ),
            norm2(r) <= (data.max_speed as int) * (data.max_speed as int),
            in_box(r, data.max_speed as int),
    {
        proof {
            let w = crate::W_MAX as int;
            assert(-0x8_0000_0000_0000int <= data.separation_weight * (v_sep.x as int)
                <= 0x8_0000_0000_0000int && -0x8_0000_0000_0000int <= data.separation_weight * (
            v_sep.y as int) <= 0x8_0000_0000_0000int) by (nonlinear_arith)
                requires
                    -w <= data.separation_weight <= w,
                    in_box(v_sep, 2 * crate::P_MAX as int),
                    w == crate::W_MAX as int,
            ;
            assert(-0x8_0000_0000_0000int <= data.alignment_weight * (v_align.x as int)
                <= 0x8_0000_0000_0000int && -0x8_0000_0000_0000int <= data.alignment_weight * (
            v_align.y as int) <= 0x8_0000_0000_0000int) by (nonlinear_arith)
                requires
                    -w <= data.alignment_weight <= w,
                    in_box(v_align, 2 * crate::V_MAX as int),
                    w == crate::W_MAX as int,
            ;
            assert(-0x8_0000_0000_0000int <= data.cohesion_weight * (v_coh.x as int)
                <= 0x8_0000_0000_0000int && -0x8_0000_0000_0000int <= data.cohesion_weight * (
            v_coh.y as int) <= 0x8_0000_0000_0000int) by (nonlinear_arith)
                requires
                    -w <= data.cohesion_weight <= w,
                    in_box(v_coh, 2 * crate::P_MAX as int),
                    w == crate::W_MAX as int,
            ;
            assert(-0x8_0000_0000_0000int <= data.noise_weight * (v_noise.x as int)
                <= 0x8_0000_0000_0000int && -0x8_0000_0000_0000int <= data.noise_weight * (
            v_noise.y as int) <= 0x8_0000_0000_0000int) by (nonlinear_arith)
                requires
                    -w <= data.noise_weight <= w,
                    in_box(v_noise, crate::V_MAX as int),
                    w == crate::W_MAX as int,
            ;
        }
        let px: i128 = (data.separation_weight as i128) * (v_sep.x as i128) + (
        data.alignment_weight as i128) * (v_align.x as i128) + (data.cohesion_weight as i128) * (
        v_coh.x as i128) + (data.noise_weight as i128) * (v_noise.x as i128) + (
        v_obstacle.x as i128);
        let py: i128 = (data.separation_weight as i128) * (v_sep.y as i128) + (
        data.alignment_weight as i128) * (v_align.y as i128) + (data.cohesion_weight as i128) * (
        v_coh.y as i128) + (data.noise_weight as i128) * (v_noise.y as i128) + (
        v_obstacle.y as i128);
        proof {
            crate::math::lemma_div_tz_bound(
                px as int,
                crate::WEIGHT_SCALE as int,
                0x100_0000_0000_0000int,
            );
            crate::math::lemma_div_tz_bound(
                py as int,
                crate::WEIGHT_SCALE as int,
                0x100_0000_0000_0000int,
            );
        }
        let cx: i128 = div_i128(px, crate::WEIGHT_SCALE as i128);
        let cy: i128 = div_i128(py, crate::WEIGHT_SCALE as i128);
        proof {
            crate::components::lemma_norm_in_box(velocity, data.max_speed as int);
        }
        if cx == 0 && cy == 0 {
            cap_velocity(velocity, data.max_speed)
        } else {
            let vx: i64 = ((velocity.x as i128) + cx) as i64;
            let vy: i64 = ((velocity.y as i128) + cy) as i64;
            cap_velocity(Vec2 { x: vx, y: vy }, data.max_speed)
        }
    }

    /// One steering pass over the whole population: take the tick-start
    /// snapshot, compute every boid's steering vectors against it and
    /// the obstacle set, and write each boid's resolved velocity back
    /// to its own slot. Positions and tunables are untouched.
    pub fn run(&self, world: &mut World, noise: &Vec<Vec2>)
        requires
            world_ok(*old(world)),
            noise@.len() == old(world).boids@.len(),
            forall|i: int|
                0 <= i < noise@.len() ==> in_box(#[trigger] noise@[i], crate::V_MAX as int),
        ensures
            final(world).boids@.len() == old(world).boids@.len(),
            forall|i: int| #![trigger final(world).boids@[i]]
                0 <= i < old(world).boids@.len() ==> final(world).boids@[i].position == old(
                    world,
                ).boids@[i].position && final(world).boids@[i].data == old(world).boids@[i].data
                    && (
                final(world).boids@[i].velocity.0.x as int,
                final(world).boids@[i].velocity.0.y as int,
            ) == new_vel_spec(old(world).boids@, old(world).obstacles@, noise@, i),
            final(world).obstacles@ == old(world).obstacles@,
            world_ok(*final(world)),
    {
        let n = world.boids.len();
        let mut snap: Vec<BoidSnap> = Vec::new();
        let mut i: usize = 0;
        while i < n
            invariant
                i <= n,
                n == world.boids@.len(),
                *world == *old(world),
                world_ok(*world),
                snap@.len() == i as int,
                forall|j: int| #![trigger snap@[j]]
                    0 <= j < i as int ==> snap@[j] == snap_of(world.boids@)[j],
            decreases n - i,
        {
            let b = &world.boids[i];
            proof {
                assert(boid_ok(world.boids@[i as int]));
            }
            snap.push(BoidSnap { id: i, position: b.position.0, velocity: b.velocity.0 });
            i = i + 1;
        }
        proof {
            assert(snap@ =~= snap_of(world.boids@));
            assert forall|j: int| #![trigger snap@[j]]
                0 <= j < snap@.len() implies in_box(snap@[j].position, crate::P_MAX as int)
                && in_box(snap@[j].velocity, crate::V_MAX as int) by {
                assert(boid_ok(world.boids@[j]));
                crate::components::lemma_norm_in_box(
                    world.boids@[j].velocity.0,
                    world.boids@[j].data.max_speed as int,
                );
            }
            assert(snaps_ok(snap@));
        }
        let obstacle_map = self.calculate_obstacles(&snap, &world.obstacles);
        let mut new_boids: Vec<Boid> = Vec::new();
        let mut i: usize = 0;
        while i < n
            invariant
                i <= n,
                n == world.boids@.len(),
                *world == *old(world),
                world_ok(*world),
                snap@ == snap_of(world.boids@),
                snaps_ok(snap@),
                noise@.len() == n as int,
                forall|j: int|
                    0 <= j < noise@.len() ==> in_box(#[trigger] noise@[j], crate::V_MAX as int),
                obstacle_map@.len() == n as int,
                forall|j: int| #![trigger obstacle_map@[j]]
                    0 <= j < n as int ==> (obstacle_map@[j].x as int, obstacle_map@[j].y as int)
                        == avoid_spec(snap@[j].position, world.obstacles@) && in_box(
                        obstacle_map@[j],
                        crate::AV_MAX as int,
                    ),
                new_boids@.len() == i as int,
                forall|j: int| #![trigger new_boids@[j]]
                    0 <= j < i as int ==> new_boids@[j].position == world.boids@[j].position
                        && new_boids@[j].data == world.boids@[j].data && (
                    new_boids@[j].velocity.0.x as int,
                    new_boids@[j].velocity.0.y as int,
                ) == new_vel_spec(world.boids@, world.obstacles@, noise@, j) && boid_ok(
                        new_boids@[j],
                    ),
            decreases n - i,
        {
            let b = world.boids[i];
            proof {
                assert(boid_ok(world.boids@[i as int]));
                crate::components::lemma_norm_in_box(b.velocity.0, b.data.max_speed as int);
            }
            let nbr_s = self.neighbour_boids(
                Some(i),
                b.position.0,
                b.data.separation_radius,
                b.velocity.0,
                b.data.separation_fov,
                &snap,
            );
            let v_sep = self.separation(&b.data, b.position.0, b.velocity.0, &nbr_s);
            let nbr_a = self.neighbour_boids(
                Some(i),
                b.position.0,
                b.data.alignment_radius,
                b.velocity.0,
                b.data.alignment_fov,
                &snap,
            );
            let v_align = self.alignment(&b.data, b.position.0, b.velocity.0, &nbr_a);
            let nbr_c = self.neighbour_boids(
                Some(i),
                b.position.0,
                b.data.cohesion_radius,
                b.velocity.0,
                b.data.cohesion_fov,
                &snap,
            );
            let v_coh = self.cohesion(&b.data, b.position.0, b.velocity.0, &nbr_c);
            let v_noise = noise[i];
            let v_obstacle = obstacle_map[i];
            let v_new = self.resolve(&b.data, b.velocity.0, v_sep, v_align, v_coh, v_noise, v_obstacle);
            proof {
                assert(snap@[i as int].position == b.position.0);
                assert((v_new.x as int, v_new.y as int) == new_vel_spec(
                    world.boids@,
                    world.obstacles@,
                    noise@,
                    i as int,
                ));
            }
            new_boids.push(Boid { position: b.position, velocity: Velocity(v_new), data: b.data });
            i = i + 1;
        }
        world.boids = new_boids;
    }
}

} // verus!
