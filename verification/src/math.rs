//! Exact integer vector math: 2D vectors, squared norms, truncating
//! division, integer square roots, and the speed cap.

use vstd::prelude::*;

verus! {

/// A 2D vector with integer coordinates.
#[derive(Clone, Copy, Debug, PartialEq, Eq, Structural)]
pub struct Vec2 {
    pub x: i64,
    pub y: i64,
}

/// Squared Euclidean norm of `v`, as an unbounded integer.
pub open spec fn norm2(v: Vec2) -> int {
    v.x * v.x + v.y * v.y
}

/// Squared Euclidean distance between `a` and `b`.
pub open spec fn dist2(a: Vec2, b: Vec2) -> int {
    (a.x - b.x) * (a.x - b.x) + (a.y - b.y) * (a.y - b.y)
}

/// Dot product of `a` and `b`.
pub open spec fn dot(a: Vec2, b: Vec2) -> int {
    a.x * b.x + a.y * b.y
}

/// Both coordinates of `v` have magnitude at most `bound`.
pub open spec fn in_box(v: Vec2, bound: int) -> bool {
    -bound <= v.x <= bound && -bound <= v.y <= bound
}

/// Division truncated toward zero, for a positive divisor; this is the
/// semantics of Rust's `/` on integers.
pub open spec fn div_tz(a: int, b: int) -> int
    recommends
        b > 0,
{
    if a >= 0 {
        a / b
    } else {
        -((-a) / b)
    }
}

/// The truncated quotient of a numerator within `[-m*b, m*b]` lies in
/// `[-m, m]`.
pub proof fn lemma_div_tz_bound(a: int, b: int, m: int)
    requires
        b > 0,
        -(m * b) <= a <= m * b,
        0 <= m,
    ensures
        -m <= div_tz(a, b) <= m,
{
    if a >= 0 {
        assert(a / b <= m) by (nonlinear_arith)
            requires
                b > 0,
                0 <= a <= m * b,
                0 <= m,
        ;
        assert(a / b >= 0) by (nonlinear_arith)
            requires
                b > 0,
                a >= 0,
        ;
    } else {
        assert((-a) / b <= m) by (nonlinear_arith)
            requires
                b > 0,
                0 <= -a <= m * b,
                0 <= m,
        ;
        assert((-a) / b >= 0) by (nonlinear_arith)
            requires
                b > 0,
                -a >= 0,
        ;
    }
}

/// Multiplying the truncated quotient back never overshoots the
/// numerator: `|div_tz(a, b) * b| <= |a|`, with matching signs.
pub proof fn lemma_div_tz_mul_bound(a: int, b: int)
    requires
        b > 0,
    ensures
        a >= 0 ==> 0 <= div_tz(a, b) && div_tz(a, b) * b <= a,
        a < 0 ==> div_tz(a, b) <= 0 && a <= div_tz(a, b) * b,
{
    if a >= 0 {
        assert(0 <= a / b && (a / b) * b <= a) by (nonlinear_arith)
            requires
                b > 0,
                a >= 0,
        ;
    } else {
        let q = (-a) / b;
        assert(0 <= q && q * b <= -a) by (nonlinear_arith)
            requires
                b > 0,
                -a > 0,
                q == (-a) / b,
        ;
        assert((-q) * b == -(q * b)) by (nonlinear_arith);
        assert(div_tz(a, b) == -q);
    }
}

/// Truncating division of an `i64` by a positive `i64`.
pub fn div_i64(a: i64, b: i64) -> (r: i64)
    requires
        b > 0,
    ensures
        r as int == div_tz(a as int, b as int),
{
    proof {
        let m: int = if a >= 0 { a as int } else { -(a as int) };
        assert(-(m * (b as int)) <= a as int <= m * (b as int)) by (nonlinear_arith)
            requires
                b > 0,
                m == (if a >= 0 { a as int } else { -(a as int) }),
        ;
        lemma_div_tz_bound(a as int, b as int, m);
    }
    if a >= 0 {
        let q: u64 = (a as u64) / (b as u64);
        q as i64
    } else {
        let m: u128 = -(a as i128) as u128;
        let q: u128 = m / (b as u128);
        (-(q as i128)) as i64
    }
}

/// Truncating division of an `i128` by a positive `i128`.
pub fn div_i128(a: i128, b: i128) -> (r: i128)
    requires
        b > 0,
        a > i128::MIN,
    ensures
        r as int == div_tz(a as int, b as int),
{
    proof {
        let m: int = if a >= 0 { a as int } else { -(a as int) };
        assert(-(m * (b as int)) <= a as int <= m * (b as int)) by (nonlinear_arith)
            requires
                b > 0,
                m == (if a >= 0 { a as int } else { -(a as int) }),
        ;
        lemma_div_tz_bound(a as int, b as int, m);
    }
    if a >= 0 {
        let q: u128 = (a as u128) / (b as u128);
        q as i128
    } else {
        let m: u128 = (-a) as u128;
        let q: u128 = m / (b as u128);
        -(q as i128)
    }
}

/// One step of a bounded accumulation: a sum within `i * m` extended
/// by a term within `m` stays within `(i + 1) * m`, and fits an `i128`
/// for the population and coordinate sizes this crate admits.
pub proof fn lemma_acc_step(s: int, t: int, i: int, m: int)
    requires
        -i * m <= s <= i * m,
        -m <= t <= m,
        0 <= i,
        0 <= m,
    ensures
        -(i + 1) * m <= s + t <= (i + 1) * m,
{
    assert(-(i + 1) * m <= s + t <= (i + 1) * m) by (nonlinear_arith)
        requires
            -i * m <= s <= i * m,
            -m <= t <= m,
            0 <= i,
            0 <= m,
    ;
}

/// A sum within `k * m`, for a count within the machine word and a
/// coordinate-sized `m`, fits an `i128` with room to spare.
pub proof fn lemma_acc_fits(s: int, k: int, m: int)
    requires
        -k * m <= s <= k * m,
        0 <= k <= 0x1_0000_0000_0000_0000,
        0 <= m <= 0x20_0000_0000_0000,
    ensures
        -0x4000_0000_0000_0000_0000_0000_0000_0000int < s
            < 0x4000_0000_0000_0000_0000_0000_0000_0000int,
{
    assert(k * m < 0x4000_0000_0000_0000_0000_0000_0000_0000int) by (nonlinear_arith)
        requires
            0 <= k <= 0x1_0000_0000_0000_0000,
            0 <= m <= 0x20_0000_0000_0000,
    ;
    assert(-k * m == -(k * m)) by (nonlinear_arith);
}

/// A sum within `k * m`, for an obstacle-sized count and an avoidance
/// term bound, fits an `i64` with room to spare.
pub proof fn lemma_acc_fits_i64(s: int, k: int, m: int)
    requires
        -k * m <= s <= k * m,
        0 <= k <= 0x400,
        0 <= m <= 0x8_0000_0000_0000,
    ensures
        -0x2000_0000_0000_0000int <= s <= 0x2000_0000_0000_0000int,
{
    assert(k * m <= 0x2000_0000_0000_0000int) by (nonlinear_arith)
        requires
            0 <= k <= 0x400,
            0 <= m <= 0x8_0000_0000_0000,
    ;
    assert(-k * m == -(k * m)) by (nonlinear_arith);
}

/// Commutativity of the scaled bound, connecting a sum bounded by
/// `n * m` to the truncated-division bound, which wants `m * n`.
pub proof fn lemma_scaled_comm(n: int, m: int)
    ensures
        n * m == m * n,
        -n * m == -(m * n),
{
    assert(n * m == m * n && -n * m == -(m * n)) by (nonlinear_arith);
}

/// Largest `r` with `r * r <= n`.
pub open spec fn sqrt_floor(n: nat) -> nat
    decreases n,
{
    if n == 0 {
        0
    } else {
        let r = sqrt_floor((n - 1) as nat);
        if (r + 1) * (r + 1) <= n {
            r + 1
        } else {
            r
        }
    }
}

/// Smallest `r` with `n <= r * r`.
pub open spec fn sqrt_ceil(n: nat) -> nat {
    let f = sqrt_floor(n);
    if f * f == n {
        f
    } else {
        f + 1
    }
}

/// `sqrt_floor(n)` brackets `n` between consecutive squares.
pub proof fn lemma_sqrt_floor(n: nat)
    ensures
        sqrt_floor(n) * sqrt_floor(n) <= n,
        n < (sqrt_floor(n) + 1) * (sqrt_floor(n) + 1),
    decreases n,
{
    if n == 0 {
        assert(sqrt_floor(0) == 0);
        assert(n < (sqrt_floor(n) + 1) * (sqrt_floor(n) + 1)) by (nonlinear_arith)
            requires
                n == 0,
                sqrt_floor(n) == 0,
        ;
    } else {
        lemma_sqrt_floor((n - 1) as nat);
        let r = sqrt_floor((n - 1) as nat);
        if (r + 1) * (r + 1) <= n {
            assert(sqrt_floor(n) == r + 1);
            assert((r + 1) * (r + 1) < (r + 2) * (r + 2)) by (nonlinear_arith);
            assert(n <= (r + 1) * (r + 1));
            assert(sqrt_floor(n) * sqrt_floor(n) <= n);
            assert(n < (sqrt_floor(n) + 1) * (sqrt_floor(n) + 1));
        } else {
            assert(sqrt_floor(n) == r);
            assert(sqrt_floor(n) * sqrt_floor(n) <= n);
            assert(n < (sqrt_floor(n) + 1) * (sqrt_floor(n) + 1));
        }
    }
}

/// Any `r` that brackets `n` between `r * r` and `(r + 1) * (r + 1)` is
/// the floor square root.
pub proof fn lemma_sqrt_floor_unique(n: nat, r: nat)
    requires
        r * r <= n,
        n < (r + 1) * (r + 1),
    ensures
        r == sqrt_floor(n),
{
    lemma_sqrt_floor(n);
    let f = sqrt_floor(n);
    assert(!(r < f) && !(f < r)) by (nonlinear_arith)
        requires
            r * r <= n,
            n < (r + 1) * (r + 1),
            f * f <= n,
            n < (f + 1) * (f + 1),
    ;
}

/// The ceiling square root squares to at least `n` and is positive for
/// positive `n`.
pub proof fn lemma_sqrt_ceil(n: nat)
    ensures
        n <= sqrt_ceil(n) * sqrt_ceil(n),
        n > 0 ==> sqrt_ceil(n) >= 1,
{
    lemma_sqrt_floor(n);
    let f = sqrt_floor(n);
    if f * f == n {
        if n > 0 {
            assert(f >= 1) by (nonlinear_arith)
                requires
                    f * f == n,
                    n > 0,
            ;
        }
    }
}

/// Floor square root of a `u128`, by bisection.
pub fn isqrt_u128(n: u128) -> (r: u128)
    ensures
        r as nat == sqrt_floor(n as nat),
        r * r <= n,
        r <= 18446744073709551615,
{
    let mut lo: u128 = 0;
    let mut hi: u128 = 18446744073709551615;
    proof {
        assert((hi + 1) * (hi + 1) > n as int) by (nonlinear_arith)
            requires
                hi == 18446744073709551615u128,
                n <= u128::MAX,
        ;
    }
    while lo < hi
        invariant
            lo <= hi,
            hi <= 18446744073709551615,
            lo * lo <= n,
            n < (hi + 1) * (hi + 1),
        decreases hi - lo,
    {
        let mid: u128 = (lo + hi + 1) / 2;
        proof {
            assert(mid * mid <= u128::MAX) by (nonlinear_arith)
                requires
                    mid <= 18446744073709551615u128,
            ;
        }
        let sq: u128 = mid * mid;
        if sq <= n {
            lo = mid;
        } else {
            hi = mid - 1;
        }
    }
    proof {
        lemma_sqrt_floor_unique(n as nat, lo as nat);
    }
    lo
}

/// Squared norm of `v`, computed exactly in a `u128`.
pub fn norm_sq(v: Vec2) -> (r: u128)
    ensures
        r as int == norm2(v),
{
    proof {
        assert(0 <= v.x * v.x <= 0x4000_0000_0000_0000_0000_0000_0000_0000int
            && 0 <= v.y * v.y <= 0x4000_0000_0000_0000_0000_0000_0000_0000int)
            by (nonlinear_arith)
            requires
                i64::MIN <= v.x <= i64::MAX,
                i64::MIN <= v.y <= i64::MAX,
        ;
    }
    let xx: i128 = (v.x as i128) * (v.x as i128);
    let yy: i128 = (v.y as i128) * (v.y as i128);
    (xx as u128) + (yy as u128)
}

/// Squared distance between `a` and `b`, exactly, for coordinates within
/// the world box.
pub fn dist_sq(a: Vec2, b: Vec2) -> (r: u128)
    requires
        in_box(a, crate::P_MAX as int),
        in_box(b, crate::P_MAX as int),
    ensures
        r as int == dist2(a, b),
{
    let dx: i128 = (a.x as i128) - (b.x as i128);
    let dy: i128 = (a.y as i128) - (b.y as i128);
    proof {
        assert(0 <= dx * dx <= 0x4000_0000_0000_0000_0000_0000_0000_0000int
            && 0 <= dy * dy <= 0x4000_0000_0000_0000_0000_0000_0000_0000int)
            by (nonlinear_arith)
            requires
                -(2 * crate::P_MAX as int) <= dx <= 2 * crate::P_MAX as int,
                -(2 * crate::P_MAX as int) <= dy <= 2 * crate::P_MAX as int,
        ;
    }
    let xx: i128 = dx * dx;
    let yy: i128 = dy * dy;
    (xx as u128) + (yy as u128)
}

/// The unsigned angle between `facing` and `vel` is strictly below the
/// half-angle whose cosine is `c / ANG_SCALE`.
///
/// For a half-angle within `[0, pi]` the test `angle < theta` is
/// `cos(angle) > cos(theta)`, that is
/// `dot * ANG_SCALE > c * |facing| * |vel|`; comparing the squares of
/// both sides (with the signs handled case by case) makes the test
/// exact over the integers. The angle to a zero vector is undefined and
/// never within any half-angle.
pub open spec fn ang_lt(facing: Vec2, vel: Vec2, c: int) -> bool {
    if norm2(facing) == 0 || norm2(vel) == 0 {
        false
    } else {
        let d = dot(facing, vel) * (crate::ANG_SCALE as int);
        let rr = (c * c) * (norm2(facing) * norm2(vel));
        if c >= 0 {
            d > 0 && d * d > rr
        } else {
            d >= 0 || d * d < rr
        }
    }
}

/// Decide `ang_lt` exactly, for velocity-sized vectors.
pub fn angle_within(facing: Vec2, vel: Vec2, c: i64) -> (r: bool)
    requires
        in_box(facing, crate::V_MAX as int),
        in_box(vel, crate::V_MAX as int),
        -crate::ANG_SCALE <= c <= crate::ANG_SCALE,
    ensures
        r == ang_lt(facing, vel, c as int),
{
    let nf: u128 = norm_sq(facing);
    let nv: u128 = norm_sq(vel);
    if nf == 0 || nv == 0 {
        return false;
    }
    proof {
        let vm = crate::V_MAX as int;
        assert(norm2(facing) <= 2 * vm * vm && norm2(vel) <= 2 * vm * vm && -(vm * vm)
            <= facing.x * vel.x <= vm * vm && -(vm * vm) <= facing.y * vel.y <= vm * vm)
            by (nonlinear_arith)
            requires
                in_box(facing, vm),
                in_box(vel, vm),
                vm == crate::V_MAX as int,
        ;
    }
    let p: i128 = (facing.x as i128) * (vel.x as i128) + (facing.y as i128) * (vel.y as i128);
    proof {
        assert(-0x8_0000_0000_0000int <= (p as int) * (crate::ANG_SCALE as int)
            <= 0x8_0000_0000_0000int) by (nonlinear_arith)
            requires
                -0x200_0000_0000int <= p as int <= 0x200_0000_0000int,
        ;
        assert(0 <= (c as int) * (c as int) <= 0x10_0000int) by (nonlinear_arith)
            requires
                -1024 <= c <= 1024,
        ;
    }
    let d: i128 = p * (crate::ANG_SCALE as i128);
    proof {
        let dd = d as int;
        assert(0 <= dd * dd <= 0x40_0000_0000_0000_0000_0000_0000int) by (nonlinear_arith)
            requires
                -0x8_0000_0000_0000int <= dd <= 0x8_0000_0000_0000int,
        ;
        assert((c as int * c as int) * ((nf as int) * (nv as int))
            <= 0x40_0000_0000_0000_0000_0000_0000int && (c as int * c as int) * ((nf as int) * (
        nv as int)) >= 0) by (nonlinear_arith)
            requires
                -crate::ANG_SCALE <= c <= crate::ANG_SCALE,
                0 <= nf <= 0x200_0000_0000int,
                0 <= nv <= 0x200_0000_0000int,
        ;
    }
    let cc: i128 = (c as i128) * (c as i128);
    proof {
        assert(0 <= (nf as int) * (nv as int) <= 0x4_0000_0000_0000_0000_0000int
            && 0 <= (cc as int) * ((nf as int) * (nv as int))
            <= 0x40_0000_0000_0000_0000_0000_0000int) by (nonlinear_arith)
            requires
                0 <= nf <= 0x200_0000_0000int,
                0 <= nv <= 0x200_0000_0000int,
                0 <= cc <= 0x10_0000int,
        ;
    }
    let nn: i128 = (nf as i128) * (nv as i128);
    let rr: i128 = cc * nn;
    if c >= 0 {
        d > 0 && d * d > rr
    } else {
        d >= 0 || d * d < rr
    }
}

/// The capped velocity: `v` unchanged while its norm is within
/// `max_speed`, else `v` rescaled by `max_speed` over the ceiling square
/// root of its squared norm.
pub open spec fn cap_spec(vx: int, vy: int, ms: int) -> (int, int) {
    if vx * vx + vy * vy <= ms * ms {
        (vx, vy)
    } else {
        let s = sqrt_ceil((vx * vx + vy * vy) as nat) as int;
        (div_tz(vx * ms, s), div_tz(vy * ms, s))
    }
}

/// The speed cap caps: the result of `cap_spec` has squared norm at most
/// `ms * ms`, and each coordinate within `[-ms, ms]`.
pub proof fn lemma_cap_norm(vx: int, vy: int, ms: int)
    requires
        ms >= 0,
    ensures
        cap_spec(vx, vy, ms).0 * cap_spec(vx, vy, ms).0 + cap_spec(vx, vy, ms).1 * cap_spec(
            vx,
            vy,
            ms,
        ).1 <= ms * ms,
        -ms <= cap_spec(vx, vy, ms).0 <= ms,
        -ms <= cap_spec(vx, vy, ms).1 <= ms,
{
    let n2 = vx * vx + vy * vy;
    if n2 <= ms * ms {
        assert(-ms <= vx <= ms && -ms <= vy <= ms) by (nonlinear_arith)
            requires
                vx * vx + vy * vy <= ms * ms,
                ms >= 0,
        ;
    } else {
        assert(ms * ms >= 0) by (nonlinear_arith);
        lemma_sqrt_ceil(n2 as nat);
        let s = sqrt_ceil(n2 as nat) as int;
        let qx = div_tz(vx * ms, s);
        let qy = div_tz(vy * ms, s);
        lemma_div_tz_mul_bound(vx * ms, s);
        lemma_div_tz_mul_bound(vy * ms, s);
        assert(qx * qx * (s * s) <= vx * vx * (ms * ms)) by (nonlinear_arith)
            requires
                vx * ms >= 0 ==> 0 <= qx && qx * s <= vx * ms,
                vx * ms < 0 ==> qx <= 0 && vx * ms <= qx * s,
                s >= 1,
        ;
        assert(qy * qy * (s * s) <= vy * vy * (ms * ms)) by (nonlinear_arith)
            requires
                vy * ms >= 0 ==> 0 <= qy && qy * s <= vy * ms,
                vy * ms < 0 ==> qy <= 0 && vy * ms <= qy * s,
                s >= 1,
        ;
        assert((vx * vx + vy * vy) * (ms * ms) <= (s * s) * (ms * ms)) by (nonlinear_arith)
            requires
                vx * vx + vy * vy <= s * s,
                ms * ms >= 0,
        ;
        assert(vx * vx * (ms * ms) + vy * vy * (ms * ms) == (vx * vx + vy * vy) * (ms * ms))
            by (nonlinear_arith);
        assert(qx * qx + qy * qy <= ms * ms) by (nonlinear_arith)
            requires
                qx * qx * (s * s) + qy * qy * (s * s) <= (s * s) * (ms * ms),
                s >= 1,
        ;
        assert(-ms <= qx <= ms && -ms <= qy <= ms) by (nonlinear_arith)
            requires
                qx * qx + qy * qy <= ms * ms,
                ms >= 0,
        ;
    }
}

/// Cap `v` to speed `max_speed`: unchanged while `norm2(v)` is at most
/// `max_speed * max_speed`, else rescaled to (at most) that speed.
pub fn cap_velocity(v: Vec2, max_speed: i64) -> (r: Vec2)
    requires
        max_speed >= 0,
    ensures
        (r.x as int, r.y as int) == cap_spec(v.x as int, v.y as int, max_speed as int),
        norm2(r) <= max_speed * max_speed,
        in_box(r, max_speed as int),
{
    proof {
        lemma_cap_norm(v.x as int, v.y as int, max_speed as int);
        assert((max_speed as u128) * (max_speed as u128) <= u128::MAX) by (nonlinear_arith)
            requires
                0 <= max_speed <= i64::MAX,
        ;
    }
    let n2: u128 = norm_sq(v);
    let msq: u128 = (max_speed as u128) * (max_speed as u128);
    if n2 <= msq {
        v
    } else {
        let f: u128 = isqrt_u128(n2);
        let s: u128 = if f * f == n2 {
            f
        } else {
            f + 1
        };
        proof {
            assert(s as nat == sqrt_ceil(n2 as nat));
            lemma_sqrt_ceil(n2 as nat);
            assert(-0x4000_0000_0000_0000_0000_0000_0000_0000int <= (v.x as int) * (
            max_speed as int) <= 0x4000_0000_0000_0000_0000_0000_0000_0000int)
                by (nonlinear_arith)
                requires
                    i64::MIN <= v.x <= i64::MAX,
                    0 <= max_speed <= i64::MAX,
            ;
            assert(-0x4000_0000_0000_0000_0000_0000_0000_0000int <= (v.y as int) * (
            max_speed as int) <= 0x4000_0000_0000_0000_0000_0000_0000_0000int)
                by (nonlinear_arith)
                requires
                    i64::MIN <= v.y <= i64::MAX,
                    0 <= max_speed <= i64::MAX,
            ;
        }
        let qx: i128 = div_i128((v.x as i128) * (max_speed as i128), s as i128);
        let qy: i128 = div_i128((v.y as i128) * (max_speed as i128), s as i128);
        Vec2 { x: qx as i64, y: qy as i64 }
    }
}

} // verus!
