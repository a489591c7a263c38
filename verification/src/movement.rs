//! Velocity and acceleration components, and the renormalization that keeps
//! every steering agent at the configured speed.

use vstd::prelude::*;

use crate::arith::{abs, div_trunc, isqrt, isqrt_spec, scale_div};
use crate::vec3::{mag_sq, v3, v3_bounded, v3_zero, Vec3i, V3};

verus! {

/// Largest velocity-component magnitude the renormalization accepts: the
/// steering drift of one frame can never push a component past it.
pub const DRIFT_LIMIT: i64 = 2_000_000_000_000_000_000;

/// A velocity component: the agent's current speed and direction.
#[derive(Clone, Copy, Debug, PartialEq, Eq, Structural)]
pub struct Velocity {
    pub value: Vec3i,
}

impl Velocity {
    /// Wraps a vector as a velocity.
    pub fn new(value: Vec3i) -> (r: Velocity)
        ensures
            r.value == value,
    {
        Velocity { value }
    }
}

/// An acceleration component; identically zero in this design, retained so
/// the velocity integration keeps its general shape.
#[derive(Clone, Copy, Debug, PartialEq, Eq, Structural)]
pub struct Acceleration {
    pub value: Vec3i,
}

impl Acceleration {
    /// Wraps a vector as an acceleration.
    pub fn new(value: Vec3i) -> (r: Acceleration)
        ensures
            r.value == value,
    {
        Acceleration { value }
    }
}

/// The renormalized vector: `v` rescaled so that its magnitude is the target
/// speed `s`, in fixed-point arithmetic. Each component becomes
/// `v_i * s / |v|`, truncating toward zero; the zero vector (which has no
/// direction) stays zero.
pub open spec fn renorm_spec(v: V3, s: int) -> V3 {
    if mag_sq(v) == 0 {
        v3_zero()
    } else {
        let n = isqrt_spec(mag_sq(v) as nat) as int;
        V3 {
            x: div_trunc(v.x * s, n),
            y: div_trunc(v.y * s, n),
            z: div_trunc(v.z * s, n),
        }
    }
}

/// Squared Euclidean magnitude of an executable vector.
pub fn mag_sq_exec(v: &Vec3i) -> (r: u128)
    requires
        v3_bounded(v3(*v), DRIFT_LIMIT as int),
    ensures
        r == mag_sq(v3(*v)),
{
    let sx: u128 = crate::vec3::sq_u128(v.x);
    let sy: u128 = crate::vec3::sq_u128(v.y);
    let sz: u128 = crate::vec3::sq_u128(v.z);
    proof {
        assert(sx + sy + sz <= u128::MAX) by (nonlinear_arith)
            requires
                sx == (v.x as int) * (v.x as int),
                sy == (v.y as int) * (v.y as int),
                sz == (v.z as int) * (v.z as int),
                abs(v.x as int) <= DRIFT_LIMIT,
                abs(v.y as int) <= DRIFT_LIMIT,
                abs(v.z as int) <= DRIFT_LIMIT,
                DRIFT_LIMIT == 2_000_000_000_000_000_000,
        ;
    }
    sx + sy + sz
}

/// A component of a vector cannot exceed the integer square root of the
/// vector's squared magnitude.
proof fn lemma_comp_le_root(a: int, m: int, n: int)
    requires
        a * a <= m,
        m < (n + 1) * (n + 1),
        n >= 0,
    ensures
        abs(a) <= n,
{
    if abs(a) > n {
        assert((n + 1) * (n + 1) <= a * a) by (nonlinear_arith)
            requires
                abs(a) >= n + 1,
                n >= 0,
        ;
    }
}

/// Rescales `v` to the target speed `s`, truncating toward zero.
pub fn renormalize(v: &Vec3i, s: i64) -> (r: Vec3i)
    requires
        v3_bounded(v3(*v), DRIFT_LIMIT as int),
        0 <= s,
    ensures
        v3(r) == renorm_spec(v3(*v), s as int),
        v3_bounded(v3(r), s as int),
        v.y == 0 ==> r.y == 0,
{
    let m: u128 = mag_sq_exec(v);
    if m == 0 {
        Vec3i::zero()
    } else {
        let n: u64 = isqrt(m);
        proof {
            assert(n >= 1) by (nonlinear_arith)
                requires
                    (n as int) * (n as int) <= m,
                    m >= 1,
                    (n as int + 1) * (n as int + 1) > m,
                    n >= 0,
            ;
            assert((v.x as int) * (v.x as int) <= m && (v.y as int) * (v.y as int) <= m
                && (v.z as int) * (v.z as int) <= m) by (nonlinear_arith)
                requires
                    m == mag_sq(v3(*v)),
            ;
            lemma_comp_le_root(v.x as int, m as int, n as int);
            lemma_comp_le_root(v.y as int, m as int, n as int);
            lemma_comp_le_root(v.z as int, m as int, n as int);
        }
        let r = Vec3i {
            x: scale_div(v.x, s, n),
            y: scale_div(v.y, s, n),
            z: scale_div(v.z, s, n),
        };
        proof {
            if v.y == 0 {
                crate::arith::lemma_div_trunc_of0(n as int);
            }
        }
        r
    }
}

/// The velocity after one frame of steering drift: the steering vectors plus
/// noise, less the agent's position, added onto the planar components of the
/// current velocity. The `y` component is left alone.
pub open spec fn drifted_velocity(v: V3, pos: V3, coh: V3, sep: V3, ali: V3, noise: V3) -> V3 {
    let dir = crate::vec3::v3_sub(
        crate::vec3::v3_add(crate::vec3::v3_add(crate::vec3::v3_add(coh, sep), ali), noise),
        pos,
    );
    V3 { x: v.x + dir.x, y: v.y, z: v.z + dir.z }
}

/// How many blend steps ease the facing onto the velocity: one twentieth of
/// the remaining turn per frame, the fixed-point counterpart of a 0.05
/// interpolation factor.
pub const BLEND_DIVISOR: i64 = 20;

/// One frame of orientation easing: the facing moves one blend step toward
/// the velocity, componentwise, truncating toward zero.
pub open spec fn facing_blend(f: V3, v: V3) -> V3 {
    V3 {
        x: f.x + div_trunc(v.x - f.x, BLEND_DIVISOR as int),
        y: f.y + div_trunc(v.y - f.y, BLEND_DIVISOR as int),
        z: f.z + div_trunc(v.z - f.z, BLEND_DIVISOR as int),
    }
}

/// One rescaled component, squared, sits within `2 A n` of the exact square
/// `A^2 = (a s)^2`, scaled by `n^2`.
proof fn lemma_scale_comp(a: int, s: int, n: int)
    requires
        n >= 1,
        s >= 0,
        abs(a) <= n,
    ensures
        ({
            let q = div_trunc(a * s, n);
            q * q * (n * n) <= (a * s) * (a * s)
                && q * q * (n * n) >= (a * s) * (a * s) - 2 * (abs(a) * s) * n
        }),
{
    let aa = abs(a);
    let big = aa * s;
    assert(big >= 0) by (nonlinear_arith)
        requires
            big == aa * s,
            aa >= 0,
            s >= 0,
    ;
    let q0 = big / n;
    vstd::arithmetic::div_mod::lemma_fundamental_div_mod(big, n);
    vstd::arithmetic::div_mod::lemma_div_pos_is_pos(big, n);
    assert(big == n * q0 + big % n);
    assert(0 <= big % n < n);
    assert(n * q0 <= big);
    let q = div_trunc(a * s, n);
    if a >= 0 {
        assert(a * s == big) by (nonlinear_arith)
            requires
                big == aa * s,
                aa == a,
        ;
        assert(a * s >= 0);
        assert(q == q0);
    } else {
        assert(a * s == -big) by (nonlinear_arith)
            requires
                big == aa * s,
                aa == -a,
        ;
        if big == 0 {
            vstd::arithmetic::div_mod::lemma_div_of0(n);
            assert(q == q0);
        } else {
            assert(a * s < 0);
            assert(-(a * s) == big);
            assert(q == -q0);
        }
    }
    assert(q * q == q0 * q0) by (nonlinear_arith)
        requires
            q == q0 || q == -q0,
    ;
    assert((a * s) * (a * s) == big * big) by (nonlinear_arith)
        requires
            a * s == big || a * s == -big,
    ;
    // Upper: (q0 n)^2 <= big^2 from 0 <= q0 n <= big.
    assert(q0 * q0 * (n * n) <= big * big) by (nonlinear_arith)
        requires
            0 <= q0,
            n >= 1,
            n * q0 <= big,
    ;
    // Lower: (q0 n)^2 >= big^2 - 2 big n.
    if big < n {
        vstd::arithmetic::div_mod::lemma_basic_div(big, n);
        assert(q0 == 0);
        assert(q0 * q0 * (n * n) >= big * big - 2 * big * n) by (nonlinear_arith)
            requires
                q0 == 0,
                0 <= big < n,
        ;
    } else {
        assert(n * q0 >= big - n + 1);
        assert(q0 * q0 * (n * n) >= big * big - 2 * big * n) by (nonlinear_arith)
            requires
                n * q0 >= big - n,
                big - n >= 0,
                q0 >= 0,
                n >= 1,
        ;
    }
    assert(q * q * (n * n) == q0 * q0 * (n * n));
    assert(2 * (abs(a) * s) * n == 2 * big * n);
}

/// Speed invariant of the renormalization, stated over squared magnitudes.
///
/// For a nonzero vector `v` and a target speed `s >= 1`, with
/// `n = isqrt(|v|^2)` the fixed-point resolution of `v`, the renormalized
/// vector `r` satisfies
///
/// `n^2 (s^2 - 6 s) <= n^2 |r|^2 <= s^2 (n^2 + 2 n)`,
///
/// so `|r|^2` lies within a relative error of order `1/n` of `s^2`: the
/// magnitude after renormalization equals the configured speed up to the
/// rounding granularity of the fixed-point scale. The coarse corollary
/// `s^2 - 6 s <= |r|^2 <= 3 s^2` holds for every resolution.
pub proof fn lemma_renorm_speed(v: V3, s: int)
    requires
        mag_sq(v) > 0,
        s >= 1,
    ensures
        ({
            let r = renorm_spec(v, s);
            let n = isqrt_spec(mag_sq(v) as nat) as int;
            mag_sq(r) * (n * n) <= s * s * (n * n + 2 * n)
                && mag_sq(r) * (n * n) >= (s * s - 6 * s) * (n * n)
                && mag_sq(r) <= 3 * (s * s)
                && mag_sq(r) >= s * s - 6 * s
        }),
{
    let m = mag_sq(v);
    crate::arith::lemma_isqrt_spec_bounds(m as nat);
    let n = isqrt_spec(m as nat) as int;
    assert(n * n <= m < (n + 1) * (n + 1));
    assert(n >= 1) by (nonlinear_arith)
        requires
            m >= 1,
            m < (n + 1) * (n + 1),
            n >= 0,
    ;
    assert(v.x * v.x <= m && v.y * v.y <= m && v.z * v.z <= m) by (nonlinear_arith)
        requires
            m == v.x * v.x + v.y * v.y + v.z * v.z,
    ;
    lemma_comp_le_root(v.x, m, n);
    lemma_comp_le_root(v.y, m, n);
    lemma_comp_le_root(v.z, m, n);
    lemma_scale_comp(v.x, s, n);
    lemma_scale_comp(v.y, s, n);
    lemma_scale_comp(v.z, s, n);
    let r = renorm_spec(v, s);
    let qx = div_trunc(v.x * s, n);
    let qy = div_trunc(v.y * s, n);
    let qz = div_trunc(v.z * s, n);
    assert(r.x == qx && r.y == qy && r.z == qz);
    assert(mag_sq(r) == qx * qx + qy * qy + qz * qz);
    let g = mag_sq(r);
    // (a s)^2 == a^2 s^2, per component, and their sum is m s^2.
    assert((v.x * s) * (v.x * s) == (v.x * v.x) * (s * s)) by (nonlinear_arith);
    assert((v.y * s) * (v.y * s) == (v.y * v.y) * (s * s)) by (nonlinear_arith);
    assert((v.z * s) * (v.z * s) == (v.z * v.z) * (s * s)) by (nonlinear_arith);
    assert((v.x * v.x) * (s * s) + (v.y * v.y) * (s * s) + (v.z * v.z) * (s * s) == m * (s * s))
        by (nonlinear_arith)
        requires
            m == v.x * v.x + v.y * v.y + v.z * v.z,
    ;
    // g * n^2 distributes over the components.
    assert(g * (n * n) == qx * qx * (n * n) + qy * qy * (n * n) + qz * qz * (n * n))
        by (nonlinear_arith)
        requires
            g == qx * qx + qy * qy + qz * qz,
    ;
    // Upper bound.
    assert(g * (n * n) <= m * (s * s));
    assert(m * (s * s) <= s * s * (n * n + 2 * n)) by (nonlinear_arith)
        requires
            m < (n + 1) * (n + 1),
            s >= 1,
            n >= 1,
    ;
    assert(g * (n * n) <= s * s * (n * n + 2 * n));
    // Lower bound: subtract the three truncation losses 2 |a_i| s n <= 2 n s n.
    assert(2 * (abs(v.x) * s) * n <= 2 * ((n * s) * n)) by (nonlinear_arith)
        requires
            0 <= abs(v.x) <= n,
            s >= 0,
            n >= 1,
    ;
    assert(2 * (abs(v.y) * s) * n <= 2 * ((n * s) * n)) by (nonlinear_arith)
        requires
            0 <= abs(v.y) <= n,
            s >= 0,
            n >= 1,
    ;
    assert(2 * (abs(v.z) * s) * n <= 2 * ((n * s) * n)) by (nonlinear_arith)
        requires
            0 <= abs(v.z) <= n,
            s >= 0,
            n >= 1,
    ;
    assert(g * (n * n) >= m * (s * s) - 6 * ((n * s) * n));
    assert(m * (s * s) - 6 * ((n * s) * n) >= (s * s - 6 * s) * (n * n)) by (nonlinear_arith)
        requires
            m >= n * n,
            s >= 1,
            n >= 1,
    ;
    assert(g * (n * n) >= (s * s - 6 * s) * (n * n));
    // Coarse corollaries.
    assert(g <= 3 * (s * s)) by (nonlinear_arith)
        requires
            g * (n * n) <= s * s * (n * n + 2 * n),
            n >= 1,
            s >= 1,
    ;
    assert(g >= s * s - 6 * s) by (nonlinear_arith)
        requires
            g * (n * n) >= (s * s - 6 * s) * (n * n),
            n >= 1,
            s >= 1,
    ;
}

} // verus!
