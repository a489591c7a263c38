//! Fixed-point 3D vectors and their mathematical model.
//!
//! `Vec3i` is the executable vector of the simulation; `V3` is its ghost
//! counterpart over the mathematical integers, which the contracts speak of.

use vstd::prelude::*;

use crate::arith::{abs, WORLD_LIMIT};

verus! {

/// A 3D vector in fixed-point world coordinates.
#[derive(Clone, Copy, Debug, PartialEq, Eq, Structural)]
pub struct Vec3i {
    pub x: i64,
    pub y: i64,
    pub z: i64,
}

/// The mathematical value of a `Vec3i`: the same components, as unbounded
/// integers.
pub ghost struct V3 {
    pub x: int,
    pub y: int,
    pub z: int,
}

/// Lifts an executable vector to its mathematical value.
pub open spec fn v3(v: Vec3i) -> V3 {
    V3 { x: v.x as int, y: v.y as int, z: v.z as int }
}

/// The zero vector.
pub open spec fn v3_zero() -> V3 {
    V3 { x: 0, y: 0, z: 0 }
}

/// Componentwise sum.
pub open spec fn v3_add(a: V3, b: V3) -> V3 {
    V3 { x: a.x + b.x, y: a.y + b.y, z: a.z + b.z }
}

/// Componentwise difference.
pub open spec fn v3_sub(a: V3, b: V3) -> V3 {
    V3 { x: a.x - b.x, y: a.y - b.y, z: a.z - b.z }
}

/// Squared Euclidean magnitude.
pub open spec fn mag_sq(a: V3) -> int {
    a.x * a.x + a.y * a.y + a.z * a.z
}

/// Squared Euclidean distance between two points.
pub open spec fn dist_sq(a: V3, b: V3) -> int {
    mag_sq(v3_sub(a, b))
}

/// All components within `bound` in magnitude.
pub open spec fn v3_bounded(a: V3, bound: int) -> bool {
    abs(a.x) <= bound && abs(a.y) <= bound && abs(a.z) <= bound
}

/// Componentwise division by a positive divisor, truncating toward zero.
pub open spec fn v3_div(a: V3, d: int) -> V3 {
    V3 {
        x: crate::arith::div_trunc(a.x, d),
        y: crate::arith::div_trunc(a.y, d),
        z: crate::arith::div_trunc(a.z, d),
    }
}

/// Two points closer than `t` differ by less than `t` in every component.
pub proof fn lemma_close_components(a: V3, p: V3, t: int)
    requires
        dist_sq(a, p) < t * t,
        t >= 1,
    ensures
        v3_bounded(v3_sub(a, p), t - 1),
{
    let dx = a.x - p.x;
    let dy = a.y - p.y;
    let dz = a.z - p.z;
    assert(dist_sq(a, p) == dx * dx + dy * dy + dz * dz);
    assert(abs(dx) <= t - 1 && abs(dy) <= t - 1 && abs(dz) <= t - 1) by (nonlinear_arith)
        requires
            dx * dx + dy * dy + dz * dz < t * t,
            t >= 1,
    ;
}

impl Vec3i {
    /// Builds a vector from its components.
    pub fn new(x: i64, y: i64, z: i64) -> (r: Vec3i)
        ensures
            r.x == x && r.y == y && r.z == z,
    {
        Vec3i { x, y, z }
    }

    /// The zero vector.
    pub fn zero() -> (r: Vec3i)
        ensures
            v3(r) == v3_zero(),
    {
        Vec3i { x: 0, y: 0, z: 0 }
    }
}

/// Squared distance between two in-world points, computed without overflow.
pub fn dist_sq_exec(a: &Vec3i, b: &Vec3i) -> (r: u128)
    requires
        v3_bounded(v3(*a), WORLD_LIMIT as int),
        v3_bounded(v3(*b), WORLD_LIMIT as int),
    ensures
        r == dist_sq(v3(*a), v3(*b)),
{
    let dx: i64 = a.x - b.x;
    let dy: i64 = a.y - b.y;
    let dz: i64 = a.z - b.z;
    let sx: u128 = sq_u128(dx);
    let sy: u128 = sq_u128(dy);
    let sz: u128 = sq_u128(dz);
    proof {
        assert(sx + sy + sz <= u128::MAX) by (nonlinear_arith)
            requires
                sx == (dx as int) * (dx as int),
                sy == (dy as int) * (dy as int),
                sz == (dz as int) * (dz as int),
                abs(dx as int) <= 2 * WORLD_LIMIT,
                abs(dy as int) <= 2 * WORLD_LIMIT,
                abs(dz as int) <= 2 * WORLD_LIMIT,
        ;
    }
    sx + sy + sz
}

/// The square of a component, as a `u128`.
pub(crate) fn sq_u128(d: i64) -> (r: u128)
    ensures
        r == (d as int) * (d as int),
{
    let m: u128 = if d >= 0 {
        d as u128
    } else {
        (-(d as i128)) as u128
    };
    proof {
        assert(m == abs(d as int) && m <= 0x8000_0000_0000_0000u128);
        assert(m * m == (d as int) * (d as int)) by (nonlinear_arith)
            requires
                m == abs(d as int),
        ;
        assert(m * m <= u128::MAX) by (nonlinear_arith)
            requires
                m <= 0x8000_0000_0000_0000u128,
        ;
    }
    m * m
}

} // verus!
