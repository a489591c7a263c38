//! Integer helpers shared by the simulation: world bounds, truncating
//! division, and an integer square root.

use vstd::prelude::*;

verus! {

/// Largest coordinate magnitude the simulation works with, in fixed-point
/// units. Positions, velocities and configuration constants stay within it.
pub const WORLD_LIMIT: i64 = 1_000_000_000_000;

/// Largest population a configuration may ask for; keeps steering sums within
/// `i64`.
pub const MAX_POPULATION: usize = 1_000_000;

/// Largest elapsed-time value (in ticks) accepted by an integration step.
pub const DT_LIMIT: i64 = 1000;

/// Largest magnitude a separation steering component can reach: every one of
/// at most `MAX_POPULATION` close neighbors contributes less than
/// `WORLD_LIMIT` per component.
pub const SEP_LIMIT: i64 = 1_000_000_000_000_000_000;

/// Fixed-point scale of one world unit: the range random direction components
/// are drawn from at spawn.
pub const UNIT: i64 = 1000;

/// Division truncating toward zero (the rounding of Rust's `/` on signed
/// integers), defined for a positive divisor.
pub open spec fn div_trunc(a: int, d: int) -> int {
    if a >= 0 {
        a / d
    } else {
        -((-a) / d)
    }
}

/// Truncating division of an `i64` by a positive divisor.
pub fn div_i64(a: i64, d: i64) -> (r: i64)
    requires
        d >= 1,
        a != i64::MIN,
    ensures
        r == div_trunc(a as int, d as int),
        -abs(a as int) <= r <= abs(a as int),
{
    if a >= 0 {
        let q: u64 = (a as u64) / (d as u64);
        proof {
            vstd::arithmetic::div_mod::lemma_div_nonincreasing(a as int, d as int);
            vstd::arithmetic::div_mod::lemma_div_pos_is_pos(a as int, d as int);
        }
        q as i64
    } else {
        let n: i64 = -a;
        let q: u64 = (n as u64) / (d as u64);
        proof {
            vstd::arithmetic::div_mod::lemma_div_nonincreasing(n as int, d as int);
            vstd::arithmetic::div_mod::lemma_div_pos_is_pos(n as int, d as int);
        }
        -(q as i64)
    }
}

/// Absolute value, in the mathematical integers.
pub open spec fn abs(a: int) -> int {
    if a >= 0 {
        a
    } else {
        -a
    }
}

/// A truncating quotient is no larger in magnitude than `b` whenever the
/// dividend is within `d * b`.
pub proof fn lemma_div_trunc_bound(a: int, d: int, b: int)
    requires
        d >= 1,
        b >= 0,
        -(d * b) <= a <= d * b,
    ensures
        -b <= div_trunc(a, d) <= b,
{
    vstd::arithmetic::div_mod::lemma_div_multiples_vanish(b, d);
    if a >= 0 {
        vstd::arithmetic::div_mod::lemma_div_is_ordered(a, d * b, d);
        vstd::arithmetic::div_mod::lemma_div_pos_is_pos(a, d);
    } else {
        vstd::arithmetic::div_mod::lemma_div_is_ordered(-a, d * b, d);
        vstd::arithmetic::div_mod::lemma_div_pos_is_pos(-a, d);
    }
}

/// Truncating division takes zero to zero.
pub proof fn lemma_div_trunc_of0(d: int)
    requires
        d >= 1,
    ensures
        div_trunc(0, d) == 0,
{
    vstd::arithmetic::div_mod::lemma_div_of0(d);
}

/// Truncating division rounds toward the dividend: the quotient lies between
/// zero and the dividend.
pub proof fn lemma_div_trunc_between(a: int, d: int)
    requires
        d >= 1,
    ensures
        a >= 0 ==> 0 <= div_trunc(a, d) <= a,
        a < 0 ==> a <= div_trunc(a, d) <= 0,
{
    if a >= 0 {
        vstd::arithmetic::div_mod::lemma_div_pos_is_pos(a, d);
        vstd::arithmetic::div_mod::lemma_div_nonincreasing(a, d);
    } else {
        vstd::arithmetic::div_mod::lemma_div_pos_is_pos(-a, d);
        vstd::arithmetic::div_mod::lemma_div_nonincreasing(-a, d);
    }
}

/// The integer square root: the largest `r` with `r * r <= n`.
pub open spec fn isqrt_spec(n: nat) -> nat
    decreases n,
{
    if n == 0 {
        0
    } else {
        let r = isqrt_spec((n - 1) as nat);
        if (r + 1) * (r + 1) <= n {
            r + 1
        } else {
            r
        }
    }
}

/// `isqrt_spec(n)` is indeed the integer square root of `n`.
pub proof fn lemma_isqrt_spec_bounds(n: nat)
    ensures
        isqrt_spec(n) * isqrt_spec(n) <= n,
        n < (isqrt_spec(n) + 1) * (isqrt_spec(n) + 1),
    decreases n,
{
    let s = isqrt_spec(n);
    if n == 0 {
        assert(s == 0);
        assert(s * s <= n) by (nonlinear_arith)
            requires
                s == 0,
                n == 0,
        ;
        assert(n < (s + 1) * (s + 1)) by (nonlinear_arith)
            requires
                s == 0,
                n == 0,
        ;
    } else {
        lemma_isqrt_spec_bounds((n - 1) as nat);
        let r = isqrt_spec((n - 1) as nat);
        assert(r * r <= n - 1 && n - 1 < (r + 1) * (r + 1));
        if (r + 1) * (r + 1) <= n {
            assert(s == r + 1);
            assert(s * s <= n);
            assert(n < (s + 1) * (s + 1)) by (nonlinear_arith)
                requires
                    s == r + 1,
                    n <= (r + 1) * (r + 1),
            ;
        } else {
            assert(s == r);
            assert(s * s <= n) by (nonlinear_arith)
                requires
                    s == r,
                    r * r <= n - 1,
                    n >= 1,
            ;
            assert(n < (s + 1) * (s + 1)) by (nonlinear_arith)
                requires
                    s == r,
                    n < (r + 1) * (r + 1),
            ;
        }
    }
}

/// Any value squeezed the same way as `isqrt_spec(n)` equals it.
pub proof fn lemma_isqrt_unique(n: nat, r: nat)
    requires
        r * r <= n,
        n < (r + 1) * (r + 1),
    ensures
        r == isqrt_spec(n),
{
    lemma_isqrt_spec_bounds(n);
    let s = isqrt_spec(n);
    if r < s {
        assert((r + 1) * (r + 1) <= s * s) by (nonlinear_arith)
            requires
                r + 1 <= s,
        ;
    }
    if s < r {
        assert((s + 1) * (s + 1) <= r * r) by (nonlinear_arith)
            requires
                s + 1 <= r,
        ;
    }
}

/// Integer square root of a `u128`, by binary search.
pub fn isqrt(n: u128) -> (r: u64)
    ensures
        r == isqrt_spec(n as nat),
        (r as int) * (r as int) <= n < (r as int + 1) * (r as int + 1),
{
    let mut lo: u128 = 0;
    let mut hi: u128 = 0x1_0000_0000_0000_0000;
    proof {
        assert((hi as int) * (hi as int) > n as int) by (nonlinear_arith)
            requires
                hi == 0x1_0000_0000_0000_0000,
                n <= u128::MAX,
        ;
    }
    while hi - lo > 1
        invariant
            lo < hi <= 0x1_0000_0000_0000_0000,
            (lo as int) * (lo as int) <= n as int,
            (hi as int) * (hi as int) > n as int,
        decreases hi - lo,
    {
        let mid: u128 = lo + (hi - lo) / 2;
        assert(mid * mid <= u128::MAX) by (nonlinear_arith)
            requires
                mid < 0x1_0000_0000_0000_0000,
        ;
        if mid * mid <= n {
            lo = mid;
        } else {
            hi = mid;
        }
    }
    proof {
        lemma_isqrt_unique(n as nat, lo as nat);
    }
    lo as u64
}

/// Multiplies `a` by a nonnegative `s` and divides by a positive `n`,
/// truncating toward zero. Used to rescale a vector component onto the target
/// speed; `abs(a) <= n` keeps the result within `s`.
pub fn scale_div(a: i64, s: i64, n: u64) -> (r: i64)
    requires
        n >= 1,
        0 <= s,
        abs(a as int) <= n,
    ensures
        r == div_trunc(a * s, n as int),
        -s <= r <= s,
{
    let mag: u128 = if a >= 0 {
        a as u128
    } else {
        ((-(a as i128)) as u128)
    };
    proof {
        let m = mag as int;
        let sv = (s as u128) as int;
        assert(sv == s as int);
        assert(m * sv <= u128::MAX as int) by (nonlinear_arith)
            requires
                0 <= m <= 0x1_0000_0000_0000_0000,
                0 <= sv < 0x8000_0000_0000_0000,
        ;
    }
    let q: u128 = (mag * (s as u128)) / (n as u128);
    proof {
        assert(mag == abs(a as int));
        assert(mag * (s as u128) <= (n as u128) * (s as u128)) by (nonlinear_arith)
            requires
                mag <= n,
                s >= 0,
        ;
        vstd::arithmetic::div_mod::lemma_div_is_ordered(
            (mag * (s as u128)) as int,
            ((n as u128) * (s as u128)) as int,
            n as int,
        );
        vstd::arithmetic::div_mod::lemma_div_multiples_vanish(s as int, n as int);
        assert(q <= s);
    }
    if a >= 0 {
        q as i64
    } else {
        proof {
            assert(a * s == -(mag * s)) by (nonlinear_arith)
                requires
                    a < 0,
                    mag == -a,
            ;
        }
        -(q as i64)
    }
}

} // verus!
