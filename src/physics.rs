//! Integer geometry and the gravity law.
use vstd::prelude::*;
use vstd::arithmetic::div_mod::{
    lemma_div_by_multiple, lemma_div_denominator, lemma_div_is_ordered,
    lemma_div_multiples_vanish_quotient,
};
use vstd::arithmetic::mul::{lemma_mul_inequality, lemma_mul_is_commutative};

verus! {

/// Numerator of the gravitational constant, in micro-pixels cubed per
/// 10^10 kg per millisecond squared.
pub const G_NUM: u128 = 667;

/// Denominator of the gravitational constant.
pub const G_DEN: u128 = 10;

/// Largest mass that the gravity law accepts.
pub const MASS_LIMIT: u64 = 288_230_376_151_711_744;

/// Largest squared distance that the gravity law accepts.
pub const DIST2_LIMIT: u128 = 1_267_650_600_228_229_401_496_703_205_376;

/// Whether `r` is the square root of `n`, rounded down.
pub open spec fn is_floor_sqrt(n: int, r: int) -> bool {
    0 <= r && r * r <= n && n < (r + 1) * (r + 1)
}

/// The square root of `n`, rounded down.
pub open spec fn floor_sqrt(n: int) -> int {
    choose|r: int| is_floor_sqrt(n, r)
}

/// Squared Euclidean distance between two points.
pub open spec fn dist2(x1: int, y1: int, x2: int, y2: int) -> int {
    (x1 - x2) * (x1 - x2) + (y1 - y2) * (y1 - y2)
}

/// Acceleration that a primary of mass `big` gives a satellite of mass
/// `small` at squared distance `d2`: the force `G * big * small / d2`,
/// rounded down, divided by the satellite's mass, rounded down.
pub open spec fn accel(big: int, small: int, d2: int) -> int {
    ((G_NUM * big * small) / (G_DEN * d2)) / small
}

/// The share of acceleration `a` along an axis on which the primary lies
/// `delta` away, at distance `d`, over `dt`: `a * delta / d * dt`, rounded
/// toward zero.
pub open spec fn pull(a: int, delta: int, dt: int, d: int) -> int {
    if delta >= 0 {
        (a * delta * dt) / d
    } else {
        -((a * (-delta) * dt) / d)
    }
}

/// At most one floor square root exists.
pub proof fn lemma_floor_sqrt_unique(n: int, r: int, s: int)
    requires
        is_floor_sqrt(n, r),
        is_floor_sqrt(n, s),
    ensures
        r == s,
{
    if r < s {
        lemma_mul_inequality(r + 1, s, r + 1);
        lemma_mul_inequality(r + 1, s, s);
    } else if s < r {
        lemma_mul_inequality(s + 1, r, s + 1);
        lemma_mul_inequality(s + 1, r, r);
    }
}

/// A witness of the floor square root is the floor square root.
pub proof fn lemma_floor_sqrt_is(n: int, r: int)
    requires
        is_floor_sqrt(n, r),
    ensures
        floor_sqrt(n) == r,
{
    lemma_floor_sqrt_unique(n, r, floor_sqrt(n));
}

/// Every natural number has a floor square root.
pub proof fn lemma_floor_sqrt_exists(n: int)
    requires
        0 <= n,
    ensures
        is_floor_sqrt(n, floor_sqrt(n)),
    decreases n,
{
    if n == 0 {
        assert(is_floor_sqrt(0, 0));
    } else {
        lemma_floor_sqrt_exists(n - 1);
        let r = floor_sqrt(n - 1);
        if (r + 1) * (r + 1) <= n {
            assert(n < (r + 2) * (r + 2)) by (nonlinear_arith)
                requires
                    n - 1 < (r + 1) * (r + 1),
                    0 <= r,
            ;
            assert(is_floor_sqrt(n, r + 1));
        } else {
            assert(is_floor_sqrt(n, r));
        }
    }
}

/// Square root of `n`, rounded down.
pub fn isqrt(n: u128) -> (r: u128)
    ensures
        is_floor_sqrt(n as int, r as int),
        r == floor_sqrt(n as int),
        r <= 0x1_0000_0000_0000_0000u128,
{
    let mut lo: u128 = 0;
    let mut hi: u128 = 0x1_0000_0000_0000_0000;
    proof {
        assert(n < hi * hi) by (nonlinear_arith)
            requires
                hi == 0x1_0000_0000_0000_0000u128,
                n <= 0xffff_ffff_ffff_ffff_ffff_ffff_ffff_ffffu128,
        ;
    }
    while lo + 1 < hi
        invariant
            lo < hi,
            hi <= 0x1_0000_0000_0000_0000u128,
            lo * lo <= n,
            n < hi * hi,
        decreases hi - lo,
    {
        let mid = lo + (hi - lo) / 2;
        proof {
            assert(mid * mid < 0x1_0000_0000_0000_0000_0000_0000_0000_0000) by (nonlinear_arith)
                requires
                    mid < 0x1_0000_0000_0000_0000u128,
            ;
        }
        if mid * mid <= n {
            lo = mid;
        } else {
            hi = mid;
        }
    }
    proof {
        assert(hi == lo + 1);
        lemma_floor_sqrt_is(n as int, lo as int);
    }
    lo
}

/// Acceleration of a satellite of mass `small` at squared distance `d2` from
/// a primary of mass `big`.
pub fn acceleration(big: u64, small: u64, d2: u128) -> (r: u128)
    requires
        0 < big <= MASS_LIMIT,
        0 < small <= MASS_LIMIT,
        0 < d2 <= DIST2_LIMIT,
    ensures
        r == accel(big as int, small as int, d2 as int),
{
    proof {
        assert(G_NUM * big * small <= 667 * 0x400_0000_0000_0000 * 0x400_0000_0000_0000)
            by (nonlinear_arith)
            requires
                big <= 0x400_0000_0000_0000int,
                small <= 0x400_0000_0000_0000int,
                0 < big,
                0 < small,
        ;
    }
    let force = (G_NUM * big as u128 * small as u128) / (G_DEN * d2);
    force / small as u128
}

/// The acceleration that gravity gives a satellite does not depend on the
/// satellite's mass: it is `G * big / d2`, rounded down.
pub proof fn lemma_acceleration_independent_of_mass(big: int, m1: int, m2: int, d2: int)
    requires
        0 < big,
        0 < m1,
        0 < m2,
        0 < d2,
    ensures
        accel(big, m1, d2) == (G_NUM * big) / (G_DEN * d2),
        accel(big, m1, d2) == accel(big, m2, d2),
{
    lemma_accel_closed_form(big, m1, d2);
    lemma_accel_closed_form(big, m2, d2);
}

proof fn lemma_accel_closed_form(big: int, m: int, d2: int)
    requires
        0 < big,
        0 < m,
        0 < d2,
    ensures
        accel(big, m, d2) == (G_NUM * big) / (G_DEN * d2),
{
    let num = G_NUM * big;
    let den = G_DEN * d2;
    assert(G_NUM * big * m == m * num) by {
        lemma_mul_is_commutative(num, m);
    }
    assert(num >= 0) by (nonlinear_arith)
        requires
            num == G_NUM * big,
            big > 0,
    ;
    assert(den > 0) by (nonlinear_arith)
        requires
            den == G_DEN * d2,
            d2 > 0,
    ;
    lemma_div_denominator(m * num, den, m);
    lemma_mul_is_commutative(den, m);
    lemma_div_multiples_vanish_quotient(m, num, den);
}

/// The share of acceleration `a` along one axis, over `dt` milliseconds, for
/// a primary `delta` away on that axis and `d` away in all.
pub fn axis_pull(a: u128, delta: i64, dt: u64, d: u128) -> (r: i64)
    requires
        a <= 0x100_0000,
        dt <= 0x1_0000,
        0 < d <= 0x1_0000_0000_0000_0000u128,
        -d <= delta <= d,
    ensures
        r == pull(a as int, delta as int, dt as int, d as int),
        -(a * dt) <= r <= a * dt,
{
    let mag: u128 = if delta >= 0 { delta as u128 } else { (-(delta as i128)) as u128 };
    proof {
        assert(a * mag <= 0x100_0000 * 0x1_0000_0000_0000_0000) by (nonlinear_arith)
            requires
                mag <= d,
                d <= 0x1_0000_0000_0000_0000int,
                a <= 0x100_0000,
                0 <= a,
        ;
        assert(a * mag * dt <= a * d * dt) by (nonlinear_arith)
            requires
                mag <= d,
                0 <= a,
                0 <= dt,
        ;
        assert(a * d * dt <= 0x100_0000 * 0x1_0000_0000_0000_0000 * 0x1_0000) by (nonlinear_arith)
            requires
                a <= 0x100_0000,
                d <= 0x1_0000_0000_0000_0000int,
                dt <= 0x1_0000,
                0 <= a,
                0 <= dt,
        ;
        assert(a * d * dt == (a * dt) * d) by (nonlinear_arith);
        lemma_div_is_ordered(a * mag * dt, (a * dt) * d, d as int);
        assert(0 <= a * dt) by (nonlinear_arith)
            requires
                0 <= a,
                0 <= dt,
        ;
        lemma_div_by_multiple(a * dt, d as int);
        assert(a * dt <= 0x100_0000 * 0x1_0000) by (nonlinear_arith)
            requires
                a <= 0x100_0000,
                dt <= 0x1_0000,
                0 <= a,
                0 <= dt,
        ;
        assert(0 <= a * mag * dt) by (nonlinear_arith)
            requires
                0 <= a,
                0 <= mag,
                0 <= dt,
        ;
        vstd::arithmetic::div_mod::lemma_div_pos_is_pos(a * mag * dt, d as int);
    }
    let share = (a * mag * dt as u128) / d;
    if delta >= 0 {
        share as i64
    } else {
        -(share as i64)
    }
}

/// Gravity points toward the primary: along each axis the pull has the sign
/// of the offset from the satellite to the primary, and is no larger than the
/// full acceleration over the tick.
pub proof fn lemma_pull_points_toward_primary(a: int, delta: int, dt: int, d: int)
    requires
        0 <= a,
        0 <= dt,
        0 < d,
        -d <= delta <= d,
    ensures
        delta > 0 ==> 0 <= pull(a, delta, dt, d) <= a * dt,
        delta < 0 ==> -(a * dt) <= pull(a, delta, dt, d) <= 0,
        delta == 0 ==> pull(a, delta, dt, d) == 0,
{
    let mag = if delta >= 0 {
        delta
    } else {
        -delta
    };
    assert(0 <= a * mag * dt <= (a * dt) * d) by (nonlinear_arith)
        requires
            0 <= a,
            0 <= dt,
            0 <= mag <= d,
    ;
    lemma_div_is_ordered(a * mag * dt, (a * dt) * d, d);
    assert(0 <= a * dt) by (nonlinear_arith)
        requires
            0 <= a,
            0 <= dt,
    ;
    lemma_div_by_multiple(a * dt, d);
    vstd::arithmetic::div_mod::lemma_div_pos_is_pos(a * mag * dt, d);
    if delta == 0 {
        assert(a * delta * dt == 0) by (nonlinear_arith)
            requires
                delta == 0,
        ;
    }
}

} // verus!
