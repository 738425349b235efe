//! Scalar fixed-point arithmetic: truncating division and integer square
//! roots, with exact contracts. Every quantity in the solver is an integer in
//! milli-units, so these two operations carry all of the rounding behavior.

use vstd::prelude::*;
use vstd::arithmetic::div_mod::{lemma_fundamental_div_mod, lemma_mod_division_less_than_divisor};

verus! {

/// Division rounded toward zero, the rounding mode used throughout the solver.
/// For a nonnegative dividend this is Euclidean division; for a negative one
/// it is the negated quotient of the magnitudes.
pub open spec fn div_tz(a: int, b: int) -> int {
    if a >= 0 {
        a / b
    } else {
        -((-a) / b)
    }
}

/// Magnitude of an integer.
pub open spec fn abs_i(a: int) -> int {
    if a >= 0 {
        a
    } else {
        -a
    }
}

/// `r` is the integer square root of `x`, rounded up.
pub open spec fn is_sqrt_up(x: int, r: int) -> bool {
    0 <= r && r * r >= x && (r - 1) * (r - 1) < x
}

/// Integer square root rounded up: the least `r >= 0` with `r * r >= x`.
pub open spec fn sqrt_up(x: int) -> int {
    if x <= 0 {
        0
    } else {
        choose|r: int| is_sqrt_up(x, r)
    }
}

/// Squares are monotone over magnitudes.
pub proof fn lemma_sq_le(a: int, b: int)
    by (nonlinear_arith)
    requires
        abs_i(a) <= b,
    ensures
        a * a <= b * b,
{
}

/// A square below `m * m` bounds the magnitude by `m`.
pub proof fn lemma_abs_le(a: int, m: int)
    by (nonlinear_arith)
    requires
        m >= 0,
        a * a <= m * m,
    ensures
        -m <= a <= m,
{
}

/// Squares are monotone over magnitudes, both sides signed.
pub proof fn lemma_sq_abs(u: int, v: int)
    by (nonlinear_arith)
    requires
        abs_i(u) <= abs_i(v),
    ensures
        u * u <= v * v,
{
}

/// Truncating division shrinks the magnitude: `|div_tz(a, b) * b| <= |a|`,
/// and the quotient keeps the sign of the dividend.
pub proof fn lemma_div_tz(a: int, b: int)
    requires
        b >= 1,
    ensures
        abs_i(div_tz(a, b) * b) <= abs_i(a),
        abs_i(div_tz(a, b)) <= abs_i(a),
        a >= 0 ==> div_tz(a, b) >= 0,
        a <= 0 ==> div_tz(a, b) <= 0,
        div_tz(a, b) * b > a - b,
        div_tz(a, b) * b < a + b,
{
    if a >= 0 {
        let q = a / b;
        lemma_fundamental_div_mod(a, b);
        lemma_mod_division_less_than_divisor(a, b);
        assert(0 <= q * b <= a && q * b > a - b && 0 <= q <= a) by (nonlinear_arith)
            requires
                b >= 1,
                a >= 0,
                a == b * q + a % b,
                0 <= a % b < b,
        ;
    } else {
        let m = -a;
        let q = m / b;
        lemma_fundamental_div_mod(m, b);
        lemma_mod_division_less_than_divisor(m, b);
        assert(0 <= q * b <= m && q * b > m - b && 0 <= q <= m && (-q) * b == -(q * b))
            by (nonlinear_arith)
            requires
                b >= 1,
                m >= 1,
                m == b * q + m % b,
                0 <= m % b < b,
        ;
        assert(div_tz(a, b) == -q);
        assert(div_tz(a, b) * b == -(q * b));
    }
}

/// Euclidean division by a positive divisor keeps a value's bound.
pub proof fn lemma_div_bound(a: int, b: int, m: int)
    requires
        b >= 1,
        0 <= m,
        -m <= a <= m,
    ensures
        -m <= a / b <= m,
{
    lemma_fundamental_div_mod(a, b);
    lemma_mod_division_less_than_divisor(a, b);
    let q = a / b;
    assert(-m <= q <= m) by (nonlinear_arith)
        requires
            b >= 1,
            0 <= m,
            -m <= a <= m,
            a == b * q + a % b,
            0 <= a % b < b,
    ;
}

/// A root below a square is below the root of the square: bounds a rounded-up
/// square root from a bound on its argument.
pub proof fn lemma_sqrt_up_le(x: int, r: int, m: int)
    requires
        0 <= r,
        r * r >= x,
        r == 0 || (r - 1) * (r - 1) < x,
        x <= m * m,
        m >= 0,
    ensures
        r <= m,
{
    if r > m {
        assert((r - 1) * (r - 1) >= m * m) by (nonlinear_arith)
            requires
                r - 1 >= m,
                m >= 0,
        ;
    }
}

/// Squaring a truncated quotient: `div_tz(a, b)^2 * b^2 <= a^2`.
pub proof fn lemma_div_tz_sq(a: int, b: int)
    requires
        b >= 1,
    ensures
        div_tz(a, b) * div_tz(a, b) * (b * b) <= a * a,
{
    let q = div_tz(a, b);
    lemma_div_tz(a, b);
    lemma_sq_abs(q * b, a);
    assert((q * b) * (q * b) == q * q * (b * b)) by (nonlinear_arith);
}

/// A vector scaled by `m / l` componentwise, with rounding toward zero, has
/// squared length at most `m * m` whenever `l * l` bounds the squared length
/// of the input.
pub proof fn lemma_scaled_sum_sq(rx: int, rz: int, x: int, z: int, l: int, m: int)
    requires
        l >= 1,
        m >= 0,
        rx * rx * (l * l) <= (x * m) * (x * m),
        rz * rz * (l * l) <= (z * m) * (z * m),
        x * x + z * z <= l * l,
    ensures
        rx * rx + rz * rz <= m * m,
{
    assert((x * m) * (x * m) == (x * x) * (m * m)) by (nonlinear_arith);
    assert((z * m) * (z * m) == (z * z) * (m * m)) by (nonlinear_arith);
    assert((x * x) * (m * m) + (z * z) * (m * m) == (x * x + z * z) * (m * m))
        by (nonlinear_arith);
    assert((x * x + z * z) * (m * m) <= (l * l) * (m * m)) by (nonlinear_arith)
        requires
            x * x + z * z <= l * l,
            m >= 0,
    ;
    assert(rx * rx * (l * l) + rz * rz * (l * l) == (rx * rx + rz * rz) * (l * l))
        by (nonlinear_arith);
    assert(rx * rx + rz * rz <= m * m) by (nonlinear_arith)
        requires
            (rx * rx + rz * rz) * (l * l) <= (l * l) * (m * m),
            l >= 1,
    ;
}

/// The rounded-up square root is unique, so any witness pins `sqrt_up`.
pub proof fn lemma_sqrt_up_is(x: int, r: int)
    requires
        x >= 1,
        is_sqrt_up(x, r),
    ensures
        sqrt_up(x) == r,
{
    assert(is_sqrt_up(x, r));
    let s = choose|q: int| is_sqrt_up(x, q);
    assert(is_sqrt_up(x, s));
    if s < r {
        assert(s * s <= (r - 1) * (r - 1)) by (nonlinear_arith)
            requires
                0 <= s,
                s <= r - 1,
        ;
    }
    if r < s {
        assert(r * r <= (s - 1) * (s - 1)) by (nonlinear_arith)
            requires
                0 <= r,
                r <= s - 1,
        ;
    }
}

/// For every positive argument a rounded-up square root exists, so
/// `sqrt_up` denotes it.
pub proof fn lemma_sqrt_up_exists(x: int)
    requires
        x >= 1,
    ensures
        is_sqrt_up(x, sqrt_up(x)),
        1 <= sqrt_up(x) <= x,
    decreases x,
{
    if x == 1 {
        assert(is_sqrt_up(1, 1)) by (nonlinear_arith);
        lemma_sqrt_up_is(1, 1);
    } else {
        lemma_sqrt_up_exists(x - 1);
        let r = sqrt_up(x - 1);
        if r * r >= x {
            assert(is_sqrt_up(x, r)) by (nonlinear_arith)
                requires
                    is_sqrt_up(x - 1, r),
                    r * r >= x,
            ;
            lemma_sqrt_up_is(x, r);
        } else {
            assert(is_sqrt_up(x, r + 1)) by (nonlinear_arith)
                requires
                    is_sqrt_up(x - 1, r),
                    r * r < x,
                    r * r >= x - 1,
            ;
            lemma_sqrt_up_is(x, r + 1);
        }
    }
}

/// Truncating division of an `i128` by a positive divisor.
pub fn div_i128(a: i128, b: i128) -> (r: i128)
    requires
        b >= 1,
        a > i128::MIN,
    ensures
        r as int == div_tz(a as int, b as int),
{
    if a >= 0 {
        let q: u128 = (a as u128) / (b as u128);
        proof {
            lemma_div_tz(a as int, b as int);
        }
        q as i128
    } else {
        let q: u128 = ((-a) as u128) / (b as u128);
        proof {
            lemma_div_tz(a as int, b as int);
            lemma_div_tz(-(a as int), b as int);
        }
        -(q as i128)
    }
}

/// Integer square root rounded down, by bisection.
pub fn isqrt_u128(x: u128) -> (r: u128)
    ensures
        r * r <= x,
        (r + 1) * (r + 1) > x,
        r < 0x1_0000_0000_0000_0000,
{
    let mut lo: u128 = 0;
    let mut hi: u128 = 0xffff_ffff_ffff_ffff;
    proof {
        assert((hi + 1) * (hi + 1) > x) by (nonlinear_arith)
            requires
                hi == 0xffff_ffff_ffff_ffffu128,
                x <= u128::MAX,
        ;
    }
    while lo < hi
        invariant
            lo <= hi,
            hi <= 0xffff_ffff_ffff_ffff,
            lo * lo <= x,
            (hi + 1) * (hi + 1) > x,
        decreases hi - lo,
    {
        let mid: u128 = lo + (hi - lo + 1) / 2;
        assert(lo < mid && mid <= hi);
        assert(mid * mid <= u128::MAX) by (nonlinear_arith)
            requires
                mid <= 0xffff_ffff_ffff_ffffu128,
        ;
        if mid * mid <= x {
            lo = mid;
        } else {
            hi = mid - 1;
        }
    }
    lo
}

/// Integer square root rounded up: the least `r` with `r * r >= x`.
pub fn sqrt_up_u128(x: u128) -> (r: u128)
    ensures
        x >= 1 ==> is_sqrt_up(x as int, r as int),
        x >= 1 ==> r as int == sqrt_up(x as int),
        x >= 1 ==> 1 <= r <= x,
        x == 0 ==> r == 0,
        r * r >= x,
{
    if x == 0 {
        0
    } else {
        let f = isqrt_u128(x - 1);
        proof {
            assert(is_sqrt_up(x as int, f as int + 1)) by (nonlinear_arith)
                requires
                    x >= 1,
                    f * f <= x - 1,
                    (f + 1) * (f + 1) > x - 1,
            ;
            lemma_sqrt_up_is(x as int, f as int + 1);
            assert(f as int <= x - 1) by (nonlinear_arith)
                requires
                    x >= 1,
                    f * f <= x - 1,
            ;
        }
        f + 1
    }
}

} // verus!
