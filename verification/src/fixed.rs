//! Fixed-point scalars.
//!
//! Every length, speed, angle, weight and ratio in this crate is an `i64`
//! counted in millionths: `ONE` stands for 1.0, lengths are in millionths of
//! a road unit, angles in microradians. Products of two scalars are rounded
//! toward zero.
use vstd::prelude::*;

verus! {

/// The scalar 1.0.
pub const ONE: i64 = 1_000_000;

/// The scalar 0.5.
pub const HALF: i64 = 500_000;

/// Largest coordinate the geometry accepts (10^9 road units).
pub const WORLD_LIMIT: i64 = 1_000_000_000_000_000;

/// Largest extent of a single object: a vehicle side, a ray, a road width
/// (10^6 road units); also the largest scalar of a signal that a network
/// is fed.
pub const SIZE_LIMIT: i64 = 1_000_000_000_000;

/// Largest coordinate of a vehicle's centre. Whatever is attached to a
/// vehicle (its corners, the ends of its rays) then stays within
/// `WORLD_LIMIT`.
pub const CENTER_LIMIT: i64 = 998_000_000_000_000;

/// A scalar between -1.0 and 1.0.
pub open spec fn is_unit(v: int) -> bool {
    -ONE <= v <= ONE
}

/// A scalar between 0.0 and 1.0.
pub open spec fn is_ratio(v: int) -> bool {
    0 <= v <= ONE
}

/// A coordinate the geometry accepts.
pub open spec fn in_world(v: int) -> bool {
    -WORLD_LIMIT <= v <= WORLD_LIMIT
}

/// |v|.
pub open spec fn magnitude(v: int) -> int {
    if v < 0 {
        -v
    } else {
        v
    }
}

/// `n / d` rounded toward zero, for a positive `d`.
pub open spec fn quotient(n: int, d: int) -> int {
    if n < 0 {
        -((-n) / d)
    } else {
        n / d
    }
}

/// The fixed-point product of two scalars.
pub open spec fn scaled(a: int, b: int) -> int {
    quotient(a * b, ONE as int)
}

/// `v` limited to `[lo, hi]`.
pub open spec fn clamped(v: int, lo: int, hi: int) -> int {
    if v < lo {
        lo
    } else if v > hi {
        hi
    } else {
        v
    }
}

/// Rounding toward zero: the quotient times the divisor lies between zero
/// and the dividend, less than one divisor short of it, and the quotient of
/// the negated dividend is the negated quotient.
pub proof fn lemma_quotient(n: int, d: int)
    requires
        d > 0,
    ensures
        n >= 0 ==> 0 <= quotient(n, d) && quotient(n, d) * d <= n < (quotient(n, d) + 1) * d,
        n <= 0 ==> quotient(n, d) <= 0 && (quotient(n, d) - 1) * d < n <= quotient(n, d) * d,
        quotient(-n, d) == -quotient(n, d),
{
    if n >= 0 {
        assert(0 <= n / d && (n / d) * d <= n < (n / d + 1) * d) by (nonlinear_arith)
            requires
                n >= 0,
                d > 0,
        ;
    }
    if n <= 0 {
        let m = -n;
        assert(0 <= m / d && (m / d) * d <= m < (m / d + 1) * d) by (nonlinear_arith)
            requires
                m >= 0,
                d > 0,
        ;
        assert((-(m / d) - 1) * d == -((m / d + 1) * d)) by (nonlinear_arith);
        assert((-(m / d)) * d == -((m / d) * d)) by (nonlinear_arith);
    }
}

/// What a product with a unit scalar can be: no larger than the other
/// factor, exact for 0, 1 and -1, and odd in both factors.
pub proof fn lemma_scaled(a: int, b: int)
    requires
        is_unit(a),
    ensures
        magnitude(scaled(a, b)) <= magnitude(b),
        scaled(0, b) == 0,
        scaled(a, 0) == 0,
        scaled(ONE as int, b) == b,
        scaled(-ONE as int, b) == -b,
        scaled(-a, b) == -scaled(a, b),
        scaled(a, -b) == -scaled(a, b),
        (a >= 0 && b >= 0) || (a <= 0 && b <= 0) ==> scaled(a, b) >= 0,
        (a >= 0 && b <= 0) || (a <= 0 && b >= 0) ==> scaled(a, b) <= 0,
{
    let one = ONE as int;
    let m = magnitude(b);
    assert(-(m * one) <= a * b <= m * one) by (nonlinear_arith)
        requires
            -one <= a <= one,
            m == magnitude(b),
            one > 0,
    ;
    assert((-a) * b == -(a * b) && a * (-b) == -(a * b)) by (nonlinear_arith);
    assert((a >= 0 && b >= 0) || (a <= 0 && b <= 0) ==> a * b >= 0) by (nonlinear_arith);
}

/// A product with a unit scalar stays within the bound of the other
/// factor.
pub proof fn lemma_scaled_within(a: int, b: int, limit: int)
    requires
        is_unit(a),
        -limit <= b <= limit,
    ensures
        -limit <= scaled(a, b) <= limit,
{
    lemma_scaled(a, b);
}

/// |v| without overflow.
pub fn magnitude_of(v: i64) -> (r: u64)
    ensures
        r == magnitude(v as int),
{
    if v < 0 {
        let wide: i128 = -(v as i128);
        wide as u64
    } else {
        v as u64
    }
}

/// `v` limited to `[lo, hi]`.
pub fn clamp(v: i64, lo: i64, hi: i64) -> (r: i64)
    requires
        lo <= hi,
    ensures
        r == clamped(v as int, lo as int, hi as int),
{
    if v < lo {
        lo
    } else if v > hi {
        hi
    } else {
        v
    }
}

/// `n / d` rounded toward zero.
pub fn quotient_of(n: i128, d: i128) -> (r: i128)
    requires
        d > 0,
        n > i128::MIN,
    ensures
        r == quotient(n as int, d as int),
{
    if n < 0 {
        let m: i128 = -n;
        -(m / d)
    } else {
        n / d
    }
}

/// The fixed-point product of a unit scalar with another scalar.
pub fn scale(unit: i64, value: i64) -> (r: i64)
    requires
        is_unit(unit as int),
        value > i64::MIN,
    ensures
        r == scaled(unit as int, value as int),
{
    proof {
        lemma_scaled(unit as int, value as int);
    }
    let wide: i128 = (unit as i128) * (value as i128);
    let q: i128 = quotient_of(wide, ONE as i128);
    q as i64
}

} // verus!
