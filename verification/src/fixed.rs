//! Fixed-point numbers: a real quantity `x` is held as the integer `x * ONE`.

use vstd::prelude::*;

verus! {

/// The fixed-point representation of the real number one.
pub const ONE: i64 = 1_000_000_000;

/// The product of two fixed-point numbers, rounded to the nearest
/// representable value; a product halfway between two of them goes to the
/// larger.
pub open spec fn scaled(a: int, b: int) -> int {
    (a * b + ONE / 2) / (ONE as int)
}

/// The integer nearest to the fixed-point number `x`; a value halfway between
/// two integers goes to the one farther from zero.
pub open spec fn nearest(x: int) -> int {
    if x >= 0 {
        (x + ONE / 2) / (ONE as int)
    } else {
        -((-x + ONE / 2) / (ONE as int))
    }
}

/// The distance between two numbers.
pub open spec fn distance(a: int, b: int) -> int {
    if a >= b {
        a - b
    } else {
        b - a
    }
}

/// `lo` where `x` lies below it, `hi` where `x` lies above it, else `x`.
pub open spec fn clamped(x: int, lo: int, hi: int) -> int {
    if x < lo {
        lo
    } else if x > hi {
        hi
    } else {
        x
    }
}

/// A product of two bounded factors is bounded by the product of the bounds.
pub proof fn lemma_product_bound(a: int, b: int, ma: int, mb: int)
    by (nonlinear_arith)
    requires
        -ma <= a <= ma,
        -mb <= b <= mb,
    ensures
        -(ma * mb) <= a * b <= ma * mb,
{
}

/// Rounding keeps a product within integer bounds that hold of the exact
/// product.
pub proof fn lemma_scaled_bound(a: int, b: int, m: int)
    requires
        -(m * ONE) <= a * b <= m * ONE,
    ensures
        -m <= scaled(a, b) <= m,
{
    let p = a * b + ONE / 2;
    assert(ONE == 1_000_000_000);
    assert(-(m * 1_000_000_000) <= p < (m + 1) * 1_000_000_000);
    assert(-m <= p / 1_000_000_000 <= m);
}

/// A rounded product is off the exact product by at most half a unit.
pub proof fn lemma_scaled_close(a: int, b: int)
    ensures
        2 * distance(scaled(a, b) * ONE, a * b) <= ONE,
{
    let p = a * b + ONE / 2;
    assert(ONE == 1_000_000_000);
    assert(p == 1_000_000_000 * (p / 1_000_000_000) + p % 1_000_000_000);
    assert(scaled(a, b) == p / 1_000_000_000);
}

/// Scaling by one changes nothing.
pub proof fn lemma_scaled_one(x: int)
    ensures
        scaled(ONE as int, x) == x,
        scaled(x, ONE as int) == x,
{
    assert(ONE == 1_000_000_000);
    assert(ONE * x == 1_000_000_000 * x && x * ONE == 1_000_000_000 * x) by (nonlinear_arith)
        requires
            ONE == 1_000_000_000,
    ;
}

/// The product of the factor `f` and the distance `d`, rounded up to the next
/// representable value.
pub open spec fn shrunk(f: int, d: int) -> int {
    (f * d + ONE - 1) / (ONE as int)
}

/// Scaling by a factor below one does not widen a distance, and a smaller
/// distance is not scaled to a larger one.
pub proof fn lemma_shrunk_bounds(f: int, d: int, e: int)
    requires
        0 <= f < ONE,
        0 <= d <= e,
    ensures
        0 <= shrunk(f, d) <= shrunk(f, e),
        shrunk(f, e) <= e,
{
    assert(0 <= f * d <= f * e && f * e <= 999_999_999 * e) by (nonlinear_arith)
        requires
            0 <= f <= 999_999_999,
            0 <= d <= e,
    ;
    let top = f * e + ONE - 1;
    assert(ONE == 1_000_000_000);
    assert(top < 1_000_000_000 * (e + 1));
    assert(top / 1_000_000_000 <= e);
    assert(shrunk(f, e) == top / 1_000_000_000);
}

/// Where the distance times the factor's distance from one is at least one,
/// scaling makes the distance strictly smaller.
pub proof fn lemma_shrunk_strict(f: int, d: int)
    requires
        0 <= f < ONE,
        d * (ONE - f) >= ONE,
    ensures
        shrunk(f, d) < d,
{
    assert(f * d + ONE <= ONE * d) by (nonlinear_arith)
        requires
            d * (ONE - f) >= ONE,
    ;
}

/// Two scaled numbers are no farther apart than the scaled distance of the
/// numbers, rounded up.
pub proof fn lemma_scaled_contracts(f: int, x: int, y: int)
    requires
        0 <= f,
    ensures
        distance(scaled(f, x), scaled(f, y)) <= shrunk(f, distance(x, y)),
{
    let e = distance(x, y);
    if x >= y {
        assert(f * x == f * y + f * e && 0 <= f * e) by (nonlinear_arith)
            requires
                x == y + e,
                0 <= f,
                0 <= e,
        ;
    } else {
        assert(f * y == f * x + f * e && 0 <= f * e) by (nonlinear_arith)
            requires
                y == x + e,
                0 <= f,
                0 <= e,
        ;
    }
}

/// The quotient of `x` by `ONE`, rounded down.
pub fn floor_units(x: i128) -> (r: i128)
    requires
        i128::MIN + ONE <= x,
    ensures
        r == x as int / (ONE as int),
{
    let one: i128 = 1_000_000_000;
    if x >= 0 {
        x / one
    } else {
        let y: i128 = -x + (one - 1);
        let q: i128 = y / one;
        proof {
            let qx = x as int / 1_000_000_000;
            assert(q + qx == 0);
        }
        -q
    }
}

/// The product of two fixed-point numbers, rounded to the nearest
/// representable value, a half going up.
pub fn scale(a: i64, b: i128) -> (r: i128)
    requires
        i128::MIN + ONE <= a * b <= i128::MAX - ONE,
    ensures
        r == scaled(a as int, b as int),
{
    let half: i128 = 500_000_000;
    let p: i128 = (a as i128) * b;
    floor_units(p + half)
}

/// The integer nearest to a fixed-point number, halves going away from zero.
pub fn round(x: i128) -> (r: i128)
    requires
        i128::MIN + ONE <= x <= i128::MAX - ONE,
    ensures
        r == nearest(x as int),
{
    let half: i128 = 500_000_000;
    let one: i128 = 1_000_000_000;
    if x >= 0 {
        (x + half) / one
    } else {
        -((-x + half) / one)
    }
}

/// The distance between two numbers that are far from the type's limits.
pub fn abs_diff(a: i128, b: i128) -> (r: i128)
    requires
        i128::MIN < a - b <= i128::MAX,
        i128::MIN < b - a <= i128::MAX,
    ensures
        r == distance(a as int, b as int),
{
    if a >= b {
        a - b
    } else {
        b - a
    }
}

} // verus!
