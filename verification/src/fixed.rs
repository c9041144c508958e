//! Fixed-point scalars.
//!
//! A scalar is an `i64` that counts units of `1 / ONE`: the world length `5`
//! is the raw value `5 * ONE`. Products and quotients round toward zero, so
//! every operation commutes with negation.

use vstd::prelude::*;

verus! {

/// Number of fractional bits of a scalar.
pub const FRAC_BITS: u32 = 16;

/// The raw value of the number one.
pub const ONE: i64 = 65536;

/// The tolerance below which a distance counts as zero (about 0.01).
pub const EPSILON: i64 = 655;

/// The largest magnitude of a coordinate or a distance that the queries accept.
pub const LIMIT: i64 = 0x100_0000_0000;

/// The magnitude of an integer.
pub open spec fn magnitude(a: int) -> int {
    if a < 0 {
        -a
    } else {
        a
    }
}

/// The quotient of `a` by `b`, rounded toward zero.
#[verifier::opaque]
pub open spec fn quotient(a: int, b: int) -> int
    recommends
        b != 0,
{
    if (a < 0) != (b < 0) {
        -(magnitude(a) / magnitude(b))
    } else {
        magnitude(a) / magnitude(b)
    }
}

/// The product of two scalars.
pub open spec fn product(a: int, b: int) -> int {
    quotient(a * b, ONE as int)
}

/// The ratio of two scalars.
pub open spec fn ratio(a: int, b: int) -> int
    recommends
        b != 0,
{
    quotient(a * ONE, b)
}

/// Whether an integer can be held in a scalar.
pub open spec fn fits(a: int) -> bool {
    i64::MIN < a <= i64::MAX
}

/// Whether `r` is the integer square root of `n`.
pub open spec fn is_floor_sqrt(n: int, r: int) -> bool {
    0 <= r && r * r <= n < (r + 1) * (r + 1)
}

/// The integer square root of `n`: the largest `r` with `r * r <= n`.
pub open spec fn floor_sqrt(n: int) -> int {
    choose|r: int| is_floor_sqrt(n, r)
}

/// A number has at most one integer square root.
pub proof fn lemma_floor_sqrt_unique(n: int, r1: int, r2: int)
    requires
        is_floor_sqrt(n, r1),
        is_floor_sqrt(n, r2),
    ensures
        r1 == r2,
{
    assert(r1 == r2) by (nonlinear_arith)
        requires
            0 <= r1,
            0 <= r2,
            r1 * r1 <= n < (r1 + 1) * (r1 + 1),
            r2 * r2 <= n < (r2 + 1) * (r2 + 1),
    ;
}

/// The magnitude of a scalar product never exceeds that of a factor whose
/// partner is at most one.
pub proof fn lemma_product_bound(a: int, b: int, bound: int)
    requires
        magnitude(b) <= ONE,
        magnitude(a) <= bound,
    ensures
        magnitude(product(a, b)) <= bound,
        magnitude(product(b, a)) <= bound,
{
    reveal(quotient);
    let p = a * b;
    assert(-(bound * 65536) <= p <= bound * 65536 && b * a == p) by (nonlinear_arith)
        requires
            p == a * b,
            -65536 <= b <= 65536,
            -bound <= a <= bound,
    ;
    assert(magnitude(p) / 65536 <= bound);
}

/// Multiplying by one changes nothing, and multiplying by zero gives zero.
pub proof fn lemma_product_unit(a: int)
    ensures
        product(a, ONE as int) == a,
        product(ONE as int, a) == a,
        product(a, 0) == 0,
        product(0, a) == 0,
{
    reveal(quotient);
    assert(a * 0 == 0 && 0 * a == 0) by (nonlinear_arith);
    assert(ONE == 65536);
    let p = a * (ONE as int);
    assert(p == a * 65536 && (ONE as int) * a == p) by (nonlinear_arith)
        requires
            p == a * (ONE as int),
            ONE == 65536,
    ;
    assert(magnitude(p) == magnitude(a) * 65536);
    assert(magnitude(p) / 65536 == magnitude(a));
}

/// The magnitude of a scalar product where one factor is at most `k`.
pub proof fn lemma_product_scale(a: int, b: int, k: int, bound: int)
    requires
        0 <= k,
        magnitude(b) <= k * ONE,
        magnitude(a) <= bound,
    ensures
        magnitude(product(a, b)) <= k * bound,
        magnitude(product(b, a)) <= k * bound,
{
    reveal(quotient);
    let p = a * b;
    assert(-(k * bound * 65536) <= p <= k * bound * 65536 && b * a == p) by (nonlinear_arith)
        requires
            p == a * b,
            0 <= k,
            -(k * 65536) <= b <= k * 65536,
            -bound <= a <= bound,
    ;
    let kb = k * bound;
    assert(magnitude(p) / 65536 <= kb) by {
        assert(magnitude(p) <= kb * 65536);
    }
}

/// The scalar product of two numbers that are not negative is not negative.
pub proof fn lemma_product_sign(a: int, b: int)
    requires
        0 <= a,
        0 <= b,
    ensures
        0 <= product(a, b),
{
    reveal(quotient);
    let p = a * b;
    assert(0 <= p) by (nonlinear_arith)
        requires
            p == a * b,
            0 <= a,
            0 <= b,
    ;
    assert(0 <= p / 65536);
}

/// A quotient is no larger in magnitude than its dividend.
pub proof fn lemma_quotient_bound(a: int, b: int)
    requires
        b != 0,
    ensures
        magnitude(quotient(a, b)) <= magnitude(a),
{
    reveal(quotient);
    let m = magnitude(a);
    let k = magnitude(b);
    assert(0 <= m / k <= m) by (nonlinear_arith)
        requires
            0 <= m,
            1 <= k,
    ;
}

/// Negating one factor negates a scalar product.
pub proof fn lemma_product_negate(a: int, b: int)
    ensures
        product(-a, b) == -product(a, b),
        product(a, -b) == -product(a, b),
{
    reveal(quotient);
    assert((-a) * b == -(a * b) && a * (-b) == -(a * b)) by (nonlinear_arith);
}

/// The magnitude of an `i64` other than `i64::MIN`.
pub fn abs(a: i64) -> (r: i64)
    requires
        fits(a as int),
    ensures
        r == magnitude(a as int),
{
    if a < 0 {
        -a
    } else {
        a
    }
}

/// Whether the magnitude of `a` is at most `bound`.
pub fn in_range(a: i64, bound: i64) -> (r: bool)
    ensures
        r == (magnitude(a as int) <= bound),
{
    a != i64::MIN && abs(a) <= bound
}

/// Rounds a wide integer quotient toward zero.
pub fn wide_quotient(a: i128, b: i128) -> (r: i128)
    requires
        b != 0,
        i128::MIN < a,
        i128::MIN < b,
    ensures
        r == quotient(a as int, b as int),
{
    proof {
        reveal(quotient);
    }
    let ma: u128 = if a < 0 { (-a) as u128 } else { a as u128 };
    let mb: u128 = if b < 0 { (-b) as u128 } else { b as u128 };
    let q: u128 = ma / mb;
    if (a < 0) != (b < 0) {
        -(q as i128)
    } else {
        q as i128
    }
}

/// Multiplies two scalars.
pub fn fx_mul(a: i64, b: i64) -> (r: i64)
    requires
        fits(product(a as int, b as int)),
    ensures
        r == product(a as int, b as int),
{
    assert(-0x4000_0000_0000_0000_0000_0000_0000_0000 <= a * b
        <= 0x4000_0000_0000_0000_0000_0000_0000_0000) by (nonlinear_arith)
        requires
            -0x8000_0000_0000_0000 <= a <= 0x8000_0000_0000_0000,
            -0x8000_0000_0000_0000 <= b <= 0x8000_0000_0000_0000,
    ;
    let wide: i128 = (a as i128) * (b as i128);
    let q: i128 = wide_quotient(wide, ONE as i128);
    q as i64
}

/// Divides one scalar by another.
pub fn fx_div(a: i64, b: i64) -> (r: i64)
    requires
        b != 0,
        fits(b as int),
        fits(ratio(a as int, b as int)),
    ensures
        r == ratio(a as int, b as int),
{
    let wide: i128 = (a as i128) * (ONE as i128);
    let q: i128 = wide_quotient(wide, b as i128);
    q as i64
}

/// Computes the integer square root by bisection.
pub fn isqrt(n: u128) -> (r: u64)
    requires
        n < 0x4000_0000_0000_0000_0000_0000_0000_0000,
    ensures
        is_floor_sqrt(n as int, r as int),
        r == floor_sqrt(n as int),
{
    let mut lo: u64 = 0;
    let mut hi: u64 = 0x8000_0000_0000_0000;
    assert(0x8000_0000_0000_0000int * 0x8000_0000_0000_0000int
        == 0x4000_0000_0000_0000_0000_0000_0000_0000int) by (nonlinear_arith);
    while hi - lo > 1
        invariant
            lo < hi <= 0x8000_0000_0000_0000,
            lo * lo <= n < hi * hi,
        decreases hi - lo,
    {
        let mid: u64 = lo + (hi - lo) / 2;
        assert(mid * mid < 0x4000_0000_0000_0000_0000_0000_0000_0000) by (nonlinear_arith)
            requires
                0 <= mid < 0x8000_0000_0000_0000,
        ;
        let square: u128 = (mid as u128) * (mid as u128);
        if square <= n {
            lo = mid;
        } else {
            hi = mid;
        }
    }
    proof {
        assert(hi == lo + 1);
        lemma_floor_sqrt_unique(n as int, lo as int, floor_sqrt(n as int));
    }
    lo
}

} // verus!
