//! Three-dimensional vectors of fixed-point scalars.
//!
//! `Vec3` is the executable vector; its view `V3` has unbounded integer
//! components, and every operation is specified over views.

use vstd::prelude::*;
use crate::fixed::{
    fits, floor_sqrt, fx_mul, is_floor_sqrt, isqrt, lemma_product_bound,
    lemma_product_negate, lemma_product_scale, lemma_product_unit, magnitude, product, quotient,
    wide_quotient, ONE,
};

verus! {

/// A vector with unbounded integer components, used in specifications.
pub struct V3 {
    pub x: int,
    pub y: int,
    pub z: int,
}

impl V3 {
    pub open spec fn zero() -> V3 {
        V3 { x: 0, y: 0, z: 0 }
    }

    pub open spec fn unit_x() -> V3 {
        V3 { x: ONE as int, y: 0, z: 0 }
    }

    pub open spec fn unit_y() -> V3 {
        V3 { x: 0, y: ONE as int, z: 0 }
    }

    pub open spec fn unit_z() -> V3 {
        V3 { x: 0, y: 0, z: ONE as int }
    }

    /// Every component has magnitude at most `bound`.
    pub open spec fn bounded(self, bound: int) -> bool {
        magnitude(self.x) <= bound && magnitude(self.y) <= bound && magnitude(self.z) <= bound
    }

    /// Every component can be held in a scalar.
    pub open spec fn fits(self) -> bool {
        fits(self.x) && fits(self.y) && fits(self.z)
    }

    pub open spec fn plus(self, other: V3) -> V3 {
        V3 { x: self.x + other.x, y: self.y + other.y, z: self.z + other.z }
    }

    pub open spec fn minus(self, other: V3) -> V3 {
        V3 { x: self.x - other.x, y: self.y - other.y, z: self.z - other.z }
    }

    pub open spec fn negated(self) -> V3 {
        V3 { x: -self.x, y: -self.y, z: -self.z }
    }

    /// The vector multiplied by the scalar `s`.
    pub open spec fn scaled(self, s: int) -> V3 {
        V3 { x: product(self.x, s), y: product(self.y, s), z: product(self.z, s) }
    }

    pub open spec fn dot(self, other: V3) -> int {
        product(self.x, other.x) + product(self.y, other.y) + product(self.z, other.z)
    }

    pub open spec fn cross(self, other: V3) -> V3 {
        V3 {
            x: product(self.y, other.z) - product(self.z, other.y),
            y: product(self.z, other.x) - product(self.x, other.z),
            z: product(self.x, other.y) - product(self.y, other.x),
        }
    }

    /// The sum of the squared raw components.
    pub open spec fn norm_squared(self) -> int {
        self.x * self.x + self.y * self.y + self.z * self.z
    }

    /// The Euclidean length, rounded down.
    pub open spec fn length(self) -> int {
        floor_sqrt(self.norm_squared())
    }

    /// The vector divided by its length.
    pub open spec fn normalized(self) -> V3
        recommends
            self.length() > 0,
    {
        V3 {
            x: quotient(self.x * ONE, self.length()),
            y: quotient(self.y * ONE, self.length()),
            z: quotient(self.z * ONE, self.length()),
        }
    }

    /// The vector turned about the unit vector `axis` by the angle whose
    /// sine and cosine are given.
    pub open spec fn rotated(self, axis: V3, sin: int, cos: int) -> V3 {
        self.scaled(cos).plus(axis.cross(self).scaled(sin)).plus(
            axis.scaled(product(axis.dot(self), ONE - cos)),
        )
    }

    /// World coordinates to partition coordinates.
    pub open spec fn to_bsp(self) -> V3 {
        V3 { x: self.z, y: self.x, z: self.y }
    }

    /// Partition coordinates to world coordinates.
    pub open spec fn to_wld(self) -> V3 {
        V3 { x: self.y, y: self.z, z: self.x }
    }
}

/// A vector of three fixed-point scalars.
#[derive(Clone, Copy, PartialEq, Eq, Structural, Debug)]
pub struct Vec3 {
    pub x: i64,
    pub y: i64,
    pub z: i64,
}

impl View for Vec3 {
    type V = V3;

    open spec fn view(&self) -> V3 {
        V3 { x: self.x as int, y: self.y as int, z: self.z as int }
    }
}

/// The largest component magnitude that `length` and `normalized` accept.
pub const NORM_LIMIT: i64 = 0x4000_0000_0000;

/// The zero vector.
pub fn zero() -> (r: Vec3)
    ensures
        r@ == V3::zero(),
{
    Vec3 { x: 0, y: 0, z: 0 }
}

pub fn unit_x() -> (r: Vec3)
    ensures
        r@ == V3::unit_x(),
{
    Vec3 { x: ONE, y: 0, z: 0 }
}

/// The unit vector along the world's vertical axis.
pub fn unit_y() -> (r: Vec3)
    ensures
        r@ == V3::unit_y(),
{
    Vec3 { x: 0, y: ONE, z: 0 }
}

pub fn unit_z() -> (r: Vec3)
    ensures
        r@ == V3::unit_z(),
{
    Vec3 { x: 0, y: 0, z: ONE }
}

/// An angle, held as its sine and its cosine.
#[derive(Clone, Copy, PartialEq, Eq, Structural, Debug)]
pub struct Angle {
    pub sin: i64,
    pub cos: i64,
}

impl Angle {
    /// Neither the sine nor the cosine exceeds one.
    pub open spec fn wf(self) -> bool {
        magnitude(self.sin as int) <= ONE && magnitude(self.cos as int) <= ONE
    }

    /// The angle zero.
    pub fn zero() -> (r: Angle)
        ensures
            r == (Angle { sin: 0, cos: ONE }),
            r.wf(),
    {
        Angle { sin: 0, cos: ONE }
    }

    /// A quarter of a turn.
    pub fn quarter_turn() -> (r: Angle)
        ensures
            r == (Angle { sin: ONE, cos: 0 }),
            r.wf(),
    {
        Angle { sin: ONE, cos: 0 }
    }
}

pub fn plus(a: Vec3, b: Vec3) -> (r: Vec3)
    requires
        a@.plus(b@).fits(),
    ensures
        r@ == a@.plus(b@),
{
    Vec3 { x: a.x + b.x, y: a.y + b.y, z: a.z + b.z }
}

pub fn minus(a: Vec3, b: Vec3) -> (r: Vec3)
    requires
        a@.minus(b@).fits(),
    ensures
        r@ == a@.minus(b@),
{
    Vec3 { x: a.x - b.x, y: a.y - b.y, z: a.z - b.z }
}

pub fn negated(a: Vec3) -> (r: Vec3)
    requires
        a@.fits(),
    ensures
        r@ == a@.negated(),
{
    Vec3 { x: -a.x, y: -a.y, z: -a.z }
}

pub fn scaled(a: Vec3, s: i64) -> (r: Vec3)
    requires
        a@.scaled(s as int).fits(),
    ensures
        r@ == a@.scaled(s as int),
{
    Vec3 { x: fx_mul(a.x, s), y: fx_mul(a.y, s), z: fx_mul(a.z, s) }
}

pub fn dot(a: Vec3, b: Vec3) -> (r: i64)
    requires
        fits(product(a.x as int, b.x as int)),
        fits(product(a.y as int, b.y as int)),
        fits(product(a.z as int, b.z as int)),
        fits(product(a.x as int, b.x as int) + product(a.y as int, b.y as int)),
        fits(a@.dot(b@)),
    ensures
        r == a@.dot(b@),
{
    fx_mul(a.x, b.x) + fx_mul(a.y, b.y) + fx_mul(a.z, b.z)
}

pub fn cross(a: Vec3, b: Vec3) -> (r: Vec3)
    requires
        fits(product(a.y as int, b.z as int)),
        fits(product(a.z as int, b.y as int)),
        fits(product(a.z as int, b.x as int)),
        fits(product(a.x as int, b.z as int)),
        fits(product(a.x as int, b.y as int)),
        fits(product(a.y as int, b.x as int)),
        a@.cross(b@).fits(),
    ensures
        r@ == a@.cross(b@),
{
    Vec3 {
        x: fx_mul(a.y, b.z) - fx_mul(a.z, b.y),
        y: fx_mul(a.z, b.x) - fx_mul(a.x, b.z),
        z: fx_mul(a.x, b.y) - fx_mul(a.y, b.x),
    }
}

/// World coordinates to partition coordinates.
pub fn to_bsp(v: Vec3) -> (r: Vec3)
    ensures
        r@ == v@.to_bsp(),
{
    Vec3 { x: v.z, y: v.x, z: v.y }
}

/// Partition coordinates to world coordinates.
pub fn to_wld(v: Vec3) -> (r: Vec3)
    ensures
        r@ == v@.to_wld(),
{
    Vec3 { x: v.y, y: v.z, z: v.x }
}

/// Converting a point to partition coordinates and back, or the other way
/// round, gives the point itself.
pub proof fn lemma_axes_round_trip(v: V3)
    ensures
        v.to_bsp().to_wld() == v,
        v.to_wld().to_bsp() == v,
{
}

/// The change of coordinates keeps sums, scalings, dot products and bounds.
pub proof fn lemma_axes_linear(a: V3, b: V3, s: int, bound: int)
    ensures
        a.plus(b).to_wld() == a.to_wld().plus(b.to_wld()),
        a.plus(b).to_bsp() == a.to_bsp().plus(b.to_bsp()),
        a.scaled(s).to_wld() == a.to_wld().scaled(s),
        a.scaled(s).to_bsp() == a.to_bsp().scaled(s),
        a.negated().to_wld() == a.to_wld().negated(),
        a.to_wld().dot(b.to_wld()) == a.dot(b),
        a.to_bsp().dot(b.to_bsp()) == a.dot(b),
        a.to_wld().bounded(bound) == a.bounded(bound),
        a.to_bsp().bounded(bound) == a.bounded(bound),
        a.to_bsp().norm_squared() == a.norm_squared(),
{
}

/// The squared norm of a bounded vector.
proof fn lemma_norm_squared_bound(v: V3, bound: int)
    requires
        v.bounded(bound),
    ensures
        0 <= v.norm_squared() <= 3 * (bound * bound),
        v.x * v.x <= v.norm_squared(),
        v.y * v.y <= v.norm_squared(),
        v.z * v.z <= v.norm_squared(),
{
    lemma_square_bound(v.x, bound);
    lemma_square_bound(v.y, bound);
    lemma_square_bound(v.z, bound);
}

proof fn lemma_square_bound(a: int, bound: int)
    requires
        magnitude(a) <= bound,
    ensures
        0 <= a * a <= bound * bound,
{
    assert(0 <= a * a <= bound * bound) by (nonlinear_arith)
        requires
            -bound <= a <= bound,
    ;
}

/// No component of a vector is longer than the vector.
pub proof fn lemma_component_below_length(v: V3, len: int)
    requires
        is_floor_sqrt(v.norm_squared(), len),
    ensures
        v.bounded(len),
{
    let n = v.norm_squared();
    assert(v.x * v.x >= 0 && v.y * v.y >= 0 && v.z * v.z >= 0) by (nonlinear_arith);
    lemma_root_bound(v.x, n, len);
    lemma_root_bound(v.y, n, len);
    lemma_root_bound(v.z, n, len);
}

proof fn lemma_root_bound(a: int, n: int, len: int)
    requires
        a * a <= n,
        is_floor_sqrt(n, len),
    ensures
        magnitude(a) <= len,
{
    assert(-len <= a <= len) by (nonlinear_arith)
        requires
            a * a <= n,
            0 <= len,
            n < (len + 1) * (len + 1),
    ;
}

/// Each component of a normalized vector has magnitude at most one.
pub proof fn lemma_normalized_bound(v: V3)
    requires
        is_floor_sqrt(v.norm_squared(), v.length()),
        v.length() > 0,
    ensures
        v.normalized().bounded(ONE as int),
{
    let len = v.length();
    lemma_component_below_length(v, len);
    lemma_unit_quotient(v.x, len);
    lemma_unit_quotient(v.y, len);
    lemma_unit_quotient(v.z, len);
}

proof fn lemma_unit_quotient(a: int, len: int)
    requires
        magnitude(a) <= len,
        len > 0,
    ensures
        magnitude(quotient(a * ONE, len)) <= ONE,
{
    reveal(quotient);
    let m = magnitude(a * ONE);
    assert(m == magnitude(a) * 65536);
    assert(m / len <= 65536) by (nonlinear_arith)
        requires
            0 <= m <= len * 65536,
            len > 0,
    ;
    assert(m / len >= 0) by (nonlinear_arith)
        requires
            0 <= m,
            len > 0,
    ;
}

/// The Euclidean length of a vector, rounded down.
pub fn length(v: Vec3) -> (r: i64)
    requires
        v@.bounded(NORM_LIMIT as int),
    ensures
        r == v@.length(),
        is_floor_sqrt(v@.norm_squared(), r as int),
        v@.bounded(r as int),
        r <= 2 * NORM_LIMIT,
{
    proof {
        lemma_norm_squared_bound(v@, NORM_LIMIT as int);
        lemma_square_bound(v.x as int, NORM_LIMIT as int);
        lemma_square_bound(v.y as int, NORM_LIMIT as int);
        lemma_square_bound(v.z as int, NORM_LIMIT as int);
        assert(NORM_LIMIT * NORM_LIMIT == 0x1000_0000_0000_0000_0000_0000) by (nonlinear_arith)
            requires
                NORM_LIMIT == 0x4000_0000_0000,
        ;
    }
    let xx: i128 = (v.x as i128) * (v.x as i128);
    let yy: i128 = (v.y as i128) * (v.y as i128);
    let zz: i128 = (v.z as i128) * (v.z as i128);
    let sum: u128 = (xx + yy + zz) as u128;
    let root: u64 = isqrt(sum);
    proof {
        lemma_component_below_length(v@, root as int);
        assert(root <= 2 * NORM_LIMIT) by (nonlinear_arith)
            requires
                root * root <= sum,
                sum <= 3 * 0x1000_0000_0000_0000_0000_0000,
                NORM_LIMIT == 0x4000_0000_0000,
        ;
    }
    root as i64
}

/// The vector divided by its length, or nothing where the length is zero.
pub fn try_normalize(v: Vec3) -> (r: Option<Vec3>)
    requires
        v@.bounded(NORM_LIMIT as int),
    ensures
        v@.length() == 0 ==> r.is_none(),
        v@.length() != 0 ==> r.is_some() && r.unwrap()@ == v@.normalized(),
        r.is_some() ==> r.unwrap()@.bounded(ONE as int),
{
    let len: i64 = length(v);
    if len == 0 {
        return None;
    }
    proof {
        lemma_normalized_bound(v@);
    }
    let x: i128 = wide_quotient((v.x as i128) * (ONE as i128), len as i128);
    let y: i128 = wide_quotient((v.y as i128) * (ONE as i128), len as i128);
    let z: i128 = wide_quotient((v.z as i128) * (ONE as i128), len as i128);
    Some(Vec3 { x: x as i64, y: y as i64, z: z as i64 })
}

/// The dot product with a vector whose components are at most one is at most
/// three times the bound of the other vector, and so is each partial sum.
pub proof fn lemma_dot_bound(a: V3, b: V3, bound: int)
    requires
        a.bounded(bound),
        b.bounded(ONE as int),
    ensures
        magnitude(product(a.x, b.x)) <= bound,
        magnitude(product(a.y, b.y)) <= bound,
        magnitude(product(a.z, b.z)) <= bound,
        magnitude(product(b.x, a.x)) <= bound,
        magnitude(product(b.y, a.y)) <= bound,
        magnitude(product(b.z, a.z)) <= bound,
        magnitude(a.dot(b)) <= 3 * bound,
        magnitude(b.dot(a)) <= 3 * bound,
{
    lemma_product_bound(a.x, b.x, bound);
    lemma_product_bound(a.y, b.y, bound);
    lemma_product_bound(a.z, b.z, bound);
}

/// Scaling a vector whose components are at most one by `s` gives a vector
/// bounded by the magnitude of `s`.
pub proof fn lemma_scaled_bound(a: V3, s: int)
    requires
        a.bounded(ONE as int),
    ensures
        a.scaled(s).bounded(magnitude(s)),
{
    lemma_product_bound(s, a.x, magnitude(s));
    lemma_product_bound(s, a.y, magnitude(s));
    lemma_product_bound(s, a.z, magnitude(s));
}

/// The dot product does not depend on the order of its arguments.
pub proof fn lemma_dot_commutes(a: V3, b: V3)
    ensures
        a.dot(b) == b.dot(a),
{
    assert(a.x * b.x == b.x * a.x && a.y * b.y == b.y * a.y && a.z * b.z == b.z * a.z)
        by (nonlinear_arith);
}

/// Negating a vector negates its dot product with any other.
pub proof fn lemma_dot_negate(a: V3, b: V3)
    ensures
        a.negated().dot(b) == -a.dot(b),
        a.dot(b.negated()) == -a.dot(b),
{
    lemma_product_negate(a.x, b.x);
    lemma_product_negate(a.y, b.y);
    lemma_product_negate(a.z, b.z);
}

/// The dot product and the cross product with a vector whose components
/// are at most `k`.
pub proof fn lemma_wide_bound(a: V3, b: V3, k: int, bound: int)
    requires
        0 <= k,
        a.bounded(bound),
        b.bounded(k * ONE),
    ensures
        magnitude(product(a.x, b.x)) <= k * bound,
        magnitude(product(a.y, b.y)) <= k * bound,
        magnitude(product(a.z, b.z)) <= k * bound,
        magnitude(product(b.x, a.x)) <= k * bound,
        magnitude(product(b.y, a.y)) <= k * bound,
        magnitude(product(b.z, a.z)) <= k * bound,
        magnitude(product(a.y, b.z)) <= k * bound,
        magnitude(product(a.z, b.y)) <= k * bound,
        magnitude(product(a.z, b.x)) <= k * bound,
        magnitude(product(a.x, b.z)) <= k * bound,
        magnitude(product(a.x, b.y)) <= k * bound,
        magnitude(product(a.y, b.x)) <= k * bound,
        magnitude(product(b.y, a.z)) <= k * bound,
        magnitude(product(b.z, a.y)) <= k * bound,
        magnitude(product(b.z, a.x)) <= k * bound,
        magnitude(product(b.x, a.z)) <= k * bound,
        magnitude(product(b.x, a.y)) <= k * bound,
        magnitude(product(b.y, a.x)) <= k * bound,
        magnitude(a.dot(b)) <= 3 * (k * bound),
        magnitude(b.dot(a)) <= 3 * (k * bound),
        a.cross(b).bounded(2 * (k * bound)),
        b.cross(a).bounded(2 * (k * bound)),
        forall|s: int| magnitude(s) <= bound ==> #[trigger] b.scaled(s).bounded(k * bound),
{
    lemma_product_scale(a.x, b.x, k, bound);
    lemma_product_scale(a.y, b.y, k, bound);
    lemma_product_scale(a.z, b.z, k, bound);
    lemma_product_scale(a.x, b.y, k, bound);
    lemma_product_scale(a.x, b.z, k, bound);
    lemma_product_scale(a.y, b.x, k, bound);
    lemma_product_scale(a.y, b.z, k, bound);
    lemma_product_scale(a.z, b.x, k, bound);
    lemma_product_scale(a.z, b.y, k, bound);
    assert forall|s: int| magnitude(s) <= bound implies #[trigger] b.scaled(s).bounded(
        k * bound,
    ) by {
        lemma_product_scale(s, b.x, k, bound);
        lemma_product_scale(s, b.y, k, bound);
        lemma_product_scale(s, b.z, k, bound);
    }
}

/// A turn of a vector about an axis, both with components of at most one,
/// gives components of at most nine.
pub proof fn lemma_rotated_bound(v: V3, axis: V3, sin: int, cos: int)
    requires
        v.bounded(ONE as int),
        axis.bounded(ONE as int),
        magnitude(sin) <= ONE,
        magnitude(cos) <= ONE,
    ensures
        v.scaled(cos).bounded(ONE as int),
        axis.cross(v).bounded(2 * ONE),
        axis.cross(v).scaled(sin).bounded(2 * ONE),
        magnitude(axis.dot(v)) <= 3 * ONE,
        magnitude(product(axis.dot(v), ONE - cos)) <= 6 * ONE,
        axis.scaled(product(axis.dot(v), ONE - cos)).bounded(6 * ONE),
        v.rotated(axis, sin, cos).bounded(9 * ONE),
{
    lemma_scaled_bound(v, cos);
    lemma_wide_bound(axis, v, 1, ONE as int);
    let c = axis.cross(v);
    lemma_product_bound(c.x, sin, 2 * ONE);
    lemma_product_bound(c.y, sin, 2 * ONE);
    lemma_product_bound(c.z, sin, 2 * ONE);
    let s = product(axis.dot(v), ONE - cos);
    lemma_product_scale(axis.dot(v), ONE - cos, 2, 3 * ONE);
    lemma_scaled_bound(axis, s);
}

/// Turns a vector about an axis by an angle.
pub fn rotate_axis(v: Vec3, axis: Vec3, angle: Angle) -> (r: Vec3)
    requires
        v@.bounded(ONE as int),
        axis@.bounded(ONE as int),
        angle.wf(),
    ensures
        r@ == v@.rotated(axis@, angle.sin as int, angle.cos as int),
        r@.bounded(9 * ONE),
{
    proof {
        lemma_rotated_bound(v@, axis@, angle.sin as int, angle.cos as int);
        lemma_wide_bound(axis@, v@, 1, ONE as int);
    }
    let kept = scaled(v, angle.cos);
    let turned = scaled(cross(axis, v), angle.sin);
    let along = scaled(axis, fx_mul(dot(axis, v), ONE - angle.cos));
    plus(plus(kept, turned), along)
}

/// A turn about the vertical axis takes the depth axis to the vector of
/// sine and cosine, and the side axis to the vector of cosine and negated
/// sine.
pub proof fn lemma_turn_about_vertical(sin: int, cos: int)
    ensures
        V3::unit_z().rotated(V3::unit_y(), sin, cos) == (V3 { x: sin, y: 0, z: cos }),
        V3::unit_x().rotated(V3::unit_y(), sin, cos) == (V3 { x: cos, y: 0, z: -sin }),
{
    lemma_product_unit(sin);
    lemma_product_unit(cos);
    lemma_product_unit(ONE as int);
    lemma_product_unit(0);
    lemma_product_unit(ONE - cos);
    lemma_product_negate(ONE as int, sin);
    lemma_product_unit(-(ONE as int));
    lemma_product_negate(ONE as int, ONE as int);
}

} // verus!
