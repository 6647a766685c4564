//! Tri-dimensional vectors over the fixed-point scalar `Real`.

use vstd::prelude::*;
use core::ops::Range;
use crate::precision::{
    Real, SCALE, in_real_range, mul_r, div_r, sqrt_floor, is_sqrt_floor, isqrt_u128,
};
use crate::error::PhysError;

verus! {

/// Largest raw component magnitude for which the square-magnitude sum and
/// its square root stay representable.
pub const MAG_LIMIT: i64 = 5_000_000_000_000_000_000;

/// The mathematical model of a vector: one unbounded integer for the raw
/// value of each axis.
pub ghost struct Vec3V {
    pub x: int,
    pub y: int,
    pub z: int,
}

/// Tri-dimensional vector composed of three elements for the x, y and z axes.
#[derive(Clone, Copy, Debug, PartialEq, Eq, Structural)]
pub struct Vec3 {
    pub x: Real,
    pub y: Real,
    pub z: Real,
}

impl View for Vec3 {
    type V = Vec3V;

    open spec fn view(&self) -> Vec3V {
        Vec3V { x: self.x@, y: self.y@, z: self.z@ }
    }
}

/// The zero vector.
pub open spec fn vzero() -> Vec3V {
    Vec3V { x: 0, y: 0, z: 0 }
}

/// Componentwise sum.
pub open spec fn vadd(a: Vec3V, b: Vec3V) -> Vec3V {
    Vec3V { x: a.x + b.x, y: a.y + b.y, z: a.z + b.z }
}

/// Componentwise difference.
pub open spec fn vsub(a: Vec3V, b: Vec3V) -> Vec3V {
    Vec3V { x: a.x - b.x, y: a.y - b.y, z: a.z - b.z }
}

/// Componentwise negation.
pub open spec fn vneg(a: Vec3V) -> Vec3V {
    Vec3V { x: -a.x, y: -a.y, z: -a.z }
}

/// Every component scaled by the real `k`, each product rounded down.
pub open spec fn vscale(a: Vec3V, k: int) -> Vec3V {
    Vec3V { x: mul_r(a.x, k), y: mul_r(a.y, k), z: mul_r(a.z, k) }
}

/// Every component divided by the real `k`, each quotient rounded down.
pub open spec fn vdiv(a: Vec3V, k: int) -> Vec3V {
    Vec3V { x: div_r(a.x, k), y: div_r(a.y, k), z: div_r(a.z, k) }
}

/// Componentwise (Hadamard) product, each product rounded down.
pub open spec fn vhadamard(a: Vec3V, b: Vec3V) -> Vec3V {
    Vec3V { x: mul_r(a.x, b.x), y: mul_r(a.y, b.y), z: mul_r(a.z, b.z) }
}

/// Scalar product: the sum of the componentwise rounded products.
pub open spec fn vdot(a: Vec3V, b: Vec3V) -> int {
    mul_r(a.x, b.x) + mul_r(a.y, b.y) + mul_r(a.z, b.z)
}

/// Right-handed vector product, each product rounded down.
pub open spec fn vcross(a: Vec3V, b: Vec3V) -> Vec3V {
    Vec3V {
        x: mul_r(a.y, b.z) - mul_r(a.z, b.y),
        y: mul_r(a.z, b.x) - mul_r(a.x, b.z),
        z: mul_r(a.x, b.y) - mul_r(a.y, b.x),
    }
}

/// The exact (unrounded) sum of the squared raw components.
pub open spec fn vsq_sum(a: Vec3V) -> int {
    a.x * a.x + a.y * a.y + a.z * a.z
}

/// The magnitude: the square root of the exact sum of squared raw
/// components, rounded down. The squares carry scale `SCALE^2`, so the root
/// is again a raw value.
pub open spec fn vmag(a: Vec3V) -> int {
    sqrt_floor(vsq_sum(a))
}

/// The square of the magnitude, as the arithmetic computes it: the sum of
/// the rounded squares of the components.
pub open spec fn vsqmag(a: Vec3V) -> int {
    mul_r(a.x, a.x) + mul_r(a.y, a.y) + mul_r(a.z, a.z)
}

/// Largest raw component magnitude for which normalization can carry the
/// root at the fine scale `SCALE^2`: up to here the rescaled sum of squares
/// fits 128 bits.
pub const FINE_LIMIT: i64 = 10_000_000_000_000;

/// Whether every component is small enough for the fine normalization path.
pub open spec fn vnorm_fine_domain(a: Vec3V) -> bool {
    &&& -FINE_LIMIT <= a.x <= FINE_LIMIT
    &&& -FINE_LIMIT <= a.y <= FINE_LIMIT
    &&& -FINE_LIMIT <= a.z <= FINE_LIMIT
}

/// The magnitude carried at the fine scale `SCALE^2`: the rounded-down
/// square root of the sum of squares rescaled by `SCALE^2`. It keeps
/// `SCALE` digits that `vmag` rounds away, which matters for vectors near
/// the representation's quantum.
pub open spec fn vmag_fine(a: Vec3V) -> int {
    sqrt_floor(vsq_sum(a) * SCALE * SCALE)
}

/// The fine normalization: each component rescaled by `SCALE^2` and divided
/// by the fine-scale magnitude, rounded down.
pub open spec fn vnormalize_fine(a: Vec3V) -> Vec3V
    recommends
        vmag_fine(a) > 0,
{
    Vec3V {
        x: (a.x * SCALE * SCALE) / vmag_fine(a),
        y: (a.y * SCALE * SCALE) / vmag_fine(a),
        z: (a.z * SCALE * SCALE) / vmag_fine(a),
    }
}

/// The vector scaled to magnitude one; the zero vector is left unchanged.
/// Within `vnorm_fine_domain` the root is carried at the fine scale; above
/// it the magnitude exceeds `FINE_LIMIT` raw units, so dividing by the
/// coarse root already loses less than one part in 10^13.
pub open spec fn vnormalize(a: Vec3V) -> Vec3V {
    if vmag(a) == 0 {
        a
    } else if vnorm_fine_domain(a) {
        vnormalize_fine(a)
    } else {
        vdiv(a, vmag(a))
    }
}

/// All components fit the raw representation.
pub open spec fn vin_range(a: Vec3V) -> bool {
    &&& in_real_range(a.x)
    &&& in_real_range(a.y)
    &&& in_real_range(a.z)
}

/// The componentwise sum fits the raw representation.
pub open spec fn vadd_fits(a: Vec3V, b: Vec3V) -> bool {
    vin_range(vadd(a, b))
}

/// The componentwise difference fits the raw representation.
pub open spec fn vsub_fits(a: Vec3V, b: Vec3V) -> bool {
    vin_range(vsub(a, b))
}

/// The componentwise negation fits the raw representation.
pub open spec fn vneg_fits(a: Vec3V) -> bool {
    vin_range(vneg(a))
}

/// The scaled vector fits the raw representation.
pub open spec fn vscale_fits(a: Vec3V, k: int) -> bool {
    vin_range(vscale(a, k))
}

/// The divided vector fits the raw representation.
pub open spec fn vdiv_fits(a: Vec3V, k: int) -> bool {
    vin_range(vdiv(a, k))
}

/// The componentwise product fits the raw representation.
pub open spec fn vhadamard_fits(a: Vec3V, b: Vec3V) -> bool {
    vin_range(vhadamard(a, b))
}

/// Every product and partial sum of the scalar product fits the raw
/// representation.
pub open spec fn vdot_fits(a: Vec3V, b: Vec3V) -> bool {
    &&& in_real_range(mul_r(a.x, b.x))
    &&& in_real_range(mul_r(a.y, b.y))
    &&& in_real_range(mul_r(a.z, b.z))
    &&& in_real_range(mul_r(a.x, b.x) + mul_r(a.y, b.y))
    &&& in_real_range(vdot(a, b))
}

/// Every product and difference of the vector product fits the raw
/// representation.
pub open spec fn vcross_fits(a: Vec3V, b: Vec3V) -> bool {
    &&& in_real_range(mul_r(a.y, b.z))
    &&& in_real_range(mul_r(a.z, b.y))
    &&& in_real_range(mul_r(a.z, b.x))
    &&& in_real_range(mul_r(a.x, b.z))
    &&& in_real_range(mul_r(a.x, b.y))
    &&& in_real_range(mul_r(a.y, b.x))
    &&& vin_range(vcross(a, b))
}

/// Components small enough for the magnitude computation: the sum of squares
/// then fits 128 bits and its root fits the raw representation.
pub open spec fn vmag_fits(a: Vec3V) -> bool {
    &&& -MAG_LIMIT <= a.x <= MAG_LIMIT
    &&& -MAG_LIMIT <= a.y <= MAG_LIMIT
    &&& -MAG_LIMIT <= a.z <= MAG_LIMIT
}

impl Default for Vec3 {
    /// Returns a new vector with all elements set to zero.
    fn default() -> (r: Vec3)
        ensures
            r@ == vzero(),
    {
        Vec3::zeros()
    }
}

impl Vec3 {
    /// Creates a new vector, defining the values for all axes.
    pub fn new(x: Real, y: Real, z: Real) -> (r: Vec3)
        ensures
            r@ == (Vec3V { x: x@, y: y@, z: z@ }),
    {
        Vec3 { x, y, z }
    }

    /// Returns a vector filled with zeros in all positions.
    pub fn zeros() -> (r: Vec3)
        ensures
            r@ == vzero(),
    {
        Vec3 { x: Real::zero(), y: Real::zero(), z: Real::zero() }
    }

    /// Returns a vector filled with ones in all positions.
    pub fn ones() -> (r: Vec3)
        ensures
            r@ == (Vec3V { x: SCALE as int, y: SCALE as int, z: SCALE as int }),
    {
        Vec3 { x: Real::one(), y: Real::one(), z: Real::one() }
    }

    /// Generates a vector whose components are whole numbers drawn uniformly
    /// from the given non-empty range.
    pub fn from_range(range: Range<i32>) -> (r: Vec3)
        requires
            range.start < range.end,
        ensures
            (range.start as int) * SCALE <= r@.x <= (range.end - 1) * SCALE,
            (range.start as int) * SCALE <= r@.y <= (range.end - 1) * SCALE,
            (range.start as int) * SCALE <= r@.z <= (range.end - 1) * SCALE,
            r@.x % (SCALE as int) == 0,
            r@.y % (SCALE as int) == 0,
            r@.z % (SCALE as int) == 0,
    {
        let a: i32 = random_in_range(range.start, range.end);
        let b: i32 = random_in_range(range.start, range.end);
        let c: i32 = random_in_range(range.start, range.end);
        proof {
            lemma_whole_real_bounds(a as int, range.start as int, range.end as int);
            lemma_whole_real_bounds(b as int, range.start as int, range.end as int);
            lemma_whole_real_bounds(c as int, range.start as int, range.end as int);
        }
        Vec3 {
            x: Real::from_int(a as i64),
            y: Real::from_int(b as i64),
            z: Real::from_int(c as i64),
        }
    }

    /// Componentwise sum.
    pub fn add(self, other: Vec3) -> (r: Vec3)
        requires
            vadd_fits(self@, other@),
        ensures
            r@ == vadd(self@, other@),
    {
        Vec3 { x: self.x.add(other.x), y: self.y.add(other.y), z: self.z.add(other.z) }
    }

    /// Componentwise difference.
    pub fn sub(self, other: Vec3) -> (r: Vec3)
        requires
            vsub_fits(self@, other@),
        ensures
            r@ == vsub(self@, other@),
    {
        Vec3 { x: self.x.sub(other.x), y: self.y.sub(other.y), z: self.z.sub(other.z) }
    }

    /// The same scalar added to every component.
    pub fn add_scalar(self, s: Real) -> (r: Vec3)
        requires
            in_real_range(self@.x + s@),
            in_real_range(self@.y + s@),
            in_real_range(self@.z + s@),
        ensures
            r@ == (Vec3V { x: self@.x + s@, y: self@.y + s@, z: self@.z + s@ }),
    {
        Vec3 { x: self.x.add(s), y: self.y.add(s), z: self.z.add(s) }
    }

    /// The same scalar subtracted from every component.
    pub fn sub_scalar(self, s: Real) -> (r: Vec3)
        requires
            in_real_range(self@.x - s@),
            in_real_range(self@.y - s@),
            in_real_range(self@.z - s@),
        ensures
            r@ == (Vec3V { x: self@.x - s@, y: self@.y - s@, z: self@.z - s@ }),
    {
        Vec3 { x: self.x.sub(s), y: self.y.sub(s), z: self.z.sub(s) }
    }

    /// Every component scaled by the real `k`.
    pub fn mul(self, k: Real) -> (r: Vec3)
        requires
            vscale_fits(self@, k@),
        ensures
            r@ == vscale(self@, k@),
    {
        Vec3 { x: self.x.mul(k), y: self.y.mul(k), z: self.z.mul(k) }
    }

    /// Every component divided by the real `k`; dividing by zero is refused
    /// with `InvalidOperation`.
    pub fn div(self, k: Real) -> (r: Result<Vec3, PhysError>)
        requires
            k@ != 0 ==> vdiv_fits(self@, k@),
        ensures
            k@ == 0 ==> r == Result::<Vec3, PhysError>::Err(PhysError::InvalidOperation),
            k@ != 0 ==> (r matches Ok(v) && v@ == vdiv(self@, k@)),
    {
        if k.raw == 0 {
            Err(PhysError::InvalidOperation)
        } else {
            Ok(Vec3 { x: self.x.div(k), y: self.y.div(k), z: self.z.div(k) })
        }
    }

    /// Negation of every component.
    pub fn neg(self) -> (r: Vec3)
        requires
            vneg_fits(self@),
        ensures
            r@ == vneg(self@),
    {
        Vec3 { x: self.x.neg(), y: self.y.neg(), z: self.z.neg() }
    }

    /// Inverts (negates) all the elements of the vector in place.
    pub fn invert(&mut self)
        requires
            vneg_fits(old(self)@),
        ensures
            final(self)@ == vneg(old(self)@),
    {
        *self = self.neg();
    }

    /// Adds to this vector another vector scaled by the given factor.
    pub fn add_scaled_vector(&mut self, other: Vec3, scale: Real)
        requires
            vscale_fits(other@, scale@),
            vadd_fits(old(self)@, vscale(other@, scale@)),
        ensures
            final(self)@ == vadd(old(self)@, vscale(other@, scale@)),
    {
        let scaled = other.mul(scale);
        *self = self.add(scaled);
    }

    /// Returns the element-wise multiplication of this vector and the
    /// argument vector.
    pub fn elementwise_prod(&self, other: Vec3) -> (r: Vec3)
        requires
            vhadamard_fits(self@, other@),
        ensures
            r@ == vhadamard(self@, other@),
    {
        Vec3 { x: self.x.mul(other.x), y: self.y.mul(other.y), z: self.z.mul(other.z) }
    }

    /// Replaces this vector by its element-wise product with the argument.
    pub fn elementwise_prod_assign(&mut self, other: Vec3)
        requires
            vhadamard_fits(old(self)@, other@),
        ensures
            final(self)@ == vhadamard(old(self)@, other@),
    {
        *self = self.elementwise_prod(other);
    }

    /// Returns the scalar product between this vector and the one given as
    /// argument.
    pub fn dot(&self, other: Vec3) -> (r: Real)
        requires
            vdot_fits(self@, other@),
        ensures
            r@ == vdot(self@, other@),
    {
        self.x.mul(other.x).add(self.y.mul(other.y)).add(self.z.mul(other.z))
    }

    /// Returns the right-handed vector product between this vector and the
    /// given one.
    pub fn vec_prod(&self, other: Vec3) -> (r: Vec3)
        requires
            vcross_fits(self@, other@),
        ensures
            r@ == vcross(self@, other@),
    {
        Vec3 {
            x: self.y.mul(other.z).sub(self.z.mul(other.y)),
            y: self.z.mul(other.x).sub(self.x.mul(other.z)),
            z: self.x.mul(other.y).sub(self.y.mul(other.x)),
        }
    }

    /// Returns the magnitude of the vector: the rounded-down square root of
    /// the exact sum of squared components.
    pub fn magnitude(&self) -> (r: Real)
        requires
            vmag_fits(self@),
        ensures
            r@ == vmag(self@),
            0 <= r@,
            is_sqrt_floor(vsq_sum(self@), r@),
    {
        let xx: u128 = square_mag_part(self.x.raw);
        let yy: u128 = square_mag_part(self.y.raw);
        let zz: u128 = square_mag_part(self.z.raw);
        let sum: u128 = xx + yy + zz;
        let root: u128 = isqrt_u128(sum);
        proof {
            assert(root as int <= 8_700_000_000_000_000_000) by (nonlinear_arith)
                requires
                    0 <= root as int,
                    (root as int) * (root as int) <= sum as int,
                    sum as int <= 75_000_000_000_000_000_000_000_000_000_000_000_000,
            ;
        }
        Real { raw: root as i64 }
    }

    /// Returns the square of the magnitude: the sum of the rounded squares
    /// of the components, avoiding the square root when only a comparison is
    /// needed.
    pub fn square_magnitude(&self) -> (r: Real)
        requires
            vdot_fits(self@, self@),
        ensures
            r@ == vsqmag(self@),
    {
        self.dot(*self)
    }

    /// Normalizes the vector in place: a vector with positive magnitude is
    /// scaled to magnitude one — within four raw units, by
    /// `lemma_normalize_unit_magnitude` — and the zero vector is left
    /// unchanged. Idempotent up to rounding, by
    /// `lemma_normalize_idempotent`. Components up to `FINE_LIMIT` carry the
    /// root at the fine scale `SCALE^2`; larger ones divide by a root of at
    /// least `FINE_LIMIT` raw units, where flooring it costs less than one
    /// part in 10^13.
    pub fn normalize(&mut self)
        requires
            vmag_fits(old(self)@),
        ensures
            final(self)@ == vnormalize(old(self)@),
    {
        let m = self.magnitude();
        if m.raw > 0 {
            if self.x.raw >= -FINE_LIMIT && self.x.raw <= FINE_LIMIT && self.y.raw >= -FINE_LIMIT
                && self.y.raw <= FINE_LIMIT && self.z.raw >= -FINE_LIMIT && self.z.raw
                <= FINE_LIMIT {
                let xx: u128 = square_mag_part(self.x.raw);
                let yy: u128 = square_mag_part(self.y.raw);
                let zz: u128 = square_mag_part(self.z.raw);
                proof {
                    lemma_fine_parts_small(old(self)@);
                }
                let n: u128 = xx + yy + zz;
                let n2: u128 = n * (SCALE as u128) * (SCALE as u128);
                let root: u128 = isqrt_u128(n2);
                proof {
                    lemma_fine_root_bounds(old(self)@);
                }
                let qx: i128 = crate::precision::floor_div_i128(
                    (self.x.raw as i128) * 1_000_000_000_000i128,
                    root as i128,
                );
                let qy: i128 = crate::precision::floor_div_i128(
                    (self.y.raw as i128) * 1_000_000_000_000i128,
                    root as i128,
                );
                let qz: i128 = crate::precision::floor_div_i128(
                    (self.z.raw as i128) * 1_000_000_000_000i128,
                    root as i128,
                );
                *self = Vec3 {
                    x: Real { raw: qx as i64 },
                    y: Real { raw: qy as i64 },
                    z: Real { raw: qz as i64 },
                };
            } else {
                proof {
                    lemma_normalize_fits(old(self)@);
                }
                *self = Vec3 { x: self.x.div(m), y: self.y.div(m), z: self.z.div(m) };
            }
        }
    }

    /// Replaces this vector by its vector product with the argument.
    pub fn vec_prod_assign(&mut self, other: Vec3)
        requires
            vcross_fits(old(self)@, other@),
        ensures
            final(self)@ == vcross(old(self)@, other@),
    {
        *self = self.vec_prod(other);
    }
}

/// The absolute value of a raw component.
pub open spec fn abs_r(x: int) -> int {
    if x >= 0 {
        x
    } else {
        -x
    }
}

/// The exact scalar product of the raw components, without rounding; the
/// reference point for the rounded `vdot`.
pub open spec fn vdot_exact(a: Vec3V, b: Vec3V) -> int {
    a.x * b.x + a.y * b.y + a.z * b.z
}

/// The exact vector product of the raw components, without rescaling; the
/// reference point for the rounded `vcross`.
pub open spec fn vcross_exact(a: Vec3V, b: Vec3V) -> Vec3V {
    Vec3V {
        x: a.y * b.z - a.z * b.y,
        y: a.z * b.x - a.x * b.z,
        z: a.x * b.y - a.y * b.x,
    }
}

/// Inverting a vector twice gives the vector back, for every vector.
pub proof fn lemma_invert_involutive(a: Vec3V)
    ensures
        vneg(vneg(a)) == a,
{
}

/// A vector is orthogonal to its vector product with any vector: exactly so
/// on the unrounded model.
pub proof fn lemma_cross_orthogonal_exact(a: Vec3V, b: Vec3V)
    ensures
        vdot_exact(a, vcross_exact(a, b)) == 0,
{
    let c = vcross_exact(a, b);
    assert(a.x * c.x + a.y * c.y + a.z * c.z == 0) by (nonlinear_arith)
        requires
            c.x == a.y * b.z - a.z * b.y,
            c.y == a.z * b.x - a.x * b.z,
            c.z == a.x * b.y - a.y * b.x,
    ;
}

/// Rescaling one rounded cross component: the rounding of its two products
/// leaves it within one fixed-point unit of the exact component.
proof fn lemma_cross_component_error(p1: int, p2: int, c: int)
    requires
        c == p1 / (SCALE as int) - p2 / (SCALE as int),
    ensures
        ({
            let s = SCALE as int;
            let delta = (SCALE as int) * c - (p1 - p2);
            -s < delta < s
        }),
{
    let s = SCALE as int;
    vstd::arithmetic::div_mod::lemma_fundamental_div_mod(p1, s);
    vstd::arithmetic::div_mod::lemma_fundamental_div_mod(p2, s);
    vstd::arithmetic::div_mod::lemma_mod_division_less_than_divisor(p1, s);
    vstd::arithmetic::div_mod::lemma_mod_division_less_than_divisor(p2, s);
}

/// A vector is orthogonal to its computed vector product with any vector,
/// up to the rounding the fixed-point products force: the computed scalar
/// product, rescaled by `SCALE^2`, is within a few rescaled component
/// magnitudes of zero.
pub proof fn lemma_cross_orthogonality_bound(a: Vec3V, b: Vec3V)
    ensures
        ({
            let s = SCALE as int;
            let d = vdot(a, vcross(a, b));
            let bound = (abs_r(a.x) + abs_r(a.y) + abs_r(a.z)) * s + 3 * s * s;
            -bound < s * s * d < bound
        }),
{
    let s = SCALE as int;
    let c = vcross(a, b);
    let e = vcross_exact(a, b);
    lemma_cross_orthogonal_exact(a, b);
    // Each computed cross component, rescaled, sits within one unit of the
    // exact one.
    lemma_cross_component_error(a.y * b.z, a.z * b.y, c.x);
    lemma_cross_component_error(a.z * b.x, a.x * b.z, c.y);
    lemma_cross_component_error(a.x * b.y, a.y * b.x, c.z);
    let dx = s * c.x - e.x;
    let dy = s * c.y - e.y;
    let dz = s * c.z - e.z;
    // The computed scalar product, rescaled once, differs from the sum of
    // the products by the three roundings.
    vstd::arithmetic::div_mod::lemma_fundamental_div_mod(a.x * c.x, s);
    vstd::arithmetic::div_mod::lemma_fundamental_div_mod(a.y * c.y, s);
    vstd::arithmetic::div_mod::lemma_fundamental_div_mod(a.z * c.z, s);
    vstd::arithmetic::div_mod::lemma_mod_division_less_than_divisor(a.x * c.x, s);
    vstd::arithmetic::div_mod::lemma_mod_division_less_than_divisor(a.y * c.y, s);
    vstd::arithmetic::div_mod::lemma_mod_division_less_than_divisor(a.z * c.z, s);
    let nx = (a.x * c.x) % s;
    let ny = (a.y * c.y) % s;
    let nz = (a.z * c.z) % s;
    let d = vdot(a, c);
    assert(s * d == a.x * c.x + a.y * c.y + a.z * c.z - nx - ny - nz);
    // Rescale once more and reassociate each product.
    assert(s * (a.x * c.x) == a.x * (s * c.x)) by (nonlinear_arith);
    assert(s * (a.y * c.y) == a.y * (s * c.y)) by (nonlinear_arith);
    assert(s * (a.z * c.z) == a.z * (s * c.z)) by (nonlinear_arith);
    assert(a.x * (s * c.x) == a.x * e.x + a.x * dx) by (nonlinear_arith)
        requires
            dx == s * c.x - e.x,
    ;
    assert(a.y * (s * c.y) == a.y * e.y + a.y * dy) by (nonlinear_arith)
        requires
            dy == s * c.y - e.y,
    ;
    assert(a.z * (s * c.z) == a.z * e.z + a.z * dz) by (nonlinear_arith)
        requires
            dz == s * c.z - e.z,
    ;
    // The exact part vanishes by orthogonality; each rounding contributes
    // less than one rescaled component magnitude.
    assert(a.x * e.x + a.y * e.y + a.z * e.z == 0);
    assert(-(abs_r(a.x) * s) <= a.x * dx <= abs_r(a.x) * s) by (nonlinear_arith)
        requires
            -s < dx < s,
            s == SCALE as int,
    ;
    assert(-(abs_r(a.y) * s) <= a.y * dy <= abs_r(a.y) * s) by (nonlinear_arith)
        requires
            -s < dy < s,
            s == SCALE as int,
    ;
    assert(-(abs_r(a.z) * s) <= a.z * dz <= abs_r(a.z) * s) by (nonlinear_arith)
        requires
            -s < dz < s,
            s == SCALE as int,
    ;
    assert(s * (s * d) == s * (a.x * c.x) + s * (a.y * c.y) + s * (a.z * c.z) - s * nx - s * ny - s
        * nz);
}

/// Sums of floors against the floor of the sum, for one shared positive
/// divisor.
proof fn lemma_floor_div_sum(a: int, b: int, d: int)
    requires
        0 <= a,
        0 <= b,
        0 < d,
    ensures
        a / d + b / d <= (a + b) / d <= a / d + b / d + 1,
{
    let qa = a / d;
    let ra = a % d;
    let qb = b / d;
    let rb = b % d;
    vstd::arithmetic::div_mod::lemma_fundamental_div_mod(a, d);
    vstd::arithmetic::div_mod::lemma_fundamental_div_mod(b, d);
    if ra + rb < d {
        assert(a + b == (qa + qb) * d + (ra + rb)) by (nonlinear_arith)
            requires
                a == d * qa + ra,
                b == d * qb + rb,
        ;
        vstd::arithmetic::div_mod::lemma_fundamental_div_mod_converse(a + b, d, qa + qb, ra + rb);
    } else {
        assert(a + b == (qa + qb + 1) * d + (ra + rb - d)) by (nonlinear_arith)
            requires
                a == d * qa + ra,
                b == d * qb + rb,
        ;
        vstd::arithmetic::div_mod::lemma_fundamental_div_mod_converse(
            a + b,
            d,
            qa + qb + 1,
            ra + rb - d,
        );
    }
}

/// The rounded square of the computed magnitude agrees with the computed
/// square magnitude, for every vector, up to the rounding the fixed-point
/// representation forces: at most 2 raw units from below, and from above at
/// most two raw units beyond `2 * magnitude` rescaled.
pub proof fn lemma_magnitude_squared_close(a: Vec3V)
    requires
        vmag_fits(a),
    ensures
        mul_r(vmag(a), vmag(a)) <= vsqmag(a) + 2,
        vsqmag(a) <= mul_r(vmag(a), vmag(a)) + (2 * vmag(a)) / (SCALE as int) + 1,
{
    let s = SCALE as int;
    let xx = a.x * a.x;
    let yy = a.y * a.y;
    let zz = a.z * a.z;
    let n = vsq_sum(a);
    assert(a.x * a.x >= 0 && a.y * a.y >= 0 && a.z * a.z >= 0) by (nonlinear_arith);
    crate::precision::lemma_sqrt_floor_exists(n);
    let m = vmag(a);
    assert(m * m <= n < (m + 1) * (m + 1));
    assert(n <= m * m + 2 * m) by (nonlinear_arith)
        requires
            n < (m + 1) * (m + 1),
    ;
    // The computed square magnitude brackets `n / SCALE` within two units.
    lemma_floor_div_sum(xx, yy, s);
    lemma_floor_div_sum(xx + yy, zz, s);
    // From below: `m^2 <= n`, so its floor is below `n / SCALE`, which is
    // within two of the sum of floors.
    vstd::arithmetic::div_mod::lemma_div_is_ordered(m * m, n, s);
    // From above: `n <= m^2 + 2m`, and the floor of that sum splits.
    vstd::arithmetic::div_mod::lemma_div_is_ordered(n, m * m + 2 * m, s);
    assert(m * m >= 0) by (nonlinear_arith)
        requires
            m >= 0,
    ;
    lemma_floor_div_sum(m * m, 2 * m, s);
}

/// The shared core of both normalization tiers: each component carries a
/// rescaling factor `k` (the fine scale uses `k == SCALE`, the coarse one
/// `k == 1`), and is divided by the rounded-down root `d` of the equally
/// rescaled sum of squares. The result's components stay in `[-1, 1]` and
/// its exact sum of squares lands in a thin band around `SCALE^2`.
proof fn lemma_normalized_sum_band(a: Vec3V, k: int, d: int, q: Vec3V)
    requires
        k >= 1,
        d >= SCALE,
        is_sqrt_floor(vsq_sum(a) * k * k, d),
        q.x == (a.x * k * SCALE) / d,
        q.y == (a.y * k * SCALE) / d,
        q.z == (a.z * k * SCALE) / d,
    ensures
        (SCALE as int) * SCALE - 6 * SCALE <= vsq_sum(q),
        vsq_sum(q) < (SCALE as int) * SCALE + 8 * SCALE + 16,
        -(SCALE as int) <= q.x <= SCALE as int,
        -(SCALE as int) <= q.y <= SCALE as int,
        -(SCALE as int) <= q.z <= SCALE as int,
{
    let s = SCALE as int;
    let g = vsq_sum(a) * k * k;
    let ax = a.x * k * s;
    let ay = a.y * k * s;
    let az = a.z * k * s;
    vstd::arithmetic::div_mod::lemma_fundamental_div_mod(ax, d);
    vstd::arithmetic::div_mod::lemma_fundamental_div_mod(ay, d);
    vstd::arithmetic::div_mod::lemma_fundamental_div_mod(az, d);
    vstd::arithmetic::div_mod::lemma_mod_division_less_than_divisor(ax, d);
    vstd::arithmetic::div_mod::lemma_mod_division_less_than_divisor(ay, d);
    vstd::arithmetic::div_mod::lemma_mod_division_less_than_divisor(az, d);
    let rx = ax % d;
    let ry = ay % d;
    let rz = az % d;
    // Each rescaled component's square is part of `g`, so `d` dominates it.
    assert(a.x * a.x * k * k <= g && a.y * a.y * k * k <= g && a.z * a.z * k * k <= g)
        by (nonlinear_arith)
        requires
            g == (a.x * a.x + a.y * a.y + a.z * a.z) * k * k,
            k >= 1,
    ;
    assert(-d <= a.x * k <= d && -d <= a.y * k <= d && -d <= a.z * k <= d) by (nonlinear_arith)
        requires
            is_sqrt_floor(g, d),
            a.x * a.x * k * k <= g,
            a.y * a.y * k * k <= g,
            a.z * a.z * k * k <= g,
    ;
    assert(-(d * s) <= ax <= d * s && -(d * s) <= ay <= d * s && -(d * s) <= az <= d * s)
        by (nonlinear_arith)
        requires
            -d <= a.x * k <= d,
            -d <= a.y * k <= d,
            -d <= a.z * k <= d,
            ax == a.x * k * s,
            ay == a.y * k * s,
            az == a.z * k * s,
            s >= 1,
    ;
    // The quotients stay within one unit.
    assert((d * s) / d == s) by {
        vstd::arithmetic::div_mod::lemma_div_multiples_vanish(s, d);
        vstd::arithmetic::mul::lemma_mul_is_commutative(d, s);
    }
    assert((-(d * s)) / d == -s) by {
        vstd::arithmetic::div_mod::lemma_div_multiples_vanish(-s, d);
        assert(-(d * s) == d * (-s)) by (nonlinear_arith);
    }
    vstd::arithmetic::div_mod::lemma_div_is_ordered(ax, d * s, d);
    vstd::arithmetic::div_mod::lemma_div_is_ordered(-(d * s), ax, d);
    vstd::arithmetic::div_mod::lemma_div_is_ordered(ay, d * s, d);
    vstd::arithmetic::div_mod::lemma_div_is_ordered(-(d * s), ay, d);
    vstd::arithmetic::div_mod::lemma_div_is_ordered(az, d * s, d);
    vstd::arithmetic::div_mod::lemma_div_is_ordered(-(d * s), az, d);
    // Squaring each division identity and summing.
    assert(d * d * (q.x * q.x) == ax * ax - 2 * (ax * rx) + rx * rx) by (nonlinear_arith)
        requires
            ax == d * q.x + rx,
    ;
    assert(d * d * (q.y * q.y) == ay * ay - 2 * (ay * ry) + ry * ry) by (nonlinear_arith)
        requires
            ay == d * q.y + ry,
    ;
    assert(d * d * (q.z * q.z) == az * az - 2 * (az * rz) + rz * rz) by (nonlinear_arith)
        requires
            az == d * q.z + rz,
    ;
    assert(d * d * vsq_sum(q) == (ax * ax + ay * ay + az * az) - 2 * (ax * rx + ay * ry + az * rz)
        + (rx * rx + ry * ry + rz * rz)) by (nonlinear_arith)
        requires
            d * d * (q.x * q.x) == ax * ax - 2 * (ax * rx) + rx * rx,
            d * d * (q.y * q.y) == ay * ay - 2 * (ay * ry) + ry * ry,
            d * d * (q.z * q.z) == az * az - 2 * (az * rz) + rz * rz,
            vsq_sum(q) == q.x * q.x + q.y * q.y + q.z * q.z,
    ;
    // The exact part: the rescaled components' squares sum to `g * SCALE^2`,
    // which the root brackets.
    let u = k * s;
    assert(ax == a.x * u && ay == a.y * u && az == a.z * u) by (nonlinear_arith)
        requires
            ax == a.x * k * s,
            ay == a.y * k * s,
            az == a.z * k * s,
            u == k * s,
    ;
    assert(ax * ax == (a.x * a.x) * (u * u)) by (nonlinear_arith)
        requires
            ax == a.x * u,
    ;
    assert(ay * ay == (a.y * a.y) * (u * u)) by (nonlinear_arith)
        requires
            ay == a.y * u,
    ;
    assert(az * az == (a.z * a.z) * (u * u)) by (nonlinear_arith)
        requires
            az == a.z * u,
    ;
    vstd::arithmetic::mul::lemma_mul_is_distributive_add_other_way(
        u * u,
        a.x * a.x + a.y * a.y,
        a.z * a.z,
    );
    vstd::arithmetic::mul::lemma_mul_is_distributive_add_other_way(u * u, a.x * a.x, a.y * a.y);
    assert(ax * ax + ay * ay + az * az == (a.x * a.x + a.y * a.y + a.z * a.z) * (u * u));
    assert(g * (s * s) == (a.x * a.x + a.y * a.y + a.z * a.z) * (u * u)) by (nonlinear_arith)
        requires
            g == (a.x * a.x + a.y * a.y + a.z * a.z) * k * k,
            u == k * s,
    ;
    assert(d * d * (s * s) <= g * (s * s) && g * (s * s) < (d + 1) * (d + 1) * (s * s))
        by (nonlinear_arith)
        requires
            is_sqrt_floor(g, d),
            s >= 1,
    ;
    // The error terms: each cross term is at most `d^2 * SCALE` in size and
    // each remainder square at most `d^2`.
    assert(-(d * d * s) <= ax * rx <= d * d * s && -(d * d * s) <= ay * ry <= d * d * s && -(d * d
        * s) <= az * rz <= d * d * s) by (nonlinear_arith)
        requires
            -(d * s) <= ax <= d * s,
            -(d * s) <= ay <= d * s,
            -(d * s) <= az <= d * s,
            0 <= rx < d,
            0 <= ry < d,
            0 <= rz < d,
    ;
    assert(0 <= rx * rx <= d * d && 0 <= ry * ry <= d * d && 0 <= rz * rz <= d * d)
        by (nonlinear_arith)
        requires
            0 <= rx < d,
            0 <= ry < d,
            0 <= rz < d,
    ;
    // Lower bound of the band.
    assert(vsq_sum(q) >= s * s - 6 * s) by (nonlinear_arith)
        requires
            d * d * vsq_sum(q) >= d * d * (s * s) - 6 * (d * d * s),
            d >= 1,
    ;
    // Upper bound of the band, using `d >= SCALE`.
    assert((d + 1) * (d + 1) * (s * s) + 6 * (d * d * s) + 3 * (d * d) <= d * d * (s * s + 8 * s
        + 16)) by (nonlinear_arith)
        requires
            d >= s,
            s >= 1,
    ;
    assert(vsq_sum(q) < s * s + 8 * s + 16) by (nonlinear_arith)
        requires
            d * d * vsq_sum(q) < d * d * (s * s + 8 * s + 16),
            d >= 1,
    ;
}

/// Outside the fine domain some component exceeds `FINE_LIMIT`, so the sum
/// of squares does too.
proof fn lemma_outside_fine_domain_big(a: Vec3V)
    requires
        !vnorm_fine_domain(a),
    ensures
        vsq_sum(a) > FINE_LIMIT * FINE_LIMIT,
{
    assert(a.x * a.x >= 0 && a.y * a.y >= 0 && a.z * a.z >= 0) by (nonlinear_arith);
    if a.x > FINE_LIMIT || a.x < -FINE_LIMIT {
        assert(a.x * a.x > FINE_LIMIT * FINE_LIMIT) by (nonlinear_arith)
            requires
                a.x > FINE_LIMIT || a.x < -FINE_LIMIT,
        ;
    } else if a.y > FINE_LIMIT || a.y < -FINE_LIMIT {
        assert(a.y * a.y > FINE_LIMIT * FINE_LIMIT) by (nonlinear_arith)
            requires
                a.y > FINE_LIMIT || a.y < -FINE_LIMIT,
        ;
    } else {
        assert(a.z * a.z > FINE_LIMIT * FINE_LIMIT) by (nonlinear_arith)
            requires
                a.z > FINE_LIMIT || a.z < -FINE_LIMIT,
        ;
    }
}

/// The band facts for a normalized vector, whichever tier computed it.
proof fn lemma_vnormalize_band(a: Vec3V)
    requires
        vmag_fits(a),
        vmag(a) > 0,
    ensures
        (SCALE as int) * SCALE - 6 * SCALE <= vsq_sum(vnormalize(a)),
        vsq_sum(vnormalize(a)) < (SCALE as int) * SCALE + 8 * SCALE + 16,
        -(SCALE as int) <= vnormalize(a).x <= SCALE as int,
        -(SCALE as int) <= vnormalize(a).y <= SCALE as int,
        -(SCALE as int) <= vnormalize(a).z <= SCALE as int,
{
    let s = SCALE as int;
    let n = vsq_sum(a);
    assert(a.x * a.x >= 0 && a.y * a.y >= 0 && a.z * a.z >= 0) by (nonlinear_arith);
    crate::precision::lemma_sqrt_floor_exists(n);
    let m = vmag(a);
    let q = vnormalize(a);
    if vnorm_fine_domain(a) {
        lemma_fine_root_bounds(a);
        let d = vmag_fine(a);
        assert(n * s * s == vsq_sum(a) * SCALE * SCALE);
        lemma_normalized_sum_band(a, s, d, q);
    } else {
        lemma_outside_fine_domain_big(a);
        assert(m >= FINE_LIMIT) by (nonlinear_arith)
            requires
                is_sqrt_floor(n, m),
                n > FINE_LIMIT * FINE_LIMIT,
                FINE_LIMIT > 0,
        ;
        assert(n * 1 * 1 == n);
        assert(q.x == (a.x * 1 * s) / m && q.y == (a.y * 1 * s) / m && q.z == (a.z * 1 * s) / m);
        lemma_normalized_sum_band(a, 1, m, q);
    }
}

/// Normalization scales every non-zero vector to magnitude one, up to the
/// rounding the representation forces: the magnitude of the result is
/// within four raw units (four millionths) of one, over the whole admitted
/// domain.
pub proof fn lemma_normalize_unit_magnitude(a: Vec3V)
    requires
        vmag_fits(a),
        vmag(a) > 0,
    ensures
        SCALE - 4 <= vmag(vnormalize(a)) <= SCALE + 3,
{
    let s = SCALE as int;
    lemma_vnormalize_band(a);
    let n2 = vsq_sum(vnormalize(a));
    crate::precision::lemma_sqrt_floor_exists(n2);
    assert(s - 4 <= sqrt_floor(n2) <= s + 3) by (nonlinear_arith)
        requires
            is_sqrt_floor(n2, sqrt_floor(n2)),
            s * s - 6 * s <= n2 < s * s + 8 * s + 16,
            s == 1_000_000,
    ;
}

/// One component of a second normalization pass: dividing a unit-scale
/// component, rescaled to the fine scale, by a root within `4 * SCALE` of
/// `SCALE^2` moves it by at most five raw units.
proof fn lemma_second_pass_component(c: int, d: int)
    requires
        -(SCALE as int) <= c <= SCALE as int,
        (SCALE as int) * SCALE - 4 * SCALE <= d <= (SCALE as int) * SCALE + 4 * SCALE,
    ensures
        -5 <= (c * SCALE * SCALE) / d - c <= 5,
{
    let s = SCALE as int;
    let cs = c * s * s;
    vstd::arithmetic::div_mod::lemma_fundamental_div_mod(cs, d);
    vstd::arithmetic::div_mod::lemma_mod_division_less_than_divisor(cs, d);
    let q = cs / d;
    let r = cs % d;
    assert(d * (q - c) == c * (s * s - d) - r) by (nonlinear_arith)
        requires
            cs == d * q + r,
            cs == c * s * s,
    ;
    assert(-(4 * (s * s)) <= c * (s * s - d) <= 4 * (s * s)) by (nonlinear_arith)
        requires
            -s <= c <= s,
            -(4 * s) <= s * s - d <= 4 * s,
    ;
    assert(-5 <= q - c <= 5) by (nonlinear_arith)
        requires
            d * (q - c) == c * (s * s - d) - r,
            -(4 * (s * s)) <= c * (s * s - d) <= 4 * (s * s),
            0 <= r < d,
            s * s - 4 * s <= d <= s * s + 4 * s,
            s == 1_000_000,
    ;
}

/// Normalization is idempotent up to the rounding the representation
/// forces: normalizing an already normalized vector moves every component
/// by at most five raw units (five millionths), and leaves the zero vector
/// untouched exactly.
pub proof fn lemma_normalize_idempotent(a: Vec3V)
    requires
        vmag_fits(a),
    ensures
        -5 <= vnormalize(vnormalize(a)).x - vnormalize(a).x <= 5,
        -5 <= vnormalize(vnormalize(a)).y - vnormalize(a).y <= 5,
        -5 <= vnormalize(vnormalize(a)).z - vnormalize(a).z <= 5,
{
    let s = SCALE as int;
    if vmag(a) == 0 {
        assert(vnormalize(a) == a);
    } else {
        assert(a.x * a.x >= 0 && a.y * a.y >= 0 && a.z * a.z >= 0) by (nonlinear_arith);
        crate::precision::lemma_sqrt_floor_exists(vsq_sum(a));
        lemma_vnormalize_band(a);
        lemma_normalize_unit_magnitude(a);
        let q = vnormalize(a);
        let n2 = vsq_sum(q);
        crate::precision::lemma_sqrt_floor_exists(n2);
        // The normalized vector lies in the fine domain with a positive
        // magnitude, so the second pass takes the fine tier.
        assert(vnorm_fine_domain(q));
        assert(vmag(q) > 0);
        let n2f = n2 * s * s;
        assert((s * s - 6 * s) * (s * s) <= n2f && n2f < (s * s + 8 * s + 16) * (s * s))
            by (nonlinear_arith)
            requires
                n2f == n2 * s * s,
                s * s - 6 * s <= n2 < s * s + 8 * s + 16,
                s >= 1,
        ;
        crate::precision::lemma_sqrt_floor_exists(n2f);
        let r2 = vmag_fine(q);
        assert(s * s - 4 * s <= r2 <= s * s + 4 * s) by (nonlinear_arith)
            requires
                is_sqrt_floor(n2f, r2),
                (s * s - 6 * s) * (s * s) <= n2f < (s * s + 8 * s + 16) * (s * s),
                s == 1_000_000,
        ;
        lemma_second_pass_component(q.x, r2);
        lemma_second_pass_component(q.y, r2);
        lemma_second_pass_component(q.z, r2);
    }
}

/// Scaling a representable vector by a factor from `[0, 1]` keeps it
/// representable.
pub proof fn lemma_vscale_unit(v: Vec3V, d: int)
    requires
        vin_range(v),
        0 <= d <= SCALE,
    ensures
        vscale_fits(v, d),
{
    crate::precision::lemma_mul_r_toward_zero(v.x, d);
    crate::precision::lemma_mul_r_toward_zero(v.y, d);
    crate::precision::lemma_mul_r_toward_zero(v.z, d);
}

/// The square of one component, exactly, in 128 bits.
fn square_mag_part(v: i64) -> (r: u128)
    requires
        -MAG_LIMIT <= v <= MAG_LIMIT,
    ensures
        r as int == (v as int) * (v as int),
        r as int <= 25_000_000_000_000_000_000_000_000_000_000_000_000,
{
    proof {
        assert(0 <= (v as int) * (v as int)
            <= 25_000_000_000_000_000_000_000_000_000_000_000_000) by (nonlinear_arith)
            requires
                -MAG_LIMIT <= v as int <= MAG_LIMIT,
        ;
    }
    let w: i128 = (v as i128) * (v as i128);
    w as u128
}

/// Within the fine domain every squared component, their sum, and the sum
/// rescaled to the fine scale stay within 128 bits.
proof fn lemma_fine_parts_small(a: Vec3V)
    requires
        vnorm_fine_domain(a),
    ensures
        0 <= a.x * a.x <= 100_000_000_000_000_000_000_000_000,
        0 <= a.y * a.y <= 100_000_000_000_000_000_000_000_000,
        0 <= a.z * a.z <= 100_000_000_000_000_000_000_000_000,
        0 <= vsq_sum(a) <= 300_000_000_000_000_000_000_000_000,
        0 <= vsq_sum(a) * SCALE * SCALE
            <= 300_000_000_000_000_000_000_000_000_000_000_000_000,
{
    assert(0 <= a.x * a.x <= 100_000_000_000_000_000_000_000_000 && 0 <= a.y * a.y
        <= 100_000_000_000_000_000_000_000_000 && 0 <= a.z * a.z
        <= 100_000_000_000_000_000_000_000_000) by (nonlinear_arith)
        requires
            -FINE_LIMIT <= a.x <= FINE_LIMIT,
            -FINE_LIMIT <= a.y <= FINE_LIMIT,
            -FINE_LIMIT <= a.z <= FINE_LIMIT,
    ;
}

/// A component whose square contributes to the fine-scale sum is dominated
/// by the fine root, so its fine quotient lies in `[-1, 1]`.
proof fn lemma_fine_quotient_unit(c: int, r: int, n2: int)
    requires
        r > 0,
        is_sqrt_floor(n2, r),
        c * c * SCALE * SCALE <= n2,
    ensures
        c * SCALE <= r && -r <= c * SCALE,
        -(SCALE as int) <= (c * SCALE * SCALE) / r <= SCALE as int,
{
    let s = SCALE as int;
    assert(c * s <= r && -r <= c * s) by (nonlinear_arith)
        requires
            is_sqrt_floor(n2, r),
            c * c * s * s <= n2,
            s == SCALE as int,
    ;
    assert(c * s * s <= r * s && (-r) * s <= c * s * s) by (nonlinear_arith)
        requires
            c * s <= r,
            -r <= c * s,
            s > 0,
    ;
    vstd::arithmetic::div_mod::lemma_div_is_ordered(c * s * s, r * s, r);
    vstd::arithmetic::div_mod::lemma_div_is_ordered((-r) * s, c * s * s, r);
    assert((r * s) / r == s) by {
        vstd::arithmetic::div_mod::lemma_div_multiples_vanish(s, r);
        vstd::arithmetic::mul::lemma_mul_is_commutative(r, s);
    }
    assert(((-r) * s) / r == -s) by {
        vstd::arithmetic::div_mod::lemma_div_multiples_vanish(-s, r);
        assert((-r) * s == r * (-s)) by (nonlinear_arith);
    }
}

/// Bounds of the fine-scale root and of the fine quotients: established from
/// the coarse magnitude being positive.
proof fn lemma_fine_root_bounds(a: Vec3V)
    requires
        vnorm_fine_domain(a),
        vmag(a) > 0,
    ensures
        is_sqrt_floor(vsq_sum(a) * SCALE * SCALE, vmag_fine(a)),
        SCALE <= vmag_fine(a) <= 19_000_000_000_000_000_000,
        -(SCALE as int) <= (a.x * SCALE * SCALE) / vmag_fine(a) <= SCALE as int,
        -(SCALE as int) <= (a.y * SCALE * SCALE) / vmag_fine(a) <= SCALE as int,
        -(SCALE as int) <= (a.z * SCALE * SCALE) / vmag_fine(a) <= SCALE as int,
{
    let s = SCALE as int;
    let n = vsq_sum(a);
    lemma_fine_parts_small(a);
    crate::precision::lemma_sqrt_floor_exists(n);
    let m = vmag(a);
    assert(1 <= n) by (nonlinear_arith)
        requires
            is_sqrt_floor(n, m),
            m >= 1,
    ;
    let n2 = n * s * s;
    crate::precision::lemma_sqrt_floor_exists(n2);
    let r = vmag_fine(a);
    assert(s <= r && r <= 19_000_000_000_000_000_000) by (nonlinear_arith)
        requires
            is_sqrt_floor(n2, r),
            s * s <= n2 <= 300_000_000_000_000_000_000_000_000_000_000_000_000,
            s == 1_000_000,
    ;
    assert(a.x * a.x * s * s <= n2 && a.y * a.y * s * s <= n2 && a.z * a.z * s * s <= n2)
        by (nonlinear_arith)
        requires
            a.x * a.x + a.y * a.y + a.z * a.z == n,
            n2 == n * s * s,
            0 <= a.x * a.x,
            0 <= a.y * a.y,
            0 <= a.z * a.z,
            s > 0,
    ;
    lemma_fine_quotient_unit(a.x, r, n2);
    lemma_fine_quotient_unit(a.y, r, n2);
    lemma_fine_quotient_unit(a.z, r, n2);
}

/// When the magnitude is positive, dividing a component by it stays within
/// one fixed-point unit, so the quotient is representable.
proof fn lemma_normalize_fits(a: Vec3V)
    requires
        vmag_fits(a),
        vmag(a) > 0,
        is_sqrt_floor(vsq_sum(a), vmag(a)),
    ensures
        -(SCALE as int) <= div_r(a.x, vmag(a)) <= SCALE as int,
        -(SCALE as int) <= div_r(a.y, vmag(a)) <= SCALE as int,
        -(SCALE as int) <= div_r(a.z, vmag(a)) <= SCALE as int,
        vdiv_fits(a, vmag(a)),
{
    let m = vmag(a);
    assert(a.x * a.x >= 0 && a.y * a.y >= 0 && a.z * a.z >= 0) by (nonlinear_arith);
    lemma_component_quotient_unit(a.x, m, vsq_sum(a));
    lemma_component_quotient_unit(a.y, m, vsq_sum(a));
    lemma_component_quotient_unit(a.z, m, vsq_sum(a));
}

/// A component is dominated by the rounded-down root of any sum its square
/// contributes to, so its quotient by that root lies in `[-1, 1]`.
proof fn lemma_component_quotient_unit(c: int, m: int, sum: int)
    requires
        m > 0,
        is_sqrt_floor(sum, m),
        c * c <= sum,
    ensures
        -(SCALE as int) <= div_r(c, m) <= SCALE as int,
{
    assert(-m <= c <= m) by (nonlinear_arith)
        requires
            is_sqrt_floor(sum, m),
            c * c <= sum,
    ;
    assert(c * SCALE <= m * SCALE && (-m) * SCALE <= c * SCALE) by (nonlinear_arith)
        requires
            -m <= c <= m,
    ;
    vstd::arithmetic::div_mod::lemma_div_is_ordered(c * SCALE, m * SCALE, m);
    vstd::arithmetic::div_mod::lemma_div_is_ordered((-m) * SCALE, c * SCALE, m);
    assert(m * SCALE == m * (SCALE as int)) by (nonlinear_arith);
    assert((m * (SCALE as int)) / m == SCALE as int) by {
        vstd::arithmetic::div_mod::lemma_div_multiples_vanish(SCALE as int, m);
        assert(m * (SCALE as int) == (SCALE as int) * m || m * (SCALE as int) == m * (
        SCALE as int)) by (nonlinear_arith);
        vstd::arithmetic::mul::lemma_mul_is_commutative(m, SCALE as int);
    }
    assert(((-m) * (SCALE as int)) / m == -(SCALE as int)) by {
        vstd::arithmetic::div_mod::lemma_div_multiples_vanish(-(SCALE as int), m);
        vstd::arithmetic::mul::lemma_mul_is_commutative(-m, SCALE as int);
        assert((-m) * (SCALE as int) == m * (-(SCALE as int))) by (nonlinear_arith);
    }
}

/// Whole values drawn from a range stay representable and are multiples of
/// the scale.
proof fn lemma_whole_real_bounds(v: int, lo: int, hi: int)
    requires
        lo <= v < hi,
        -0x8000_0000 <= lo,
        hi <= 0x8000_0000,
    ensures
        lo * SCALE <= v * SCALE <= (hi - 1) * SCALE,
        (v * SCALE) % (SCALE as int) == 0,
        -9_000_000_000_000 <= v <= 9_000_000_000_000,
{
    assert(lo * SCALE <= v * SCALE && v * SCALE <= (hi - 1) * SCALE) by (nonlinear_arith)
        requires
            lo <= v <= hi - 1,
    ;
    vstd::arithmetic::div_mod::lemma_mod_multiples_basic(v, SCALE as int);
}

/// Relies on rand: `thread_rng` hands the thread-local generator to
/// `Rng::gen_range`, which draws a uniform value from the non-empty range
/// `lo..hi`.
#[verifier::external_body]
fn random_in_range(lo: i32, hi: i32) -> (r: i32)
    requires
        lo < hi,
    ensures
        lo <= r < hi,
{
    rand::Rng::gen_range(&mut rand::thread_rng(), lo..hi)
}

} // verus!
