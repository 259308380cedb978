//! Linear algebra: vectors, points, parametric rays and 4x4 affine
//! matrices over the fixed-point scalar.

use vstd::prelude::*;
use crate::fixed::{
    fx_mul, in_mag, fits_i64, mag_int, mul_raw, sqrt_int, tdiv, tdiv_i128,
    isqrt_u128, lemma_is_sqrt_unique, lemma_mul_mag_bound, lemma_mul_raw_compose,
    lemma_mul_raw_distributes, lemma_mul_raw_in_mag, lemma_mul_raw_square, lemma_mul_raw_zero,
    lemma_mul_raw_whole, lemma_sqrt_exists, lemma_tdiv_quotient_mag, lemma_tdiv_remainder,
    Scalar, COORD_LIMIT, EPSILON, SCALE,
};
use vstd::arithmetic::div_mod::lemma_div_multiples_vanish;

verus! {

/// A color, stored as three components just like a vector.
pub type Color3 = Vec3;

/// A point in space, distinguished from a free vector only by use.
pub type Point3 = Vec3;

/// A three-component fixed-point vector.
#[derive(Clone, Copy, Debug, PartialEq, Eq, Structural)]
pub struct Vec3 {
    pub x: Scalar,
    pub y: Scalar,
    pub z: Scalar,
}

/// The three raw components of a vector.
pub open spec fn vraws(v: Vec3) -> (int, int, int) {
    (v.x.raw as int, v.y.raw as int, v.z.raw as int)
}

/// Component-wise sum of raw triples.
pub open spec fn tadd(p: (int, int, int), q: (int, int, int)) -> (int, int, int) {
    (p.0 + q.0, p.1 + q.1, p.2 + q.2)
}

/// Component-wise difference of raw triples.
pub open spec fn tsub(p: (int, int, int), q: (int, int, int)) -> (int, int, int) {
    (p.0 - q.0, p.1 - q.1, p.2 - q.2)
}

/// Fixed-point dot product of raw triples.
pub open spec fn dot3(p: (int, int, int), q: (int, int, int)) -> int {
    mul_raw(p.0, q.0) + mul_raw(p.1, q.1) + mul_raw(p.2, q.2)
}

/// Sum of the squared raw components (at squared-raw scale).
pub open spec fn mag2_int(v: Vec3) -> int {
    (v.x.raw as int) * (v.x.raw as int) + (v.y.raw as int) * (v.y.raw as int)
        + (v.z.raw as int) * (v.z.raw as int)
}

/// Raw magnitude of a vector: the rounded-down square root of the sum of
/// the squared raw components.
pub open spec fn mag_raw(v: Vec3) -> int {
    sqrt_int(mag2_int(v))
}

/// Raw components of `v` rescaled so its magnitude becomes the raw value `m`.
pub open spec fn scaled_raw(v: Vec3, m: int) -> (int, int, int) {
    (
        tdiv((v.x.raw as int) * m, mag_raw(v)),
        tdiv((v.y.raw as int) * m, mag_raw(v)),
        tdiv((v.z.raw as int) * m, mag_raw(v)),
    )
}

/// Vectors are approximately equal when every pair of components is
/// strictly within the comparison tolerance.
pub open spec fn approx_eq(a: Vec3, b: Vec3) -> bool {
    &&& -(EPSILON as int) < a.x.raw - b.x.raw < EPSILON as int
    &&& -(EPSILON as int) < a.y.raw - b.y.raw < EPSILON as int
    &&& -(EPSILON as int) < a.z.raw - b.z.raw < EPSILON as int
}

impl Vec3 {
    /// Every component lies within the coordinate limit.
    pub open spec fn bounded(self) -> bool {
        &&& in_mag(self.x.raw as int, COORD_LIMIT as int)
        &&& in_mag(self.y.raw as int, COORD_LIMIT as int)
        &&& in_mag(self.z.raw as int, COORD_LIMIT as int)
    }

    /// Create a new vector with the specified coordinates.
    pub fn new(x: Scalar, y: Scalar, z: Scalar) -> (r: Vec3)
        ensures
            r.x == x,
            r.y == y,
            r.z == z,
    {
        Vec3 { x, y, z }
    }

    /// The origin point.
    pub fn origin() -> (r: Point3)
        ensures
            vraws(r) == (0int, 0int, 0int),
    {
        Vec3 { x: Scalar { raw: 0 }, y: Scalar { raw: 0 }, z: Scalar { raw: 0 } }
    }

    /// Retrieve the x coordinate.
    pub fn x(&self) -> (r: Scalar)
        ensures
            r == self.x,
    {
        self.x
    }

    /// Retrieve the y coordinate.
    pub fn y(&self) -> (r: Scalar)
        ensures
            r == self.y,
    {
        self.y
    }

    /// Retrieve the z coordinate.
    pub fn z(&self) -> (r: Scalar)
        ensures
            r == self.z,
    {
        self.z
    }

    /// Change the x coordinate to the specified value.
    pub fn set_x(&mut self, x: Scalar)
        ensures
            final(self).x == x,
            final(self).y == old(self).y,
            final(self).z == old(self).z,
    {
        self.x = x;
    }

    /// Change the y coordinate to the specified value.
    pub fn set_y(&mut self, y: Scalar)
        ensures
            final(self).y == y,
            final(self).x == old(self).x,
            final(self).z == old(self).z,
    {
        self.y = y;
    }

    /// Change the z coordinate to the specified value.
    pub fn set_z(&mut self, z: Scalar)
        ensures
            final(self).z == z,
            final(self).x == old(self).x,
            final(self).y == old(self).y,
    {
        self.z = z;
    }

    /// Component-wise sum.
    pub fn add(&self, rhs: &Vec3) -> (r: Vec3)
        requires
            fits_i64(self.x.raw + rhs.x.raw),
            fits_i64(self.y.raw + rhs.y.raw),
            fits_i64(self.z.raw + rhs.z.raw),
        ensures
            vraws(r) == tadd(vraws(*self), vraws(*rhs)),
    {
        Vec3 {
            x: Scalar { raw: self.x.raw + rhs.x.raw },
            y: Scalar { raw: self.y.raw + rhs.y.raw },
            z: Scalar { raw: self.z.raw + rhs.z.raw },
        }
    }

    /// Component-wise difference.
    pub fn sub(&self, rhs: &Vec3) -> (r: Vec3)
        requires
            fits_i64(self.x.raw - rhs.x.raw),
            fits_i64(self.y.raw - rhs.y.raw),
            fits_i64(self.z.raw - rhs.z.raw),
        ensures
            vraws(r) == tsub(vraws(*self), vraws(*rhs)),
    {
        Vec3 {
            x: Scalar { raw: self.x.raw - rhs.x.raw },
            y: Scalar { raw: self.y.raw - rhs.y.raw },
            z: Scalar { raw: self.z.raw - rhs.z.raw },
        }
    }

    /// Rescale the vector so its magnitude becomes the given value.
    /// The vector must not be the zero vector.
    ///
    /// Each result component is the true quotient `comp * magnitude / m`
    /// rounded toward zero (the second group of ensures), so the error
    /// per component is below one raw unit times `magnitude / m`; it
    /// grows as the input shrinks toward the quantum.
    pub fn normalize_to(self, magnitude: Scalar) -> (r: Vec3)
        requires
            self.bounded(),
            in_mag(magnitude.raw as int, COORD_LIMIT as int),
            self.x.raw != 0 || self.y.raw != 0 || self.z.raw != 0,
        ensures
            vraws(r) == scaled_raw(self, magnitude.raw as int),
            in_mag(
                (r.x.raw as int) * mag_raw(self) - (self.x.raw as int) * (magnitude.raw as int),
                mag_raw(self) - 1,
            ),
            in_mag(
                (r.y.raw as int) * mag_raw(self) - (self.y.raw as int) * (magnitude.raw as int),
                mag_raw(self) - 1,
            ),
            in_mag(
                (r.z.raw as int) * mag_raw(self) - (self.z.raw as int) * (magnitude.raw as int),
                mag_raw(self) - 1,
            ),
    {
        proof {
            lemma_mul_mag_bound(
                self.x.raw as int,
                self.x.raw as int,
                COORD_LIMIT as int,
                COORD_LIMIT as int,
            );
            lemma_mul_mag_bound(
                self.y.raw as int,
                self.y.raw as int,
                COORD_LIMIT as int,
                COORD_LIMIT as int,
            );
            lemma_mul_mag_bound(
                self.z.raw as int,
                self.z.raw as int,
                COORD_LIMIT as int,
                COORD_LIMIT as int,
            );
            assert(0 <= (self.x.raw as int) * (self.x.raw as int)) by (nonlinear_arith);
            assert(0 <= (self.y.raw as int) * (self.y.raw as int)) by (nonlinear_arith);
            assert(0 <= (self.z.raw as int) * (self.z.raw as int)) by (nonlinear_arith);
        }
        let xx: i128 = (self.x.raw as i128) * (self.x.raw as i128);
        let yy: i128 = (self.y.raw as i128) * (self.y.raw as i128);
        let zz: i128 = (self.z.raw as i128) * (self.z.raw as i128);
        let m2: i128 = xx + yy + zz;
        let mr: u128 = isqrt_u128(m2 as u128);
        proof {
            assert(0 <= m2 as int);
            assert((m2 as u128) as int == m2 as int);
            assert(crate::fixed::is_sqrt(m2 as int, mr as int));
            lemma_is_sqrt_unique(m2 as int, mr as int);
            if mr == 0 {
                assert((m2 as int) < (0int + 1) * (0int + 1));
                assert(m2 as int == 0);
                assert((self.x.raw as int) * (self.x.raw as int) + (self.y.raw as int) * (
                self.y.raw as int) + (self.z.raw as int) * (self.z.raw as int) == 0);
                assert(self.x.raw as int == 0) by (nonlinear_arith)
                    requires
                        (self.x.raw as int) * (self.x.raw as int)
                            + (self.y.raw as int) * (self.y.raw as int)
                            + (self.z.raw as int) * (self.z.raw as int) == 0;
                assert(self.y.raw as int == 0) by (nonlinear_arith)
                    requires
                        (self.x.raw as int) * (self.x.raw as int)
                            + (self.y.raw as int) * (self.y.raw as int)
                            + (self.z.raw as int) * (self.z.raw as int) == 0;
                assert(self.z.raw as int == 0) by (nonlinear_arith)
                    requires
                        (self.x.raw as int) * (self.x.raw as int)
                            + (self.y.raw as int) * (self.y.raw as int)
                            + (self.z.raw as int) * (self.z.raw as int) == 0;
                assert(false);
            }
            assert(in_mag(self.x.raw as int, mr as int)) by (nonlinear_arith)
                requires
                    (self.x.raw as int) * (self.x.raw as int)
                        + (self.y.raw as int) * (self.y.raw as int)
                        + (self.z.raw as int) * (self.z.raw as int)
                        < ((mr as int) + 1) * ((mr as int) + 1),
                    0 <= mr as int;
            assert(in_mag(self.y.raw as int, mr as int)) by (nonlinear_arith)
                requires
                    (self.x.raw as int) * (self.x.raw as int)
                        + (self.y.raw as int) * (self.y.raw as int)
                        + (self.z.raw as int) * (self.z.raw as int)
                        < ((mr as int) + 1) * ((mr as int) + 1),
                    0 <= mr as int;
            assert(in_mag(self.z.raw as int, mr as int)) by (nonlinear_arith)
                requires
                    (self.x.raw as int) * (self.x.raw as int)
                        + (self.y.raw as int) * (self.y.raw as int)
                        + (self.z.raw as int) * (self.z.raw as int)
                        < ((mr as int) + 1) * ((mr as int) + 1),
                    0 <= mr as int;
            assert((mr as int) <= 2_000_000_000_000int) by (nonlinear_arith)
                requires
                    0 <= mr as int,
                    (mr as int) * (mr as int) <= m2 as int,
                    m2 as int <= 3_000_000_000_000_000_000_000_000int;
            lemma_mul_mag_bound(
                self.x.raw as int,
                magnitude.raw as int,
                COORD_LIMIT as int,
                COORD_LIMIT as int,
            );
            lemma_mul_mag_bound(
                self.y.raw as int,
                magnitude.raw as int,
                COORD_LIMIT as int,
                COORD_LIMIT as int,
            );
            lemma_mul_mag_bound(
                self.z.raw as int,
                magnitude.raw as int,
                COORD_LIMIT as int,
                COORD_LIMIT as int,
            );
            lemma_mul_mag_bound(self.x.raw as int, magnitude.raw as int, mr as int, COORD_LIMIT as int);
            lemma_mul_mag_bound(self.y.raw as int, magnitude.raw as int, mr as int, COORD_LIMIT as int);
            lemma_mul_mag_bound(self.z.raw as int, magnitude.raw as int, mr as int, COORD_LIMIT as int);
            assert(0 <= (mr as int) * (COORD_LIMIT as int)) by (nonlinear_arith)
                requires
                    0 <= mr as int,
                    0 <= COORD_LIMIT as int;
            lemma_tdiv_quotient_mag(
                (self.x.raw as int) * (magnitude.raw as int),
                mr as int,
                (mr as int) * (COORD_LIMIT as int),
            );
            lemma_tdiv_quotient_mag(
                (self.y.raw as int) * (magnitude.raw as int),
                mr as int,
                (mr as int) * (COORD_LIMIT as int),
            );
            lemma_tdiv_quotient_mag(
                (self.z.raw as int) * (magnitude.raw as int),
                mr as int,
                (mr as int) * (COORD_LIMIT as int),
            );
            lemma_div_multiples_vanish(COORD_LIMIT as int, mr as int);
            lemma_tdiv_remainder((self.x.raw as int) * (magnitude.raw as int), mr as int);
            lemma_tdiv_remainder((self.y.raw as int) * (magnitude.raw as int), mr as int);
            lemma_tdiv_remainder((self.z.raw as int) * (magnitude.raw as int), mr as int);
        }
        let nx: i128 = tdiv_i128((self.x.raw as i128) * (magnitude.raw as i128), mr as i128);
        let ny: i128 = tdiv_i128((self.y.raw as i128) * (magnitude.raw as i128), mr as i128);
        let nz: i128 = tdiv_i128((self.z.raw as i128) * (magnitude.raw as i128), mr as i128);
        Vec3 {
            x: Scalar { raw: nx as i64 },
            y: Scalar { raw: ny as i64 },
            z: Scalar { raw: nz as i64 },
        }
    }

    /// Rescale the vector to unit magnitude. The vector must not be the
    /// zero vector.
    ///
    /// Each component is the true quotient `comp * SCALE / m` rounded
    /// toward zero, so truncation error grows as the input shrinks; for
    /// inputs of magnitude at least one the result's squared magnitude
    /// is within the comparison tolerance of one (the last ensures).
    pub fn normalize(self) -> (r: Vec3)
        requires
            self.bounded(),
            self.x.raw != 0 || self.y.raw != 0 || self.z.raw != 0,
        ensures
            vraws(r) == scaled_raw(self, SCALE as int),
            in_mag(
                (r.x.raw as int) * mag_raw(self) - (self.x.raw as int) * (SCALE as int),
                mag_raw(self) - 1,
            ),
            in_mag(
                (r.y.raw as int) * mag_raw(self) - (self.y.raw as int) * (SCALE as int),
                mag_raw(self) - 1,
            ),
            in_mag(
                (r.z.raw as int) * mag_raw(self) - (self.z.raw as int) * (SCALE as int),
                mag_raw(self) - 1,
            ),
            mag_raw(self) >= SCALE as int ==> -(EPSILON as int) < dot3(vraws(r), vraws(r))
                - SCALE < EPSILON as int,
    {
        proof {
            if mag_raw(self) >= SCALE as int {
                lemma_normalize_magnitude(self);
            }
        }
        self.normalize_to(Scalar::one())
    }

    /// Whether two vectors agree, component by component, within the
    /// comparison tolerance.
    pub fn are_equal(v1: &Vec3, v2: &Vec3) -> (r: bool)
        requires
            fits_i64(v1.x.raw - v2.x.raw),
            fits_i64(v1.y.raw - v2.y.raw),
            fits_i64(v1.z.raw - v2.z.raw),
        ensures
            r == approx_eq(*v1, *v2),
    {
        let dx: i64 = v1.x.raw - v2.x.raw;
        let dy: i64 = v1.y.raw - v2.y.raw;
        let dz: i64 = v1.z.raw - v2.z.raw;
        dx > -EPSILON && dx < EPSILON && dy > -EPSILON && dy < EPSILON && dz > -EPSILON
            && dz < EPSILON
    }
}

impl Default for Vec3 {
    /// The zero vector.
    fn default() -> (r: Vec3)
        ensures
            vraws(r) == (0int, 0int, 0int),
    {
        Vec3 { x: Scalar { raw: 0 }, y: Scalar { raw: 0 }, z: Scalar { raw: 0 } }
    }
}

/// Fixed-point dot product of two vectors.
pub fn dot(v1: &Vec3, v2: &Vec3) -> (r: Scalar)
    requires
        v1.bounded(),
        v2.bounded(),
    ensures
        r.raw as int == dot3(vraws(*v1), vraws(*v2)),
{
    proof {
        lemma_mul_raw_in_mag(
            v1.x.raw as int,
            v2.x.raw as int,
            COORD_LIMIT as int,
            COORD_LIMIT as int,
        );
        lemma_mul_raw_in_mag(
            v1.y.raw as int,
            v2.y.raw as int,
            COORD_LIMIT as int,
            COORD_LIMIT as int,
        );
        lemma_mul_raw_in_mag(
            v1.z.raw as int,
            v2.z.raw as int,
            COORD_LIMIT as int,
            COORD_LIMIT as int,
        );
    }
    let mx: i64 = fx_mul(v1.x.raw, v2.x.raw);
    let my: i64 = fx_mul(v1.y.raw, v2.y.raw);
    let mz: i64 = fx_mul(v1.z.raw, v2.z.raw);
    Scalar { raw: mx + my + mz }
}

impl Scalar {
    /// Scalar-left multiplication: scale each component of a vector.
    pub fn mul(self, rhs: &Vec3) -> (r: Vec3)
        requires
            fits_i64(mul_raw(self.raw as int, rhs.x.raw as int)),
            fits_i64(mul_raw(self.raw as int, rhs.y.raw as int)),
            fits_i64(mul_raw(self.raw as int, rhs.z.raw as int)),
        ensures
            r.x.raw as int == mul_raw(self.raw as int, rhs.x.raw as int),
            r.y.raw as int == mul_raw(self.raw as int, rhs.y.raw as int),
            r.z.raw as int == mul_raw(self.raw as int, rhs.z.raw as int),
    {
        Vec3 {
            x: Scalar { raw: fx_mul(self.raw, rhs.x.raw) },
            y: Scalar { raw: fx_mul(self.raw, rhs.y.raw) },
            z: Scalar { raw: fx_mul(self.raw, rhs.z.raw) },
        }
    }
}

/// The dot product is symmetric.
pub proof fn lemma_dot_commutes(a: Vec3, b: Vec3)
    ensures
        dot3(vraws(a), vraws(b)) == dot3(vraws(b), vraws(a)),
{
    assert((a.x.raw as int) * (b.x.raw as int) == (b.x.raw as int) * (a.x.raw as int))
        by (nonlinear_arith);
    assert((a.y.raw as int) * (b.y.raw as int) == (b.y.raw as int) * (a.y.raw as int))
        by (nonlinear_arith);
    assert((a.z.raw as int) * (b.z.raw as int) == (b.z.raw as int) * (a.z.raw as int))
        by (nonlinear_arith);
}

/// The dot of a vector with itself is nonnegative, and is zero exactly
/// when every component is smaller than the square-product quantum (a
/// thousandth of a unit): such sub-quantum vectors are the only nonzero
/// ones truncation cannot tell from zero.
pub proof fn lemma_dot_self(v: Vec3)
    ensures
        0 <= dot3(vraws(v), vraws(v)),
        dot3(vraws(v), vraws(v)) == 0 <==> (in_mag(v.x.raw as int, 999) && in_mag(
            v.y.raw as int,
            999,
        ) && in_mag(v.z.raw as int, 999)),
{
    lemma_mul_raw_square(v.x.raw as int);
    lemma_mul_raw_square(v.y.raw as int);
    lemma_mul_raw_square(v.z.raw as int);
}

/// Scalar multiplication distributes over vector addition within two
/// raw units per component.
pub proof fn lemma_scalar_mul_distributes(s: Scalar, a: Vec3, b: Vec3)
    ensures
        in_mag(
            mul_raw(s.raw as int, a.x.raw + b.x.raw) - (mul_raw(s.raw as int, a.x.raw as int)
                + mul_raw(s.raw as int, b.x.raw as int)),
            2,
        ),
        in_mag(
            mul_raw(s.raw as int, a.y.raw + b.y.raw) - (mul_raw(s.raw as int, a.y.raw as int)
                + mul_raw(s.raw as int, b.y.raw as int)),
            2,
        ),
        in_mag(
            mul_raw(s.raw as int, a.z.raw + b.z.raw) - (mul_raw(s.raw as int, a.z.raw as int)
                + mul_raw(s.raw as int, b.z.raw as int)),
            2,
        ),
{
    lemma_mul_raw_distributes(s.raw as int, a.x.raw as int, b.x.raw as int);
    lemma_mul_raw_distributes(s.raw as int, a.y.raw as int, b.y.raw as int);
    lemma_mul_raw_distributes(s.raw as int, a.z.raw as int, b.z.raw as int);
}

/// Scalar multiplication composes within the comparison tolerance for
/// outer operands up to forty-five units: `(s * u) * a` agrees with
/// `s * (u * a)` componentwise within the tolerance. (For larger
/// operands the deviation grows with their magnitudes; see
/// `lemma_mul_raw_compose` for the exact bound.)
pub proof fn lemma_scalar_mul_composes(s: Scalar, u: Scalar, a: Vec3)
    requires
        in_mag(s.raw as int, 45 * (SCALE as int)),
        in_mag(a.x.raw as int, 45 * (SCALE as int)),
        in_mag(a.y.raw as int, 45 * (SCALE as int)),
        in_mag(a.z.raw as int, 45 * (SCALE as int)),
    ensures
        in_mag(
            mul_raw(mul_raw(s.raw as int, u.raw as int), a.x.raw as int) - mul_raw(
                s.raw as int,
                mul_raw(u.raw as int, a.x.raw as int),
            ),
            (EPSILON - 1) as int,
        ),
        in_mag(
            mul_raw(mul_raw(s.raw as int, u.raw as int), a.y.raw as int) - mul_raw(
                s.raw as int,
                mul_raw(u.raw as int, a.y.raw as int),
            ),
            (EPSILON - 1) as int,
        ),
        in_mag(
            mul_raw(mul_raw(s.raw as int, u.raw as int), a.z.raw as int) - mul_raw(
                s.raw as int,
                mul_raw(u.raw as int, a.z.raw as int),
            ),
            (EPSILON - 1) as int,
        ),
{
    let sc = SCALE as int;
    lemma_mul_raw_compose(s.raw as int, u.raw as int, a.x.raw as int);
    lemma_mul_raw_compose(s.raw as int, u.raw as int, a.y.raw as int);
    lemma_mul_raw_compose(s.raw as int, u.raw as int, a.z.raw as int);
    let dx = mul_raw(mul_raw(s.raw as int, u.raw as int), a.x.raw as int) - mul_raw(
        s.raw as int,
        mul_raw(u.raw as int, a.x.raw as int),
    );
    let dy = mul_raw(mul_raw(s.raw as int, u.raw as int), a.y.raw as int) - mul_raw(
        s.raw as int,
        mul_raw(u.raw as int, a.y.raw as int),
    );
    let dz = mul_raw(mul_raw(s.raw as int, u.raw as int), a.z.raw as int) - mul_raw(
        s.raw as int,
        mul_raw(u.raw as int, a.z.raw as int),
    );
    assert(in_mag(dx, 92)) by (nonlinear_arith)
        requires
            in_mag(dx * sc, 92 * sc),
            sc == 1_000_000;
    assert(in_mag(dy, 92)) by (nonlinear_arith)
        requires
            in_mag(dy * sc, 92 * sc),
            sc == 1_000_000;
    assert(in_mag(dz, 92)) by (nonlinear_arith)
        requires
            in_mag(dz * sc, 92 * sc),
            sc == 1_000_000;
}

/// Vector addition is commutative.
pub proof fn lemma_add_commutes(a: Vec3, b: Vec3)
    ensures
        tadd(vraws(a), vraws(b)) == tadd(vraws(b), vraws(a)),
{
}

/// Vector addition is associative (exactly, not merely within tolerance).
pub proof fn lemma_add_associates(a: Vec3, b: Vec3, c: Vec3)
    ensures
        tadd(tadd(vraws(a), vraws(b)), vraws(c)) == tadd(vraws(a), tadd(vraws(b), vraws(c))),
{
}

/// Approximate equality is reflexive.
pub proof fn lemma_approx_eq_refl(a: Vec3)
    ensures
        approx_eq(a, a),
{
}

/// Vectors whose components differ by more than the tolerance anywhere
/// are not approximately equal.
pub proof fn lemma_approx_eq_separates(a: Vec3, b: Vec3)
    requires
        mag_int(a.x.raw - b.x.raw) > EPSILON as int || mag_int(a.y.raw - b.y.raw) > EPSILON as int
            || mag_int(a.z.raw - b.z.raw) > EPSILON as int,
    ensures
        !approx_eq(a, b),
{
}

/// Normalizing an axis-aligned vector yields exactly the unit vector on
/// that axis, whose magnitude is exactly one.
pub proof fn lemma_normalize_axis(v: Vec3)
    requires
        v.y.raw == 0,
        v.z.raw == 0,
        v.x.raw != 0,
    ensures
        scaled_raw(v, SCALE as int) == (
            if v.x.raw > 0 {
                SCALE as int
            } else {
                -(SCALE as int)
            },
            0int,
            0int,
        ),
        sqrt_int(
            (SCALE as int) * (SCALE as int),
        ) == SCALE as int,
{
    let x = v.x.raw as int;
    let ax = mag_int(x);
    let s = SCALE as int;
    if x >= 0 {
        assert(ax == x);
        assert(x * s > 0) by (nonlinear_arith)
            requires
                x > 0,
                s > 0;
        lemma_div_multiples_vanish(s, x);
        assert(tdiv(x * s, ax) == s);
    } else {
        assert(ax == -x);
        assert((-x) * (-x) == x * x) by (nonlinear_arith);
        assert(x * s < 0) by (nonlinear_arith)
            requires
                x < 0,
                s > 0;
        assert((-x) * s == -(x * s)) by (nonlinear_arith);
        lemma_div_multiples_vanish(s, -x);
        assert(tdiv(x * s, ax) == -s);
    }
    assert(ax * ax == x * x);
    assert(ax * ax < (ax + 1) * (ax + 1)) by (nonlinear_arith)
        requires
            0 <= ax;
    assert(mag2_int(v) == x * x);
    lemma_is_sqrt_unique(x * x, ax);
    assert(mag_raw(v) == ax);
    assert(ax * 0 == 0) by (nonlinear_arith);
    lemma_div_multiples_vanish(0, ax);
    assert(tdiv(0int * s, ax) == 0int);
    assert(s * s < (s + 1) * (s + 1)) by (nonlinear_arith)
        requires
            0 <= s;
    lemma_is_sqrt_unique(s * s, s);
}

/// Normalizing any vector of magnitude at least one yields a vector
/// whose squared magnitude, as the dot product measures it, is within
/// the comparison tolerance of one. (Shorter vectors lose too much to
/// truncation for the tolerance to hold in general.)
pub proof fn lemma_normalize_magnitude(v: Vec3)
    requires
        mag_raw(v) >= SCALE as int,
    ensures
        -(EPSILON as int) < dot3(scaled_raw(v, SCALE as int), scaled_raw(v, SCALE as int)) - SCALE
            < EPSILON as int,
        ({
            let n = scaled_raw(v, SCALE as int);
            (SCALE as int) * (SCALE as int) - 6 * (SCALE as int) <= n.0 * n.0 + n.1 * n.1 + n.2
                * n.2 <= (SCALE as int) * (SCALE as int) + 8 * (SCALE as int) + 3
        }),
{
    let s = SCALE as int;
    let x0 = v.x.raw as int;
    let x1 = v.y.raw as int;
    let x2 = v.z.raw as int;
    let xx = mag2_int(v);
    assert(0 <= x0 * x0) by (nonlinear_arith);
    assert(0 <= x1 * x1) by (nonlinear_arith);
    assert(0 <= x2 * x2) by (nonlinear_arith);
    lemma_sqrt_exists(xx);
    let m = mag_raw(v);
    assert(m * m <= xx < (m + 1) * (m + 1));
    assert(1 <= m);
    // Each component is bounded by the magnitude.
    assert(in_mag(x0, m)) by (nonlinear_arith)
        requires
            x0 * x0 <= xx,
            0 <= x1 * x1,
            0 <= x2 * x2,
            xx == x0 * x0 + x1 * x1 + x2 * x2,
            xx < (m + 1) * (m + 1),
            0 <= m;
    assert(in_mag(x1, m)) by (nonlinear_arith)
        requires
            0 <= x0 * x0,
            0 <= x2 * x2,
            xx == x0 * x0 + x1 * x1 + x2 * x2,
            xx < (m + 1) * (m + 1),
            0 <= m;
    assert(in_mag(x2, m)) by (nonlinear_arith)
        requires
            0 <= x0 * x0,
            0 <= x1 * x1,
            xx == x0 * x0 + x1 * x1 + x2 * x2,
            xx < (m + 1) * (m + 1),
            0 <= m;
    // The normalized components and their division remainders.
    let n0 = tdiv(x0 * s, m);
    let n1 = tdiv(x1 * s, m);
    let n2 = tdiv(x2 * s, m);
    lemma_tdiv_remainder(x0 * s, m);
    lemma_tdiv_remainder(x1 * s, m);
    lemma_tdiv_remainder(x2 * s, m);
    let d0 = x0 * s - n0 * m;
    let d1 = x1 * s - n1 * m;
    let d2 = x2 * s - n2 * m;
    assert(in_mag(d0, m) && in_mag(d1, m) && in_mag(d2, m));
    // Squaring n_i * m == x_i * s - d_i, component by component.
    assert((n0 * m) * (n0 * m) == (n0 * n0) * (m * m)) by (nonlinear_arith);
    assert((n1 * m) * (n1 * m) == (n1 * n1) * (m * m)) by (nonlinear_arith);
    assert((n2 * m) * (n2 * m) == (n2 * n2) * (m * m)) by (nonlinear_arith);
    assert((x0 * s - d0) * (x0 * s - d0) == (s * s) * (x0 * x0) - 2 * s * (x0 * d0) + d0 * d0)
        by (nonlinear_arith);
    assert((x1 * s - d1) * (x1 * s - d1) == (s * s) * (x1 * x1) - 2 * s * (x1 * d1) + d1 * d1)
        by (nonlinear_arith);
    assert((x2 * s - d2) * (x2 * s - d2) == (s * s) * (x2 * x2) - 2 * s * (x2 * d2) + d2 * d2)
        by (nonlinear_arith);
    assert(n0 * m == x0 * s - d0);
    assert(n1 * m == x1 * s - d1);
    assert(n2 * m == x2 * s - d2);
    assert((n0 * n0) * (m * m) == (s * s) * (x0 * x0) - 2 * s * (x0 * d0) + d0 * d0);
    assert((n1 * n1) * (m * m) == (s * s) * (x1 * x1) - 2 * s * (x1 * d1) + d1 * d1);
    assert((n2 * n2) * (m * m) == (s * s) * (x2 * x2) - 2 * s * (x2 * d2) + d2 * d2);
    let pp = n0 * n0 + n1 * n1 + n2 * n2;
    let cross = x0 * d0 + x1 * d1 + x2 * d2;
    let dd = d0 * d0 + d1 * d1 + d2 * d2;
    assert(pp * (m * m) == (n0 * n0) * (m * m) + (n1 * n1) * (m * m) + (n2 * n2) * (m * m))
        by (nonlinear_arith)
        requires
            pp == n0 * n0 + n1 * n1 + n2 * n2;
    assert((s * s) * xx == (s * s) * (x0 * x0) + (s * s) * (x1 * x1) + (s * s) * (x2 * x2))
        by (nonlinear_arith)
        requires
            xx == x0 * x0 + x1 * x1 + x2 * x2;
    assert(2 * s * cross == 2 * s * (x0 * d0) + 2 * s * (x1 * d1) + 2 * s * (x2 * d2))
        by (nonlinear_arith)
        requires
            cross == x0 * d0 + x1 * d1 + x2 * d2;
    assert(pp * (m * m) == (s * s) * xx - 2 * s * cross + dd);
    // Bound the error terms.
    lemma_mul_mag_bound(x0, d0, m, m);
    lemma_mul_mag_bound(x1, d1, m, m);
    lemma_mul_mag_bound(x2, d2, m, m);
    lemma_mul_mag_bound(d0, d0, m, m);
    lemma_mul_mag_bound(d1, d1, m, m);
    lemma_mul_mag_bound(d2, d2, m, m);
    assert(in_mag(cross, 3 * (m * m)));
    assert(0 <= d0 * d0) by (nonlinear_arith);
    assert(0 <= d1 * d1) by (nonlinear_arith);
    assert(0 <= d2 * d2) by (nonlinear_arith);
    assert(0 <= dd <= 3 * (m * m));
    // Bound pp * m^2 from both sides, then cancel m^2.
    assert(xx <= m * m + 2 * m) by (nonlinear_arith)
        requires
            xx < (m + 1) * (m + 1);
    assert((s * s) * xx <= (s * s) * (m * m) + 2 * (s * s) * m) by (nonlinear_arith)
        requires
            xx <= m * m + 2 * m,
            m * m <= xx,
            0 < s;
    assert((s * s) * (m * m) <= (s * s) * xx) by (nonlinear_arith)
        requires
            m * m <= xx,
            0 < s;
    assert(2 * (s * s) * m <= 2 * s * (m * m)) by (nonlinear_arith)
        requires
            s <= m,
            0 < s;
    assert(2 * s * cross <= 6 * s * (m * m) && -(6 * s * (m * m)) <= 2 * s * cross)
        by (nonlinear_arith)
        requires
            in_mag(cross, 3 * (m * m)),
            0 < s;
    assert(pp * (m * m) <= (s * s) * (m * m) + 2 * s * (m * m) + 6 * s * (m * m) + 3 * (m * m));
    assert(pp * (m * m) >= (s * s) * (m * m) - 6 * s * (m * m));
    assert(pp <= s * s + 8 * s + 3) by (nonlinear_arith)
        requires
            pp * (m * m) <= (s * s) * (m * m) + 2 * s * (m * m) + 6 * s * (m * m) + 3 * (m
                * m),
            1 <= m;
    assert(s * s - 6 * s <= pp) by (nonlinear_arith)
        requires
            (s * s) * (m * m) - 6 * s * (m * m) <= pp * (m * m),
            1 <= m;
    // The dot product truncates each squared component once more.
    let q0 = tdiv(n0 * n0, s);
    let q1 = tdiv(n1 * n1, s);
    let q2 = tdiv(n2 * n2, s);
    lemma_tdiv_remainder(n0 * n0, s);
    lemma_tdiv_remainder(n1 * n1, s);
    lemma_tdiv_remainder(n2 * n2, s);
    assert(0 <= n0 * n0) by (nonlinear_arith);
    assert(0 <= n1 * n1) by (nonlinear_arith);
    assert(0 <= n2 * n2) by (nonlinear_arith);
    let dq = q0 + q1 + q2;
    assert(dq * s == pp - ((n0 * n0 - q0 * s) + (n1 * n1 - q1 * s) + (n2 * n2 - q2 * s)))
        by (nonlinear_arith)
        requires
            dq == q0 + q1 + q2,
            pp == n0 * n0 + n1 * n1 + n2 * n2;
    assert(pp - 3 * s < dq * s <= pp);
    assert(dq <= s + 8) by (nonlinear_arith)
        requires
            dq * s <= s * s + 8 * s + 3,
            s == 1_000_000;
    assert(s - 9 < dq) by (nonlinear_arith)
        requires
            s * s - 6 * s - 3 * s < dq * s,
            s == 1_000_000;
    assert(dot3(scaled_raw(v, s), scaled_raw(v, s)) == dq);
}

/// Rescaling a vector of magnitude at least one to a target magnitude
/// between one and forty-five units lands the result's magnitude within
/// 48 raw units of the target, inside the comparison tolerance.
pub proof fn lemma_normalize_to_magnitude(v: Vec3, g: Scalar)
    requires
        mag_raw(v) >= SCALE as int,
        SCALE as int <= mag_int(g.raw as int) <= 45 * (SCALE as int),
    ensures
        ({
            let n = scaled_raw(v, g.raw as int);
            in_mag(sqrt_int(n.0 * n.0 + n.1 * n.1 + n.2 * n.2) - mag_int(g.raw as int), 48)
        }),
{
    let s = SCALE as int;
    let gg = g.raw as int;
    let ag = mag_int(gg);
    let x0 = v.x.raw as int;
    let x1 = v.y.raw as int;
    let x2 = v.z.raw as int;
    let xx = mag2_int(v);
    assert(0 <= x0 * x0) by (nonlinear_arith);
    assert(0 <= x1 * x1) by (nonlinear_arith);
    assert(0 <= x2 * x2) by (nonlinear_arith);
    lemma_sqrt_exists(xx);
    let m = mag_raw(v);
    assert(m * m <= xx < (m + 1) * (m + 1));
    assert(1 <= m);
    assert(in_mag(x0, m)) by (nonlinear_arith)
        requires
            x0 * x0 <= xx,
            0 <= x1 * x1,
            0 <= x2 * x2,
            xx == x0 * x0 + x1 * x1 + x2 * x2,
            xx < (m + 1) * (m + 1),
            0 <= m;
    assert(in_mag(x1, m)) by (nonlinear_arith)
        requires
            0 <= x0 * x0,
            0 <= x2 * x2,
            xx == x0 * x0 + x1 * x1 + x2 * x2,
            xx < (m + 1) * (m + 1),
            0 <= m;
    assert(in_mag(x2, m)) by (nonlinear_arith)
        requires
            0 <= x0 * x0,
            0 <= x1 * x1,
            xx == x0 * x0 + x1 * x1 + x2 * x2,
            xx < (m + 1) * (m + 1),
            0 <= m;
    let n0 = tdiv(x0 * gg, m);
    let n1 = tdiv(x1 * gg, m);
    let n2 = tdiv(x2 * gg, m);
    lemma_tdiv_remainder(x0 * gg, m);
    lemma_tdiv_remainder(x1 * gg, m);
    lemma_tdiv_remainder(x2 * gg, m);
    let d0 = x0 * gg - n0 * m;
    let d1 = x1 * gg - n1 * m;
    let d2 = x2 * gg - n2 * m;
    assert(in_mag(d0, m) && in_mag(d1, m) && in_mag(d2, m));
    assert((n0 * m) * (n0 * m) == (n0 * n0) * (m * m)) by (nonlinear_arith);
    assert((n1 * m) * (n1 * m) == (n1 * n1) * (m * m)) by (nonlinear_arith);
    assert((n2 * m) * (n2 * m) == (n2 * n2) * (m * m)) by (nonlinear_arith);
    assert((x0 * gg - d0) * (x0 * gg - d0) == (gg * gg) * (x0 * x0) - 2 * gg * (x0 * d0) + d0 * d0)
        by (nonlinear_arith);
    assert((x1 * gg - d1) * (x1 * gg - d1) == (gg * gg) * (x1 * x1) - 2 * gg * (x1 * d1) + d1 * d1)
        by (nonlinear_arith);
    assert((x2 * gg - d2) * (x2 * gg - d2) == (gg * gg) * (x2 * x2) - 2 * gg * (x2 * d2) + d2 * d2)
        by (nonlinear_arith);
    assert(n0 * m == x0 * gg - d0);
    assert(n1 * m == x1 * gg - d1);
    assert(n2 * m == x2 * gg - d2);
    let pp = n0 * n0 + n1 * n1 + n2 * n2;
    let cross = x0 * d0 + x1 * d1 + x2 * d2;
    let dd = d0 * d0 + d1 * d1 + d2 * d2;
    assert(pp * (m * m) == (n0 * n0) * (m * m) + (n1 * n1) * (m * m) + (n2 * n2) * (m * m))
        by (nonlinear_arith)
        requires
            pp == n0 * n0 + n1 * n1 + n2 * n2;
    assert((gg * gg) * xx == (gg * gg) * (x0 * x0) + (gg * gg) * (x1 * x1) + (gg * gg) * (x2 * x2))
        by (nonlinear_arith)
        requires
            xx == x0 * x0 + x1 * x1 + x2 * x2;
    assert(2 * gg * cross == 2 * gg * (x0 * d0) + 2 * gg * (x1 * d1) + 2 * gg * (x2 * d2))
        by (nonlinear_arith)
        requires
            cross == x0 * d0 + x1 * d1 + x2 * d2;
    assert(pp * (m * m) == (gg * gg) * xx - 2 * gg * cross + dd);
    lemma_mul_mag_bound(x0, d0, m, m);
    lemma_mul_mag_bound(x1, d1, m, m);
    lemma_mul_mag_bound(x2, d2, m, m);
    lemma_mul_mag_bound(d0, d0, m, m);
    lemma_mul_mag_bound(d1, d1, m, m);
    lemma_mul_mag_bound(d2, d2, m, m);
    assert(in_mag(cross, 3 * (m * m)));
    assert(0 <= d0 * d0) by (nonlinear_arith);
    assert(0 <= d1 * d1) by (nonlinear_arith);
    assert(0 <= d2 * d2) by (nonlinear_arith);
    assert(0 <= dd <= 3 * (m * m));
    assert(xx <= m * m + 2 * m) by (nonlinear_arith)
        requires
            xx < (m + 1) * (m + 1);
    assert(gg * gg >= 0) by (nonlinear_arith);
    assert((gg * gg) * xx <= (gg * gg) * (m * m) + 2 * (gg * gg) * m) by (nonlinear_arith)
        requires
            xx <= m * m + 2 * m,
            m * m <= xx,
            gg * gg >= 0;
    assert((gg * gg) * (m * m) <= (gg * gg) * xx) by (nonlinear_arith)
        requires
            m * m <= xx,
            gg * gg >= 0;
    // The target is at most forty-five times the input magnitude.
    assert(ag <= 45 * m);
    assert(gg * gg == ag * ag) by (nonlinear_arith)
        requires
            ag == mag_int(gg);
    assert(2 * (gg * gg) * m <= 90 * ag * (m * m)) by (nonlinear_arith)
        requires
            gg * gg == ag * ag,
            ag <= 45 * m,
            0 <= ag,
            1 <= m;
    assert(2 * gg * cross <= 6 * ag * (m * m) && -(6 * ag * (m * m)) <= 2 * gg * cross)
        by (nonlinear_arith)
        requires
            in_mag(cross, 3 * (m * m)),
            in_mag(gg, ag),
            0 <= ag;
    assert(pp * (m * m) <= (gg * gg) * (m * m) + 90 * ag * (m * m) + 6 * ag * (m * m) + 3 * (m
        * m));
    assert(pp * (m * m) >= (gg * gg) * (m * m) - 6 * ag * (m * m));
    assert(pp <= gg * gg + 96 * ag + 3) by (nonlinear_arith)
        requires
            pp * (m * m) <= (gg * gg) * (m * m) + 90 * ag * (m * m) + 6 * ag * (m * m) + 3 * (m
                * m),
            1 <= m;
    assert(gg * gg - 6 * ag <= pp) by (nonlinear_arith)
        requires
            (gg * gg) * (m * m) - 6 * ag * (m * m) <= pp * (m * m),
            1 <= m;
    // Squeeze the square root of pp around the target magnitude.
    assert(0 <= pp) by (nonlinear_arith)
        requires
            gg * gg - 6 * ag <= pp,
            gg * gg == ag * ag,
            1_000_000 <= ag;
    lemma_sqrt_exists(pp);
    let rt = sqrt_int(pp);
    assert(rt * rt <= pp < (rt + 1) * (rt + 1));
    assert(rt >= ag - 4) by (nonlinear_arith)
        requires
            pp < (rt + 1) * (rt + 1),
            gg * gg - 6 * ag <= pp,
            gg * gg == ag * ag,
            1_000_000 <= ag,
            0 <= rt;
    assert(rt <= ag + 48) by (nonlinear_arith)
        requires
            rt * rt <= pp,
            pp <= gg * gg + 96 * ag + 3,
            gg * gg == ag * ag,
            1_000_000 <= ag,
            0 <= rt;
}

/// Normalizing is idempotent within five raw units per component: for
/// an input of magnitude at least one, normalizing the unit result `u`
/// again moves each component by at most five millionths, far inside
/// the comparison tolerance.
pub proof fn lemma_normalize_idempotent(v: Vec3, u: Vec3)
    requires
        mag_raw(v) >= SCALE as int,
        vraws(u) == scaled_raw(v, SCALE as int),
    ensures
        u.x.raw != 0 || u.y.raw != 0 || u.z.raw != 0,
        in_mag(scaled_raw(u, SCALE as int).0 - u.x.raw, 5),
        in_mag(scaled_raw(u, SCALE as int).1 - u.y.raw, 5),
        in_mag(scaled_raw(u, SCALE as int).2 - u.z.raw, 5),
{
    let s = SCALE as int;
    lemma_normalize_magnitude(v);
    let n0 = u.x.raw as int;
    let n1 = u.y.raw as int;
    let n2 = u.z.raw as int;
    let pp = n0 * n0 + n1 * n1 + n2 * n2;
    assert(s * s - 6 * s <= pp <= s * s + 8 * s + 3);
    assert(0 <= n0 * n0) by (nonlinear_arith);
    assert(0 <= n1 * n1) by (nonlinear_arith);
    assert(0 <= n2 * n2) by (nonlinear_arith);
    assert(s * s - 6 * s > 0) by (nonlinear_arith)
        requires
            s == 1_000_000;
    if n0 == 0 && n1 == 0 && n2 == 0 {
        assert(pp == 0) by (nonlinear_arith)
            requires
                n0 == 0,
                n1 == 0,
                n2 == 0,
                pp == n0 * n0 + n1 * n1 + n2 * n2;
        assert(false);
    }
    lemma_sqrt_exists(pp);
    let m = mag_raw(u);
    assert(mag2_int(u) == pp);
    assert(m * m <= pp < (m + 1) * (m + 1));
    // The unit vector's magnitude is within four raw units of SCALE.
    assert(m <= s + 4) by (nonlinear_arith)
        requires
            m * m <= pp,
            pp <= s * s + 8 * s + 3,
            0 <= m,
            s == 1_000_000;
    assert(m >= s - 4) by (nonlinear_arith)
        requires
            pp < (m + 1) * (m + 1),
            s * s - 6 * s <= pp,
            0 <= m,
            s == 1_000_000;
    assert(in_mag(n0, m)) by (nonlinear_arith)
        requires
            n0 * n0 <= pp,
            pp < (m + 1) * (m + 1),
            0 <= m;
    assert(in_mag(n1, m)) by (nonlinear_arith)
        requires
            n1 * n1 <= pp,
            pp < (m + 1) * (m + 1),
            0 <= m;
    assert(in_mag(n2, m)) by (nonlinear_arith)
        requires
            n2 * n2 <= pp,
            pp < (m + 1) * (m + 1),
            0 <= m;
    lemma_tdiv_remainder(n0 * s, m);
    lemma_tdiv_remainder(n1 * s, m);
    lemma_tdiv_remainder(n2 * s, m);
    let r0 = tdiv(n0 * s, m);
    let r1 = tdiv(n1 * s, m);
    let r2 = tdiv(n2 * s, m);
    // (r_i - n_i) * m == n_i * (s - m) - e_i with |e_i| < m, |s - m| <= 4.
    assert((r0 - n0) * m == n0 * s - (n0 * s - r0 * m) - n0 * m) by (nonlinear_arith);
    assert((r1 - n1) * m == n1 * s - (n1 * s - r1 * m) - n1 * m) by (nonlinear_arith);
    assert((r2 - n2) * m == n2 * s - (n2 * s - r2 * m) - n2 * m) by (nonlinear_arith);
    assert(n0 * s - n0 * m == n0 * (s - m)) by (nonlinear_arith);
    assert(n1 * s - n1 * m == n1 * (s - m)) by (nonlinear_arith);
    assert(n2 * s - n2 * m == n2 * (s - m)) by (nonlinear_arith);
    lemma_mul_mag_bound(n0, s - m, m, 4);
    lemma_mul_mag_bound(n1, s - m, m, 4);
    lemma_mul_mag_bound(n2, s - m, m, 4);
    assert(in_mag((r0 - n0) * m, 4 * m + m));
    assert(in_mag((r1 - n1) * m, 4 * m + m));
    assert(in_mag((r2 - n2) * m, 4 * m + m));
    assert(in_mag(r0 - n0, 5)) by (nonlinear_arith)
        requires
            in_mag((r0 - n0) * m, 5 * m),
            1 <= m;
    assert(in_mag(r1 - n1, 5)) by (nonlinear_arith)
        requires
            in_mag((r1 - n1) * m, 5 * m),
            1 <= m;
    assert(in_mag(r2 - n2, 5)) by (nonlinear_arith)
        requires
            in_mag((r2 - n2) * m, 5 * m),
            1 <= m;
}

/// A parametric ray: origin, direction, and a valid interval
/// `(min_t, max_t)` of the ray parameter.
#[derive(Clone, Copy, Debug, PartialEq, Eq, Structural)]
pub struct Ray3 {
    pub origin: Point3,
    pub direction: Vec3,
    pub min_t: Scalar,
    pub max_t: Scalar,
}

/// Raw components of the point `origin + t * direction`.
pub open spec fn eval_comps(o: (int, int, int), d: (int, int, int), t: int) -> (int, int, int) {
    (o.0 + mul_raw(t, d.0), o.1 + mul_raw(t, d.1), o.2 + mul_raw(t, d.2))
}

impl Ray3 {
    /// `t` lies strictly inside the ray's valid interval.
    pub open spec fn in_range_raw(self, t: int) -> bool {
        self.min_t.raw < t < self.max_t.raw
    }

    /// A ray from `origin` along `direction`, valid from a small positive
    /// epsilon (so a surface does not immediately re-intersect a ray it
    /// just spawned) to the infinity stand-in.
    pub fn new(origin: Point3, direction: Vec3) -> (r: Ray3)
        ensures
            r.origin == origin,
            r.direction == direction,
            r.min_t.raw == EPSILON,
            r.max_t.raw == i64::MAX,
    {
        Ray3 {
            origin,
            direction,
            min_t: Scalar { raw: EPSILON },
            max_t: Scalar { raw: i64::MAX },
        }
    }

    /// Whether `t` lies strictly between `min_t` and `max_t`.
    pub fn is_in_range(&self, t: Scalar) -> (r: bool)
        ensures
            r == self.in_range_raw(t.raw as int),
    {
        self.min_t.raw < t.raw && t.raw < self.max_t.raw
    }

    /// The point `origin + t * direction`; performs no range check.
    pub fn eval(&self, t: Scalar) -> (r: Point3)
        requires
            fits_i64(mul_raw(t.raw as int, self.direction.x.raw as int)),
            fits_i64(mul_raw(t.raw as int, self.direction.y.raw as int)),
            fits_i64(mul_raw(t.raw as int, self.direction.z.raw as int)),
            fits_i64(self.origin.x.raw + mul_raw(t.raw as int, self.direction.x.raw as int)),
            fits_i64(self.origin.y.raw + mul_raw(t.raw as int, self.direction.y.raw as int)),
            fits_i64(self.origin.z.raw + mul_raw(t.raw as int, self.direction.z.raw as int)),
        ensures
            vraws(r) == eval_comps(vraws(self.origin), vraws(self.direction), t.raw as int),
    {
        let sx: i64 = fx_mul(t.raw, self.direction.x.raw);
        let sy: i64 = fx_mul(t.raw, self.direction.y.raw);
        let sz: i64 = fx_mul(t.raw, self.direction.z.raw);
        Vec3 {
            x: Scalar { raw: self.origin.x.raw + sx },
            y: Scalar { raw: self.origin.y.raw + sy },
            z: Scalar { raw: self.origin.z.raw + sz },
        }
    }
}

/// A ray evaluated at parameter zero yields its origin exactly.
pub proof fn lemma_eval_at_zero(r: Ray3)
    ensures
        eval_comps(vraws(r.origin), vraws(r.direction), 0) == vraws(r.origin),
{
    lemma_mul_raw_zero(r.direction.x.raw as int);
    lemma_mul_raw_zero(r.direction.y.raw as int);
    lemma_mul_raw_zero(r.direction.z.raw as int);
}

/// Ray evaluation is additive over whole-number parameters (raw values
/// that are multiples of `SCALE`); truncation makes no error there.
pub proof fn lemma_eval_whole_additive(r: Ray3, k1: int, k2: int)
    ensures
        eval_comps(vraws(r.origin), vraws(r.direction), (k1 + k2) * (SCALE as int)) == tadd(
            eval_comps(vraws(r.origin), vraws(r.direction), k1 * (SCALE as int)),
            (
                mul_raw(k2 * (SCALE as int), r.direction.x.raw as int),
                mul_raw(k2 * (SCALE as int), r.direction.y.raw as int),
                mul_raw(k2 * (SCALE as int), r.direction.z.raw as int),
            ),
        ),
{
    let dx = r.direction.x.raw as int;
    let dy = r.direction.y.raw as int;
    let dz = r.direction.z.raw as int;
    lemma_mul_raw_whole(k1 + k2, dx);
    lemma_mul_raw_whole(k1 + k2, dy);
    lemma_mul_raw_whole(k1 + k2, dz);
    lemma_mul_raw_whole(k1, dx);
    lemma_mul_raw_whole(k1, dy);
    lemma_mul_raw_whole(k1, dz);
    lemma_mul_raw_whole(k2, dx);
    lemma_mul_raw_whole(k2, dy);
    lemma_mul_raw_whole(k2, dz);
    assert((k1 + k2) * dx == k1 * dx + k2 * dx) by (nonlinear_arith);
    assert((k1 + k2) * dy == k1 * dy + k2 * dy) by (nonlinear_arith);
    assert((k1 + k2) * dz == k1 * dz + k2 * dz) by (nonlinear_arith);
}

/// A 4x4 homogeneous transform matrix, row-major, acting on column
/// vectors. Points receive the full affine action, free vectors only the
/// linear part.
#[derive(Clone, Copy, Debug, PartialEq, Eq, Structural)]
pub struct Matrix4 {
    pub m00: Scalar,
    pub m01: Scalar,
    pub m02: Scalar,
    pub m03: Scalar,
    pub m10: Scalar,
    pub m11: Scalar,
    pub m12: Scalar,
    pub m13: Scalar,
    pub m20: Scalar,
    pub m21: Scalar,
    pub m22: Scalar,
    pub m23: Scalar,
    pub m30: Scalar,
    pub m31: Scalar,
    pub m32: Scalar,
    pub m33: Scalar,
}

/// Raw components of the affine action of `m` on the point `p`.
pub open spec fn tp_raw(m: Matrix4, p: (int, int, int)) -> (int, int, int) {
    (
        mul_raw(m.m00.raw as int, p.0) + mul_raw(m.m01.raw as int, p.1) + mul_raw(
            m.m02.raw as int,
            p.2,
        ) + m.m03.raw,
        mul_raw(m.m10.raw as int, p.0) + mul_raw(m.m11.raw as int, p.1) + mul_raw(
            m.m12.raw as int,
            p.2,
        ) + m.m13.raw,
        mul_raw(m.m20.raw as int, p.0) + mul_raw(m.m21.raw as int, p.1) + mul_raw(
            m.m22.raw as int,
            p.2,
        ) + m.m23.raw,
    )
}

/// Raw components of the linear action of `m` on the free vector `u`:
/// the translation column does not apply.
pub open spec fn tv_raw(m: Matrix4, u: (int, int, int)) -> (int, int, int) {
    (
        mul_raw(m.m00.raw as int, u.0) + mul_raw(m.m01.raw as int, u.1) + mul_raw(
            m.m02.raw as int,
            u.2,
        ),
        mul_raw(m.m10.raw as int, u.0) + mul_raw(m.m11.raw as int, u.1) + mul_raw(
            m.m12.raw as int,
            u.2,
        ),
        mul_raw(m.m20.raw as int, u.0) + mul_raw(m.m21.raw as int, u.1) + mul_raw(
            m.m22.raw as int,
            u.2,
        ),
    )
}

/// `m` is an affine matrix: its bottom row is `(0, 0, 0, 1)`.
pub open spec fn is_affine(m: Matrix4) -> bool {
    m.m30.raw == 0 && m.m31.raw == 0 && m.m32.raw == 0 && m.m33.raw == SCALE
}

/// Every entry of `m` lies within the given raw magnitude.
pub open spec fn mat_in_mag(m: Matrix4, b: int) -> bool {
    &&& in_mag(m.m00.raw as int, b) && in_mag(m.m01.raw as int, b) && in_mag(
        m.m02.raw as int,
        b,
    ) && in_mag(m.m03.raw as int, b)
    &&& in_mag(m.m10.raw as int, b) && in_mag(m.m11.raw as int, b) && in_mag(
        m.m12.raw as int,
        b,
    ) && in_mag(m.m13.raw as int, b)
    &&& in_mag(m.m20.raw as int, b) && in_mag(m.m21.raw as int, b) && in_mag(
        m.m22.raw as int,
        b,
    ) && in_mag(m.m23.raw as int, b)
    &&& in_mag(m.m30.raw as int, b) && in_mag(m.m31.raw as int, b) && in_mag(
        m.m32.raw as int,
        b,
    ) && in_mag(m.m33.raw as int, b)
}

/// `m` translates by `t`: identity linear part, translation column `t`.
pub open spec fn is_translation(m: Matrix4, t: (int, int, int)) -> bool {
    &&& m.m00.raw == SCALE && m.m01.raw == 0 && m.m02.raw == 0 && m.m03.raw == t.0
    &&& m.m10.raw == 0 && m.m11.raw == SCALE && m.m12.raw == 0 && m.m13.raw == t.1
    &&& m.m20.raw == 0 && m.m21.raw == 0 && m.m22.raw == SCALE && m.m23.raw == t.2
    &&& is_affine(m)
}

/// One affine row applied to a point: three products plus the translation
/// entry.
fn row_point(a: i64, b: i64, c: i64, d: i64, x: i64, y: i64, z: i64) -> (r: i64)
    requires
        in_mag(a as int, COORD_LIMIT as int),
        in_mag(b as int, COORD_LIMIT as int),
        in_mag(c as int, COORD_LIMIT as int),
        in_mag(d as int, COORD_LIMIT as int),
        in_mag(x as int, COORD_LIMIT as int),
        in_mag(y as int, COORD_LIMIT as int),
        in_mag(z as int, COORD_LIMIT as int),
    ensures
        r as int == mul_raw(a as int, x as int) + mul_raw(b as int, y as int) + mul_raw(
            c as int,
            z as int,
        ) + d,
{
    proof {
        lemma_mul_raw_in_mag(a as int, x as int, COORD_LIMIT as int, COORD_LIMIT as int);
        lemma_mul_raw_in_mag(b as int, y as int, COORD_LIMIT as int, COORD_LIMIT as int);
        lemma_mul_raw_in_mag(c as int, z as int, COORD_LIMIT as int, COORD_LIMIT as int);
    }
    fx_mul(a, x) + fx_mul(b, y) + fx_mul(c, z) + d
}

/// One matrix row applied to a free vector: three products, no
/// translation.
fn row_vector(a: i64, b: i64, c: i64, x: i64, y: i64, z: i64) -> (r: i64)
    requires
        in_mag(a as int, COORD_LIMIT as int),
        in_mag(b as int, COORD_LIMIT as int),
        in_mag(c as int, COORD_LIMIT as int),
        in_mag(x as int, COORD_LIMIT as int),
        in_mag(y as int, COORD_LIMIT as int),
        in_mag(z as int, COORD_LIMIT as int),
    ensures
        r as int == mul_raw(a as int, x as int) + mul_raw(b as int, y as int) + mul_raw(
            c as int,
            z as int,
        ),
{
    proof {
        lemma_mul_raw_in_mag(a as int, x as int, COORD_LIMIT as int, COORD_LIMIT as int);
        lemma_mul_raw_in_mag(b as int, y as int, COORD_LIMIT as int, COORD_LIMIT as int);
        lemma_mul_raw_in_mag(c as int, z as int, COORD_LIMIT as int, COORD_LIMIT as int);
    }
    fx_mul(a, x) + fx_mul(b, y) + fx_mul(c, z)
}

impl Matrix4 {
    /// The identity matrix.
    pub open spec fn identity_spec() -> Matrix4 {
        Matrix4 {
            m00: Scalar { raw: SCALE },
            m01: Scalar { raw: 0 },
            m02: Scalar { raw: 0 },
            m03: Scalar { raw: 0 },
            m10: Scalar { raw: 0 },
            m11: Scalar { raw: SCALE },
            m12: Scalar { raw: 0 },
            m13: Scalar { raw: 0 },
            m20: Scalar { raw: 0 },
            m21: Scalar { raw: 0 },
            m22: Scalar { raw: SCALE },
            m23: Scalar { raw: 0 },
            m30: Scalar { raw: 0 },
            m31: Scalar { raw: 0 },
            m32: Scalar { raw: 0 },
            m33: Scalar { raw: SCALE },
        }
    }

    /// The identity matrix.
    pub fn identity() -> (r: Matrix4)
        ensures
            r == Matrix4::identity_spec(),
    {
        Matrix4 {
            m00: Scalar { raw: SCALE },
            m01: Scalar { raw: 0 },
            m02: Scalar { raw: 0 },
            m03: Scalar { raw: 0 },
            m10: Scalar { raw: 0 },
            m11: Scalar { raw: SCALE },
            m12: Scalar { raw: 0 },
            m13: Scalar { raw: 0 },
            m20: Scalar { raw: 0 },
            m21: Scalar { raw: 0 },
            m22: Scalar { raw: SCALE },
            m23: Scalar { raw: 0 },
            m30: Scalar { raw: 0 },
            m31: Scalar { raw: 0 },
            m32: Scalar { raw: 0 },
            m33: Scalar { raw: SCALE },
        }
    }

    /// A translation by the given vector.
    pub fn translation(v: &Vec3) -> (r: Matrix4)
        ensures
            is_translation(r, vraws(*v)),
    {
        Matrix4 {
            m00: Scalar { raw: SCALE },
            m01: Scalar { raw: 0 },
            m02: Scalar { raw: 0 },
            m03: v.x,
            m10: Scalar { raw: 0 },
            m11: Scalar { raw: SCALE },
            m12: Scalar { raw: 0 },
            m13: v.y,
            m20: Scalar { raw: 0 },
            m21: Scalar { raw: 0 },
            m22: Scalar { raw: SCALE },
            m23: v.z,
            m30: Scalar { raw: 0 },
            m31: Scalar { raw: 0 },
            m32: Scalar { raw: 0 },
            m33: Scalar { raw: SCALE },
        }
    }

    /// A uniform scaling of the linear part by the given factor.
    pub fn scaling(s: Scalar) -> (r: Matrix4)
        ensures
            r.m00 == s && r.m11 == s && r.m22 == s,
            r.m01.raw == 0 && r.m02.raw == 0 && r.m03.raw == 0,
            r.m10.raw == 0 && r.m12.raw == 0 && r.m13.raw == 0,
            r.m20.raw == 0 && r.m21.raw == 0 && r.m23.raw == 0,
            is_affine(r),
    {
        Matrix4 {
            m00: s,
            m01: Scalar { raw: 0 },
            m02: Scalar { raw: 0 },
            m03: Scalar { raw: 0 },
            m10: Scalar { raw: 0 },
            m11: s,
            m12: Scalar { raw: 0 },
            m13: Scalar { raw: 0 },
            m20: Scalar { raw: 0 },
            m21: Scalar { raw: 0 },
            m22: s,
            m23: Scalar { raw: 0 },
            m30: Scalar { raw: 0 },
            m31: Scalar { raw: 0 },
            m32: Scalar { raw: 0 },
            m33: Scalar { raw: SCALE },
        }
    }

    /// Apply the full affine transform (translation included) to a point.
    pub fn transform_point(&self, point: &Point3) -> (r: Point3)
        requires
            mat_in_mag(*self, COORD_LIMIT as int),
            is_affine(*self),
            point.bounded(),
        ensures
            vraws(r) == tp_raw(*self, vraws(*point)),
    {
        let rx: i64 = row_point(
            self.m00.raw,
            self.m01.raw,
            self.m02.raw,
            self.m03.raw,
            point.x.raw,
            point.y.raw,
            point.z.raw,
        );
        let ry: i64 = row_point(
            self.m10.raw,
            self.m11.raw,
            self.m12.raw,
            self.m13.raw,
            point.x.raw,
            point.y.raw,
            point.z.raw,
        );
        let rz: i64 = row_point(
            self.m20.raw,
            self.m21.raw,
            self.m22.raw,
            self.m23.raw,
            point.x.raw,
            point.y.raw,
            point.z.raw,
        );
        Vec3 { x: Scalar { raw: rx }, y: Scalar { raw: ry }, z: Scalar { raw: rz } }
    }

    /// Apply only the linear part (no translation) to a free vector.
    pub fn transform_vector(&self, vector: &Vec3) -> (r: Vec3)
        requires
            mat_in_mag(*self, COORD_LIMIT as int),
            vector.bounded(),
        ensures
            vraws(r) == tv_raw(*self, vraws(*vector)),
    {
        let rx: i64 = row_vector(
            self.m00.raw,
            self.m01.raw,
            self.m02.raw,
            vector.x.raw,
            vector.y.raw,
            vector.z.raw,
        );
        let ry: i64 = row_vector(
            self.m10.raw,
            self.m11.raw,
            self.m12.raw,
            vector.x.raw,
            vector.y.raw,
            vector.z.raw,
        );
        let rz: i64 = row_vector(
            self.m20.raw,
            self.m21.raw,
            self.m22.raw,
            vector.x.raw,
            vector.y.raw,
            vector.z.raw,
        );
        Vec3 { x: Scalar { raw: rx }, y: Scalar { raw: ry }, z: Scalar { raw: rz } }
    }
}

impl Default for Matrix4 {
    /// The identity matrix.
    fn default() -> (r: Matrix4)
        ensures
            r == Matrix4::identity_spec(),
    {
        Matrix4::identity()
    }
}

/// The linear action on free vectors is additive within six raw units
/// per component: transforming a sum and summing the transforms differ
/// only by the roundings of the nine products involved.
pub proof fn lemma_transform_vector_additive(m: Matrix4, a: (int, int, int), b: (int, int, int))
    ensures
        in_mag(tv_raw(m, tadd(a, b)).0 - (tv_raw(m, a).0 + tv_raw(m, b).0), 6),
        in_mag(tv_raw(m, tadd(a, b)).1 - (tv_raw(m, a).1 + tv_raw(m, b).1), 6),
        in_mag(tv_raw(m, tadd(a, b)).2 - (tv_raw(m, a).2 + tv_raw(m, b).2), 6),
{
    lemma_mul_raw_distributes(m.m00.raw as int, a.0, b.0);
    lemma_mul_raw_distributes(m.m01.raw as int, a.1, b.1);
    lemma_mul_raw_distributes(m.m02.raw as int, a.2, b.2);
    lemma_mul_raw_distributes(m.m10.raw as int, a.0, b.0);
    lemma_mul_raw_distributes(m.m11.raw as int, a.1, b.1);
    lemma_mul_raw_distributes(m.m12.raw as int, a.2, b.2);
    lemma_mul_raw_distributes(m.m20.raw as int, a.0, b.0);
    lemma_mul_raw_distributes(m.m21.raw as int, a.1, b.1);
    lemma_mul_raw_distributes(m.m22.raw as int, a.2, b.2);
}

/// One matrix row applied to a pre-scaled vector differs from scaling
/// the applied row by at most 85 raw units, for bounded entries and
/// scalar.
proof fn lemma_row_homogeneous(c0: int, c1: int, c2: int, s: int, u0: int, u1: int, u2: int)
    requires
        in_mag(c0, 15 * (SCALE as int)),
        in_mag(c1, 15 * (SCALE as int)),
        in_mag(c2, 15 * (SCALE as int)),
        in_mag(s, 10 * (SCALE as int)),
    ensures
        in_mag(
            (mul_raw(c0, mul_raw(s, u0)) + mul_raw(c1, mul_raw(s, u1)) + mul_raw(
                c2,
                mul_raw(s, u2),
            )) - mul_raw(s, mul_raw(c0, u0) + mul_raw(c1, u1) + mul_raw(c2, u2)),
            85,
        ),
{
    let sc = SCALE as int;
    assert(c0 * mul_raw(s, u0) == mul_raw(s, u0) * c0) by (nonlinear_arith);
    assert(c1 * mul_raw(s, u1) == mul_raw(s, u1) * c1) by (nonlinear_arith);
    assert(c2 * mul_raw(s, u2) == mul_raw(s, u2) * c2) by (nonlinear_arith);
    assert(u0 * c0 == c0 * u0) by (nonlinear_arith);
    assert(u1 * c1 == c1 * u1) by (nonlinear_arith);
    assert(u2 * c2 == c2 * u2) by (nonlinear_arith);
    lemma_mul_raw_compose(s, u0, c0);
    lemma_mul_raw_compose(s, u1, c1);
    lemma_mul_raw_compose(s, u2, c2);
    let a0 = mul_raw(c0, mul_raw(s, u0)) - mul_raw(s, mul_raw(c0, u0));
    let a1 = mul_raw(c1, mul_raw(s, u1)) - mul_raw(s, mul_raw(c1, u1));
    let a2 = mul_raw(c2, mul_raw(s, u2)) - mul_raw(s, mul_raw(c2, u2));
    assert(in_mag(a0 * sc, 27 * sc));
    assert(in_mag(a1 * sc, 27 * sc));
    assert(in_mag(a2 * sc, 27 * sc));
    let t0 = mul_raw(c0, u0);
    let t1 = mul_raw(c1, u1);
    let t2 = mul_raw(c2, u2);
    lemma_mul_raw_distributes(s, t0 + t1, t2);
    lemma_mul_raw_distributes(s, t0, t1);
    let b = (mul_raw(s, t0) + mul_raw(s, t1) + mul_raw(s, t2)) - mul_raw(s, t0 + t1 + t2);
    assert(in_mag(b, 4));
    let d = (mul_raw(c0, mul_raw(s, u0)) + mul_raw(c1, mul_raw(s, u1)) + mul_raw(
        c2,
        mul_raw(s, u2),
    )) - mul_raw(s, t0 + t1 + t2);
    assert(d == a0 + a1 + a2 + b);
    assert(in_mag(d * sc, 85 * sc));
    assert(in_mag(d, 85)) by (nonlinear_arith)
        requires
            in_mag(d * sc, 85 * sc),
            sc == 1_000_000;
}

/// The linear action commutes with scalar multiplication within the
/// comparison tolerance, for matrix entries up to fifteen units and
/// scalars up to ten: transforming the scaled vector agrees with
/// scaling the transformed vector componentwise within the tolerance.
/// (The deviation grows with the entries and the scalar; see
/// `lemma_mul_raw_compose` for the underlying exact bound.)
pub proof fn lemma_transform_vector_homogeneous(m: Matrix4, s: Scalar, u: (int, int, int))
    requires
        in_mag(m.m00.raw as int, 15 * (SCALE as int)),
        in_mag(m.m01.raw as int, 15 * (SCALE as int)),
        in_mag(m.m02.raw as int, 15 * (SCALE as int)),
        in_mag(m.m10.raw as int, 15 * (SCALE as int)),
        in_mag(m.m11.raw as int, 15 * (SCALE as int)),
        in_mag(m.m12.raw as int, 15 * (SCALE as int)),
        in_mag(m.m20.raw as int, 15 * (SCALE as int)),
        in_mag(m.m21.raw as int, 15 * (SCALE as int)),
        in_mag(m.m22.raw as int, 15 * (SCALE as int)),
        in_mag(s.raw as int, 10 * (SCALE as int)),
    ensures
        in_mag(
            tv_raw(
                m,
                (
                    mul_raw(s.raw as int, u.0),
                    mul_raw(s.raw as int, u.1),
                    mul_raw(s.raw as int, u.2),
                ),
            ).0 - mul_raw(s.raw as int, tv_raw(m, u).0),
            (EPSILON - 1) as int,
        ),
        in_mag(
            tv_raw(
                m,
                (
                    mul_raw(s.raw as int, u.0),
                    mul_raw(s.raw as int, u.1),
                    mul_raw(s.raw as int, u.2),
                ),
            ).1 - mul_raw(s.raw as int, tv_raw(m, u).1),
            (EPSILON - 1) as int,
        ),
        in_mag(
            tv_raw(
                m,
                (
                    mul_raw(s.raw as int, u.0),
                    mul_raw(s.raw as int, u.1),
                    mul_raw(s.raw as int, u.2),
                ),
            ).2 - mul_raw(s.raw as int, tv_raw(m, u).2),
            (EPSILON - 1) as int,
        ),
{
    lemma_row_homogeneous(
        m.m00.raw as int,
        m.m01.raw as int,
        m.m02.raw as int,
        s.raw as int,
        u.0,
        u.1,
        u.2,
    );
    lemma_row_homogeneous(
        m.m10.raw as int,
        m.m11.raw as int,
        m.m12.raw as int,
        s.raw as int,
        u.0,
        u.1,
        u.2,
    );
    lemma_row_homogeneous(
        m.m20.raw as int,
        m.m21.raw as int,
        m.m22.raw as int,
        s.raw as int,
        u.0,
        u.1,
        u.2,
    );
}

} // verus!
