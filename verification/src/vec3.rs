//! Three-component vectors over fixed-point scalars.
//!
//! A `Vec3` is a point, a direction or an RGB color, depending on context,
//! exactly as in the renderer's data model. Every operation is pinned to a
//! componentwise specification over the exact fixed-point arithmetic of
//! `crate::fixed`.

use vstd::prelude::*;
use crate::fixed::{fp_mul, fp_div, fp_sqrt, fp_mul_s, fp_div_s, sqrt_s, lemma_fp_mul_bound};

verus! {

#[derive(Clone, Copy, Debug, PartialEq, Eq, Structural)]
pub struct Vec3 {
    pub x: i64,
    pub y: i64,
    pub z: i64,
}

/// Every component of `v` has magnitude at most `b`.
pub open spec fn in_range(v: Vec3, b: int) -> bool {
    &&& -b <= v.x <= b
    &&& -b <= v.y <= b
    &&& -b <= v.z <= b
}

/// Fixed-point cross product, componentwise.
pub open spec fn cross_s(a: Vec3, b: Vec3) -> Vec3 {
    Vec3 {
        x: (fp_mul_s(a.y as int, b.z as int) - fp_mul_s(a.z as int, b.y as int)) as i64,
        y: (fp_mul_s(a.z as int, b.x as int) - fp_mul_s(a.x as int, b.z as int)) as i64,
        z: (fp_mul_s(a.x as int, b.y as int) - fp_mul_s(a.y as int, b.x as int)) as i64,
    }
}

/// Fixed-point dot product: the sum of the floored componentwise products.
pub open spec fn dot_s(a: Vec3, b: Vec3) -> int {
    fp_mul_s(a.x as int, b.x as int) + fp_mul_s(a.y as int, b.y as int) + fp_mul_s(
        a.z as int,
        b.z as int,
    )
}

/// Bound under which all vector products fit comfortably in an `i64`.
pub open spec fn vec_op_bound() -> int {
    0x40_0000_0000
}

impl Vec3 {
    pub fn new(x: i64, y: i64, z: i64) -> (r: Vec3)
        ensures
            r == (Vec3 { x, y, z }),
    {
        Vec3 { x, y, z }
    }

    pub fn x(&self) -> (r: i64)
        ensures
            r == self.x,
    {
        self.x
    }

    pub fn y(&self) -> (r: i64)
        ensures
            r == self.y,
    {
        self.y
    }

    pub fn z(&self) -> (r: i64)
        ensures
            r == self.z,
    {
        self.z
    }

    pub fn r(&self) -> (r: i64)
        ensures
            r == self.x,
    {
        self.x
    }

    pub fn g(&self) -> (r: i64)
        ensures
            r == self.y,
    {
        self.y
    }

    pub fn b(&self) -> (r: i64)
        ensures
            r == self.z,
    {
        self.z
    }

    /// Componentwise sum.
    pub fn add(&self, other: &Vec3) -> (r: Vec3)
        requires
            i64::MIN <= self.x + other.x <= i64::MAX,
            i64::MIN <= self.y + other.y <= i64::MAX,
            i64::MIN <= self.z + other.z <= i64::MAX,
        ensures
            r.x == self.x + other.x,
            r.y == self.y + other.y,
            r.z == self.z + other.z,
    {
        Vec3 { x: self.x + other.x, y: self.y + other.y, z: self.z + other.z }
    }

    /// Componentwise difference.
    pub fn sub(&self, other: &Vec3) -> (r: Vec3)
        requires
            i64::MIN <= self.x - other.x <= i64::MAX,
            i64::MIN <= self.y - other.y <= i64::MAX,
            i64::MIN <= self.z - other.z <= i64::MAX,
        ensures
            r.x == self.x - other.x,
            r.y == self.y - other.y,
            r.z == self.z - other.z,
    {
        Vec3 { x: self.x - other.x, y: self.y - other.y, z: self.z - other.z }
    }

    /// Componentwise negation.
    pub fn neg(&self) -> (r: Vec3)
        requires
            self.x != i64::MIN,
            self.y != i64::MIN,
            self.z != i64::MIN,
        ensures
            r.x == -self.x,
            r.y == -self.y,
            r.z == -self.z,
    {
        Vec3 { x: -self.x, y: -self.y, z: -self.z }
    }

    /// Multiplication by a fixed-point scalar.
    pub fn scale(&self, s: i64) -> (r: Vec3)
        requires
            i64::MIN <= fp_mul_s(s as int, self.x as int) <= i64::MAX,
            i64::MIN <= fp_mul_s(s as int, self.y as int) <= i64::MAX,
            i64::MIN <= fp_mul_s(s as int, self.z as int) <= i64::MAX,
        ensures
            r.x == fp_mul_s(s as int, self.x as int),
            r.y == fp_mul_s(s as int, self.y as int),
            r.z == fp_mul_s(s as int, self.z as int),
    {
        Vec3 { x: fp_mul(s, self.x), y: fp_mul(s, self.y), z: fp_mul(s, self.z) }
    }

    /// Componentwise (Hadamard) fixed-point product.
    pub fn mul(&self, other: &Vec3) -> (r: Vec3)
        requires
            i64::MIN <= fp_mul_s(self.x as int, other.x as int) <= i64::MAX,
            i64::MIN <= fp_mul_s(self.y as int, other.y as int) <= i64::MAX,
            i64::MIN <= fp_mul_s(self.z as int, other.z as int) <= i64::MAX,
        ensures
            r.x == fp_mul_s(self.x as int, other.x as int),
            r.y == fp_mul_s(self.y as int, other.y as int),
            r.z == fp_mul_s(self.z as int, other.z as int),
    {
        Vec3 { x: fp_mul(self.x, other.x), y: fp_mul(self.y, other.y), z: fp_mul(self.z, other.z) }
    }

    /// Fixed-point dot product.
    pub fn dot(&self, other: &Vec3) -> (r: i64)
        requires
            in_range(*self, vec_op_bound()),
            in_range(*other, vec_op_bound()),
        ensures
            r == dot_s(*self, *other),
    {
        proof {
            lemma_fp_mul_bound(self.x as int, other.x as int, vec_op_bound(), vec_op_bound());
            lemma_fp_mul_bound(self.y as int, other.y as int, vec_op_bound(), vec_op_bound());
            lemma_fp_mul_bound(self.z as int, other.z as int, vec_op_bound(), vec_op_bound());
        }
        fp_mul(self.x, other.x) + fp_mul(self.y, other.y) + fp_mul(self.z, other.z)
    }

    /// Fixed-point cross product.
    pub fn cross(&self, other: &Vec3) -> (r: Vec3)
        requires
            in_range(*self, vec_op_bound()),
            in_range(*other, vec_op_bound()),
        ensures
            r == cross_s(*self, *other),
            r.x == fp_mul_s(self.y as int, other.z as int) - fp_mul_s(
                self.z as int,
                other.y as int,
            ),
            r.y == fp_mul_s(self.z as int, other.x as int) - fp_mul_s(
                self.x as int,
                other.z as int,
            ),
            r.z == fp_mul_s(self.x as int, other.y as int) - fp_mul_s(
                self.y as int,
                other.x as int,
            ),
    {
        proof {
            lemma_fp_mul_bound(self.y as int, other.z as int, vec_op_bound(), vec_op_bound());
            lemma_fp_mul_bound(self.z as int, other.y as int, vec_op_bound(), vec_op_bound());
            lemma_fp_mul_bound(self.z as int, other.x as int, vec_op_bound(), vec_op_bound());
            lemma_fp_mul_bound(self.x as int, other.z as int, vec_op_bound(), vec_op_bound());
            lemma_fp_mul_bound(self.x as int, other.y as int, vec_op_bound(), vec_op_bound());
            lemma_fp_mul_bound(self.y as int, other.x as int, vec_op_bound(), vec_op_bound());
        }
        let x = fp_mul(self.y, other.z) - fp_mul(self.z, other.y);
        let y = fp_mul(self.z, other.x) - fp_mul(self.x, other.z);
        let z = fp_mul(self.x, other.y) - fp_mul(self.y, other.x);
        Vec3 { x, y, z }
    }

    /// Squared length, as a fixed-point scalar. Never negative.
    pub fn square_length(&self) -> (r: i64)
        requires
            in_range(*self, vec_op_bound()),
        ensures
            r == dot_s(*self, *self),
            r >= 0,
    {
        proof {
            lemma_dot_self_nonneg(*self);
        }
        self.dot(self)
    }

    /// Length: the fixed-point square root of the squared length.
    pub fn length(&self) -> (r: i64)
        requires
            in_range(*self, vec_op_bound()),
        ensures
            r == sqrt_s(dot_s(*self, *self) * 65536),
            crate::fixed::is_sqrt_floor(dot_s(*self, *self) * 65536, r as int),
            r >= 0,
    {
        let sq = self.square_length();
        fp_sqrt(sq)
    }

    /// The unit vector in this direction, each component clamped to the
    /// working range of plus or minus two.
    pub fn unit(&self) -> (r: Vec3)
        requires
            in_range(*self, vec_op_bound()),
            dot_s(*self, *self) >= 1,
        ensures
            r == unit_s(*self),
            in_range(r, 131072int),
    {
        let len = self.length();
        proof {
            if len < 1 {
                assert(dot_s(*self, *self) * 65536 < 1);
            }
            lemma_unit_div_fits(self.x as int, len as int);
            lemma_unit_div_fits(self.y as int, len as int);
            lemma_unit_div_fits(self.z as int, len as int);
        }
        let x = clamp_unit(fp_div(self.x, len));
        let y = clamp_unit(fp_div(self.y, len));
        let z = clamp_unit(fp_div(self.z, len));
        Vec3 { x, y, z }
    }

    /// Consuming form of `unit`.
    pub fn into_unit(self) -> (r: Vec3)
        requires
            in_range(self, vec_op_bound()),
            dot_s(self, self) >= 1,
        ensures
            r == unit_s(self),
            in_range(r, 131072int),
    {
        self.unit()
    }

    /// The all-zero vector.
    pub fn zero() -> (r: Vec3)
        ensures
            r == (Vec3 { x: 0, y: 0, z: 0 }),
    {
        Vec3 { x: 0, y: 0, z: 0 }
    }
}

/// Clamp a scalar to [-2, 2] in fixed point.
pub open spec fn clamp_unit_s(x: int) -> int {
    if x < -131072 {
        -131072
    } else if x > 131072 {
        131072
    } else {
        x
    }
}

fn clamp_unit(x: i64) -> (r: i64)
    ensures
        r == clamp_unit_s(x as int),
{
    if x < -131072 {
        -131072
    } else if x > 131072 {
        131072
    } else {
        x
    }
}

/// The normalized direction of `v`: each component divided by the length
/// and clamped to the working range.
pub open spec fn unit_s(v: Vec3) -> Vec3 {
    let len = sqrt_s(dot_s(v, v) * 65536);
    Vec3 {
        x: clamp_unit_s(fp_div_s(v.x as int, len)) as i64,
        y: clamp_unit_s(fp_div_s(v.y as int, len)) as i64,
        z: clamp_unit_s(fp_div_s(v.z as int, len)) as i64,
    }
}

/// A dot product of a vector with itself is never negative.
pub proof fn lemma_dot_self_nonneg(v: Vec3)
    ensures
        dot_s(v, v) >= 0,
{
    assert(fp_mul_s(v.x as int, v.x as int) >= 0) by (nonlinear_arith);
    assert(fp_mul_s(v.y as int, v.y as int) >= 0) by (nonlinear_arith);
    assert(fp_mul_s(v.z as int, v.z as int) >= 0) by (nonlinear_arith);
}

/// The division inside `unit` stays within `i64` for any in-range vector.
proof fn lemma_unit_div_fits(x: int, len: int)
    requires
        -0x40_0000_0000 <= x <= 0x40_0000_0000,
        len >= 1,
    ensures
        i64::MIN <= fp_div_s(x, len) <= i64::MAX,
{
    assert(i64::MIN <= (x * 65536) / len <= i64::MAX) by (nonlinear_arith)
        requires
            -0x40_0000_0000 <= x <= 0x40_0000_0000,
            len >= 1,
    ;
}

} // verus!
