//! Two-dimensional vector of fixed-point scalars.
//!
//! Pure value type: every operation is allocation-free and deterministic,
//! inheriting the saturating, round-toward-zero arithmetic of `FP`.

use vstd::prelude::*;

use crate::fp::fp_abs;
use crate::fp::fp_add;
use crate::fp::fp_div;
use crate::fp::fp_mul;
use crate::fp::fp_sqrt;
use crate::fp::fp_sub;
use crate::fp::sat64;
use crate::fp::FP;
use crate::fp::ONE_BITS;

verus! {

/// Pair of fixed-point scalars with value semantics.
#[derive(Clone, Copy, Debug, PartialEq, Eq, Structural)]
pub struct Vec2 {
    pub x: FP,
    pub y: FP,
}

/// Componentwise vector sum, over raw bits.
pub open spec fn spec_vadd(a: Vec2, b: Vec2) -> Vec2 {
    Vec2 { x: FP { bits: fp_add(a.x@, b.x@) as i64 }, y: FP { bits: fp_add(a.y@, b.y@) as i64 } }
}

/// Componentwise vector difference, over raw bits.
pub open spec fn spec_vsub(a: Vec2, b: Vec2) -> Vec2 {
    Vec2 { x: FP { bits: fp_sub(a.x@, b.x@) as i64 }, y: FP { bits: fp_sub(a.y@, b.y@) as i64 } }
}

/// Componentwise vector absolute value, over raw bits.
pub open spec fn spec_vabs(a: Vec2) -> Vec2 {
    Vec2 { x: FP { bits: fp_abs(a.x@) as i64 }, y: FP { bits: fp_abs(a.y@) as i64 } }
}

/// Vector scaled by a fixed-point scalar, over raw bits.
pub open spec fn spec_vscale(a: Vec2, s: int) -> Vec2 {
    Vec2 { x: FP { bits: fp_mul(a.x@, s) as i64 }, y: FP { bits: fp_mul(a.y@, s) as i64 } }
}

/// Raw bits of the squared length `x*x + y*y`; never negative.
pub open spec fn spec_len_sq(v: Vec2) -> int {
    fp_add(fp_mul(v.x@, v.x@), fp_mul(v.y@, v.y@))
}

/// A fixed-point square is never negative, so neither is a squared length.
pub proof fn lemma_len_sq_nonneg(v: Vec2)
    ensures
        0 <= spec_len_sq(v),
{
    assert(v.x@ * v.x@ >= 0 && v.y@ * v.y@ >= 0) by (nonlinear_arith);
}

impl Vec2 {
    /// Build a vector from its two components.
    pub fn new(x: FP, y: FP) -> (r: Vec2)
        ensures
            r == (Vec2 { x, y }),
    {
        Vec2 { x, y }
    }

    /// The x component.
    pub fn x(&self) -> (r: FP)
        ensures
            r == self.x,
    {
        self.x
    }

    /// The y component.
    pub fn y(&self) -> (r: FP)
        ensures
            r == self.y,
    {
        self.y
    }

    /// Mutable access to the x component.
    pub fn x_mut(&mut self) -> (r: &mut FP)
        ensures
            *r == old(self).x,
            *final(self) == (Vec2 { x: *final(r), y: old(self).y }),
    {
        &mut self.x
    }

    /// Mutable access to the y component.
    pub fn y_mut(&mut self) -> (r: &mut FP)
        ensures
            *r == old(self).y,
            *final(self) == (Vec2 { x: old(self).x, y: *final(r) }),
    {
        &mut self.y
    }

    /// Replace the x component.
    pub fn set_x(&mut self, value: FP)
        ensures
            *final(self) == (Vec2 { x: value, y: old(self).y }),
    {
        self.x = value;
    }

    /// Replace the y component.
    pub fn set_y(&mut self, value: FP)
        ensures
            *final(self) == (Vec2 { x: old(self).x, y: value }),
    {
        self.y = value;
    }

    /// The zero vector.
    pub fn zero() -> (r: Vec2)
        ensures
            r.x@ == 0,
            r.y@ == 0,
    {
        Vec2 { x: FP::zero(), y: FP::zero() }
    }

    /// The vector (1, 1).
    pub fn one() -> (r: Vec2)
        ensures
            r.x@ == ONE_BITS as int,
            r.y@ == ONE_BITS as int,
    {
        Vec2 { x: FP::one(), y: FP::one() }
    }

    /// The unit vector along x.
    pub fn unit_x() -> (r: Vec2)
        ensures
            r.x@ == ONE_BITS as int,
            r.y@ == 0,
    {
        Vec2 { x: FP::one(), y: FP::zero() }
    }

    /// The unit vector along y.
    pub fn unit_y() -> (r: Vec2)
        ensures
            r.x@ == 0,
            r.y@ == ONE_BITS as int,
    {
        Vec2 { x: FP::zero(), y: FP::one() }
    }

    /// Build a vector from two integers, saturating each component.
    pub fn from(x: i64, y: i64) -> (r: Vec2)
        ensures
            r.x@ == sat64(x * (ONE_BITS as int)),
            r.y@ == sat64(y * (ONE_BITS as int)),
    {
        Vec2 { x: FP::from_int(x), y: FP::from_int(y) }
    }

    /// Build a vector from two integers, saturating each component.
    pub fn from_int(x: i64, y: i64) -> (r: Vec2)
        ensures
            r.x@ == sat64(x * (ONE_BITS as int)),
            r.y@ == sat64(y * (ONE_BITS as int)),
    {
        Vec2 { x: FP::from_int(x), y: FP::from_int(y) }
    }

    /// A vector with both components set to `value`.
    pub fn splat(value: FP) -> (r: Vec2)
        ensures
            r == (Vec2 { x: value, y: value }),
    {
        Vec2 { x: value, y: value }
    }

    /// Componentwise minimum.
    pub fn min(self, other: Vec2) -> (r: Vec2)
        ensures
            r.x == if self.x@ <= other.x@ {
                self.x
            } else {
                other.x
            },
            r.y == if self.y@ <= other.y@ {
                self.y
            } else {
                other.y
            },
    {
        Vec2 { x: self.x.min(other.x), y: self.y.min(other.y) }
    }

    /// Componentwise maximum.
    pub fn max(self, other: Vec2) -> (r: Vec2)
        ensures
            r.x == if self.x@ >= other.x@ {
                self.x
            } else {
                other.x
            },
            r.y == if self.y@ >= other.y@ {
                self.y
            } else {
                other.y
            },
    {
        Vec2 { x: self.x.max(other.x), y: self.y.max(other.y) }
    }

    /// Add a scalar to both components.
    pub fn add_scalar(self, value: FP) -> (r: Vec2)
        ensures
            r.x@ == fp_add(self.x@, value@),
            r.y@ == fp_add(self.y@, value@),
    {
        Vec2 { x: self.x.add(value), y: self.y.add(value) }
    }

    /// Subtract a scalar from both components.
    pub fn sub_scalar(self, value: FP) -> (r: Vec2)
        ensures
            r.x@ == fp_sub(self.x@, value@),
            r.y@ == fp_sub(self.y@, value@),
    {
        Vec2 { x: self.x.sub(value), y: self.y.sub(value) }
    }

    /// Multiply both components by a scalar.
    pub fn mul_scalar(self, value: FP) -> (r: Vec2)
        ensures
            r == spec_vscale(self, value@),
    {
        Vec2 { x: self.x.mul(value), y: self.y.mul(value) }
    }

    /// Divide both components by a non-zero scalar.
    pub fn div_scalar(self, value: FP) -> (r: Vec2)
        requires
            value@ != 0,
        ensures
            r.x@ == fp_div(self.x@, value@),
            r.y@ == fp_div(self.y@, value@),
    {
        Vec2 { x: self.x.div(value), y: self.y.div(value) }
    }

    /// Componentwise absolute value.
    pub fn abs(&self) -> (r: Vec2)
        ensures
            r == spec_vabs(*self),
    {
        Vec2 { x: self.x.abs(), y: self.y.abs() }
    }

    /// Euclidean length `sqrt(x*x + y*y)`.
    pub fn length(&self) -> (r: FP)
        ensures
            r@ == fp_sqrt(spec_len_sq(*self)),
    {
        proof {
            lemma_len_sq_nonneg(*self);
        }
        self.x.mul(self.x).add(self.y.mul(self.y)).sqrt()
    }

    /// Dot product `x*ox + y*oy`.
    pub fn dot(self, other: Vec2) -> (r: FP)
        ensures
            r@ == fp_add(fp_mul(self.x@, other.x@), fp_mul(self.y@, other.y@)),
    {
        self.x.mul(other.x).add(self.y.mul(other.y))
    }

    /// The vector scaled to unit length. The squared length must be at least
    /// one raw increment, so the length is non-zero.
    pub fn normalized(&self) -> (r: Vec2)
        requires
            spec_len_sq(*self) >= 1,
        ensures
            r.x@ == fp_div(self.x@, fp_sqrt(spec_len_sq(*self))),
            r.y@ == fp_div(self.y@, fp_sqrt(spec_len_sq(*self))),
    {
        let len = self.length();
        proof {
            crate::fp::lemma_isqrt_bounds(spec_len_sq(*self));
            let s = crate::fp::isqrt(spec_len_sq(*self));
            assert(s >= 1) by {
                if s == 0 {
                    assert(spec_len_sq(*self) < (s + 1) * (s + 1));
                    assert((s + 1) * (s + 1) == 1) by (nonlinear_arith)
                        requires
                            s == 0,
                    ;
                }
            };
        }
        Vec2 { x: self.x.div(len), y: self.y.div(len) }
    }

    /// Componentwise vector sum.
    pub fn add(self, other: Vec2) -> (r: Vec2)
        ensures
            r == spec_vadd(self, other),
    {
        Vec2 { x: self.x.add(other.x), y: self.y.add(other.y) }
    }

    /// Componentwise vector difference.
    pub fn sub(self, other: Vec2) -> (r: Vec2)
        ensures
            r == spec_vsub(self, other),
    {
        Vec2 { x: self.x.sub(other.x), y: self.y.sub(other.y) }
    }

    /// Componentwise vector product.
    pub fn mul(self, other: Vec2) -> (r: Vec2)
        ensures
            r.x@ == fp_mul(self.x@, other.x@),
            r.y@ == fp_mul(self.y@, other.y@),
    {
        Vec2 { x: self.x.mul(other.x), y: self.y.mul(other.y) }
    }

    /// Componentwise vector quotient; both divisor components must be
    /// non-zero.
    pub fn div(self, other: Vec2) -> (r: Vec2)
        requires
            other.x@ != 0,
            other.y@ != 0,
        ensures
            r.x@ == fp_div(self.x@, other.x@),
            r.y@ == fp_div(self.y@, other.y@),
    {
        Vec2 { x: self.x.div(other.x), y: self.y.div(other.y) }
    }
}

} // verus!
