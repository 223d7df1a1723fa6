//! Deterministic signed fixed-point scalar.
//!
//! `FP` stores a value as raw two's-complement bits with 16 fractional bits
//! (the represented value is `bits / 2^16`), the same layout for every
//! platform and build, so simulations replay identically everywhere.
//!
//! Overflow behaviour is defined and consistent: every operation saturates to
//! the nearest representable value. Multiplication and division round toward
//! zero. Division by zero and square roots of negative numbers are excluded
//! by precondition instead of panicking.

use vstd::prelude::*;

verus! {

/// Raw bits of the value 1 (one left-shifted by the 16 fractional bits).
pub const ONE_BITS: i64 = 65536;

/// Absolute value of a mathematical integer.
pub open spec fn iabs(x: int) -> int {
    if x < 0 {
        -x
    } else {
        x
    }
}

/// Saturate a mathematical integer into the `i64` range.
pub open spec fn sat64(x: int) -> int {
    if x > i64::MAX as int {
        i64::MAX as int
    } else if x < i64::MIN as int {
        i64::MIN as int
    } else {
        x
    }
}

/// Integer division rounding toward zero.
pub open spec fn trunc_div(p: int, d: int) -> int
    recommends
        d != 0,
{
    if (p < 0) == (d < 0) {
        iabs(p) / iabs(d)
    } else {
        -(iabs(p) / iabs(d))
    }
}

/// Raw-bit result of fixed-point addition.
pub open spec fn fp_add(a: int, b: int) -> int {
    sat64(a + b)
}

/// Raw-bit result of fixed-point subtraction.
pub open spec fn fp_sub(a: int, b: int) -> int {
    sat64(a - b)
}

/// Raw-bit result of fixed-point negation.
pub open spec fn fp_neg(a: int) -> int {
    sat64(-a)
}

/// Raw-bit result of fixed-point absolute value.
pub open spec fn fp_abs(a: int) -> int {
    sat64(iabs(a))
}

/// Raw-bit result of fixed-point multiplication: the bit product carries
/// 32 fractional bits, so it is scaled back down by one factor of 2^16.
pub open spec fn fp_mul(a: int, b: int) -> int {
    sat64(trunc_div(a * b, ONE_BITS as int))
}

/// Raw-bit result of fixed-point division: the dividend is scaled up by
/// 2^16 so the quotient keeps 16 fractional bits.
pub open spec fn fp_div(a: int, b: int) -> int
    recommends
        b != 0,
{
    sat64(trunc_div(a * (ONE_BITS as int), b))
}

/// Floor of the square root of a non-negative integer.
pub open spec fn isqrt(n: int) -> int
    decreases n,
{
    if n <= 0 {
        0
    } else {
        let r = isqrt(n - 1);
        if (r + 1) * (r + 1) <= n {
            r + 1
        } else {
            r
        }
    }
}

/// Raw-bit result of the fixed-point square root: the floor square root of
/// the raw bits carries 8 fractional bits, so it is scaled up by 2^8.
pub open spec fn fp_sqrt(a: int) -> int {
    256 * isqrt(a)
}

/// `isqrt` is the floor square root: the unique `r >= 0` with
/// `r * r <= n < (r + 1) * (r + 1)`.
pub proof fn lemma_isqrt_bounds(n: int)
    requires
        0 <= n,
    ensures
        0 <= isqrt(n),
        isqrt(n) * isqrt(n) <= n,
        n < (isqrt(n) + 1) * (isqrt(n) + 1),
    decreases n,
{
    if n > 0 {
        lemma_isqrt_bounds(n - 1);
        let r = isqrt(n - 1);
        if (r + 1) * (r + 1) <= n {
            assert((r + 2) * (r + 2) > n) by (nonlinear_arith)
                requires
                    (r + 1) * (r + 1) > n - 1,
                    0 <= r,
            ;
        }
    }
}

/// Deterministic signed fixed-point number: 48 integer bits, 16 fractional
/// bits, stored as raw two's-complement bits. All arithmetic saturates on
/// overflow and rounds toward zero.
#[derive(Clone, Copy, Debug, PartialEq, Eq, Hash, Structural)]
pub struct FP {
    pub bits: i64,
}

impl View for FP {
    type V = int;

    open spec fn view(&self) -> int {
        self.bits as int
    }
}

/// Saturate an `i128` intermediate into the `i64` range.
fn sat_from_i128(s: i128) -> (r: i64)
    ensures
        r as int == sat64(s as int),
{
    if s > i64::MAX as i128 {
        i64::MAX
    } else if s < i64::MIN as i128 {
        i64::MIN
    } else {
        s as i64
    }
}

/// Turn a non-negative magnitude and a sign into a saturated `i64`.
fn sign_sat(neg: bool, q: u128) -> (r: i64)
    ensures
        r as int == sat64(
            if neg {
                -(q as int)
            } else {
                q as int
            },
        ),
{
    if neg {
        if q >= 9223372036854775808u128 {
            i64::MIN
        } else {
            -(q as i64)
        }
    } else {
        if q > 9223372036854775807u128 {
            i64::MAX
        } else {
            q as i64
        }
    }
}

/// The product of two integers and the product of their absolute values
/// agree up to sign.
proof fn lemma_abs_mul(x: int, y: int)
    ensures
        iabs(x * y) == iabs(x) * iabs(y),
        ((x < 0) != (y < 0)) ==> x * y <= 0,
        ((x < 0) == (y < 0)) ==> x * y >= 0,
{
    assert(iabs(x * y) == iabs(x) * iabs(y) && (((x < 0) != (y < 0)) ==> x * y <= 0) && (((x < 0)
        == (y < 0)) ==> x * y >= 0)) by (nonlinear_arith);
}

impl FP {
    /// Build a number from its raw bits.
    pub fn from_bits(bits: i64) -> (r: FP)
        ensures
            r@ == bits as int,
    {
        FP { bits }
    }

    /// The value 0.
    pub fn zero() -> (r: FP)
        ensures
            r@ == 0,
    {
        FP { bits: 0 }
    }

    /// The value 1.
    pub fn one() -> (r: FP)
        ensures
            r@ == ONE_BITS as int,
    {
        FP { bits: ONE_BITS }
    }

    /// Convert an integer, saturating at the representable range.
    pub fn from_int(v: i64) -> (r: FP)
        ensures
            r@ == sat64(v * (ONE_BITS as int)),
    {
        let s: i128 = (v as i128) * 65536i128;
        FP { bits: sat_from_i128(s) }
    }

    /// Saturating addition.
    pub fn add(self, other: FP) -> (r: FP)
        ensures
            r@ == fp_add(self@, other@),
    {
        let s: i128 = (self.bits as i128) + (other.bits as i128);
        FP { bits: sat_from_i128(s) }
    }

    /// Saturating subtraction.
    pub fn sub(self, other: FP) -> (r: FP)
        ensures
            r@ == fp_sub(self@, other@),
    {
        let s: i128 = (self.bits as i128) - (other.bits as i128);
        FP { bits: sat_from_i128(s) }
    }

    /// Saturating negation.
    pub fn neg(self) -> (r: FP)
        ensures
            r@ == fp_neg(self@),
    {
        let s: i128 = -(self.bits as i128);
        FP { bits: sat_from_i128(s) }
    }

    /// Saturating absolute value.
    pub fn abs(self) -> (r: FP)
        ensures
            r@ == fp_abs(self@),
    {
        if self.bits < 0 {
            self.neg()
        } else {
            self
        }
    }

    /// Saturating multiplication, rounding toward zero.
    pub fn mul(self, other: FP) -> (r: FP)
        ensures
            r@ == fp_mul(self@, other@),
    {
        let a: i128 = self.bits as i128;
        let b: i128 = other.bits as i128;
        let neg: bool = (a < 0) != (b < 0);
        let ma: u128 = (if a < 0 {
            -a
        } else {
            a
        }) as u128;
        let mb: u128 = (if b < 0 {
            -b
        } else {
            b
        }) as u128;
        proof {
            lemma_abs_mul(self@, other@);
            assert(ma * mb == iabs(self@ * other@)) by (nonlinear_arith)
                requires
                    ma == iabs(self@),
                    mb == iabs(other@),
                    iabs(self@ * other@) == iabs(self@) * iabs(other@),
            ;
            assert(ma * mb <= 0x40000000000000000000000000000000u128) by (nonlinear_arith)
                requires
                    ma <= 0x8000000000000000u128,
                    mb <= 0x8000000000000000u128,
            ;
        }
        let q: u128 = (ma * mb) / 65536;
        FP { bits: sign_sat(neg, q) }
    }

    /// Saturating division, rounding toward zero.
    pub fn div(self, other: FP) -> (r: FP)
        requires
            other@ != 0,
        ensures
            r@ == fp_div(self@, other@),
    {
        let a: i128 = self.bits as i128;
        let b: i128 = other.bits as i128;
        let neg: bool = (a < 0) != (b < 0);
        let ma: u128 = (if a < 0 {
            -a
        } else {
            a
        }) as u128;
        let mb: u128 = (if b < 0 {
            -b
        } else {
            b
        }) as u128;
        proof {
            assert(iabs(self@ * (ONE_BITS as int)) == iabs(self@) * (ONE_BITS as int));
        }
        let q: u128 = (ma * 65536) / mb;
        proof {
            assert(q == iabs(self@ * (ONE_BITS as int)) / iabs(other@));
        }
        FP { bits: sign_sat(neg, q) }
    }

    /// The smaller of two values.
    pub fn min(self, other: FP) -> (r: FP)
        ensures
            r@ == if self@ <= other@ {
                self@
            } else {
                other@
            },
    {
        if self.bits <= other.bits {
            self
        } else {
            other
        }
    }

    /// The larger of two values.
    pub fn max(self, other: FP) -> (r: FP)
        ensures
            r@ == if self@ >= other@ {
                self@
            } else {
                other@
            },
    {
        if self.bits >= other.bits {
            self
        } else {
            other
        }
    }

    /// Clamp into the inclusive range `[lo, hi]`.
    pub fn clamp(self, lo: FP, hi: FP) -> (r: FP)
        requires
            lo@ <= hi@,
        ensures
            r@ == if self@ < lo@ {
                lo@
            } else if self@ > hi@ {
                hi@
            } else {
                self@
            },
    {
        if self.bits < lo.bits {
            lo
        } else if self.bits > hi.bits {
            hi
        } else {
            self
        }
    }

    /// Strictly-less comparison.
    pub fn lt(self, other: FP) -> (r: bool)
        ensures
            r == (self@ < other@),
    {
        self.bits < other.bits
    }

    /// Less-or-equal comparison.
    pub fn le(self, other: FP) -> (r: bool)
        ensures
            r == (self@ <= other@),
    {
        self.bits <= other.bits
    }

    /// True iff the value is strictly positive.
    pub fn is_positive(self) -> (r: bool)
        ensures
            r == (self@ > 0),
    {
        self.bits > 0
    }

    /// True iff the value is strictly negative.
    pub fn is_negative(self) -> (r: bool)
        ensures
            r == (self@ < 0),
    {
        self.bits < 0
    }

    /// Sign of the value: -1, 0 or 1.
    pub fn signum(self) -> (r: FP)
        ensures
            r@ == if self@ < 0 {
                -(ONE_BITS as int)
            } else if self@ == 0 {
                0
            } else {
                ONE_BITS as int
            },
    {
        if self.bits < 0 {
            FP { bits: -ONE_BITS }
        } else if self.bits == 0 {
            FP { bits: 0 }
        } else {
            FP { bits: ONE_BITS }
        }
    }

    /// Square root of a non-negative value.
    pub fn sqrt(self) -> (r: FP)
        requires
            self@ >= 0,
        ensures
            r@ == fp_sqrt(self@),
    {
        proof {
            lemma_isqrt_bounds(self@);
            assert(isqrt(self@) * isqrt(self@) <= i64::MAX as int);
            assert(isqrt(self@) < 0x100000000) by (nonlinear_arith)
                requires
                    0 <= isqrt(self@),
                    isqrt(self@) * isqrt(self@) <= i64::MAX as int,
            ;
        }
        FP { bits: sqrt_bits(self.bits) }
    }
}

/// Relies on `fixed_sqrt::FastSqrt::fast_sqrt` for `fixed::FixedI64` with 16
/// (an even number of) fractional bits: for a non-negative input it returns
/// `from_bits(integer_sqrt(to_bits()) << 8)`, where `integer_sqrt` (of the
/// `integer-sqrt` crate) is the floor square root of the raw bits.
#[verifier::external_body]
fn sqrt_bits(bits: i64) -> (r: i64)
    requires
        0 <= bits,
    ensures
        r as int == fp_sqrt(bits as int),
{
    fixed_sqrt::FastSqrt::fast_sqrt(
        fixed::FixedI64::<fixed::types::extra::U16>::from_bits(bits),
    ).to_bits()
}

/// The smallest representable increment: the precision step between adjacent
/// fixed-point values.
#[allow(non_snake_case)]
pub fn EPSILON() -> (r: FP)
    ensures
        r@ == 1,
{
    FP { bits: 1 }
}

/// Convert an integer to fixed point, saturating at the representable range.
pub fn to_fp(num: i64) -> (r: FP)
    ensures
        r@ == sat64(num * (ONE_BITS as int)),
{
    FP::from_int(num)
}

} // verus!
