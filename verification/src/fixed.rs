//! Exact fixed-point numbers for the complex-plane arithmetic.
//!
//! Every coordinate is held as a count of millionths, with the sign kept
//! apart from the magnitude, so each arithmetic step is an exact integer
//! computation with a contract over mathematical integers.

use vstd::prelude::*;

verus! {

/// Raw units per whole unit: values are counted in millionths.
pub const SCALE: u64 = 1_000_000;

/// Largest raw magnitude a parsed coordinate may carry
/// (coordinates are confined to [-1_000_000, 1_000_000] whole units).
pub const COORD_MAG_MAX: u64 = 1_000_000_000_000;

/// Division that rounds toward zero, for a positive divisor.
pub open spec fn tdiv(a: int, d: int) -> int {
    if a >= 0 {
        a / d
    } else {
        -((-a) / d)
    }
}

/// A signed fixed-point number: `mag` raw units (millionths), negative when `neg`.
#[derive(Clone, Copy, PartialEq, Eq, Structural, Debug)]
pub struct Fx {
    pub neg: bool,
    pub mag: u64,
}

impl Fx {
    /// The exact value in raw units, as a mathematical integer.
    pub open spec fn val(self) -> int {
        if self.neg {
            -(self.mag as int)
        } else {
            self.mag as int
        }
    }

    /// Canonical form: zero is never marked negative, so equal values
    /// are structurally equal.
    pub open spec fn wf(self) -> bool {
        self.mag == 0 ==> !self.neg
    }

    /// The magnitude stays within `m` raw units.
    pub open spec fn bounded(self, m: int) -> bool {
        self.mag <= m
    }

    pub fn from_raw(neg: bool, mag: u64) -> (r: Fx)
        ensures
            r.wf(),
            r.val() == if neg { -(mag as int) } else { mag as int },
            r.mag == mag,
    {
        Fx { neg: neg && mag > 0, mag }
    }

    pub fn zero() -> (r: Fx)
        ensures
            r.wf(),
            r.val() == 0,
            r.mag == 0,
    {
        Fx { neg: false, mag: 0 }
    }

    pub fn negate(self) -> (r: Fx)
        requires
            self.wf(),
        ensures
            r.wf(),
            r.val() == -self.val(),
            r.mag == self.mag,
    {
        Fx { neg: self.mag > 0 && !self.neg, mag: self.mag }
    }

    pub fn plus(self, other: Fx) -> (r: Fx)
        requires
            self.wf(),
            other.wf(),
            self.mag + other.mag <= u64::MAX,
        ensures
            r.wf(),
            r.val() == self.val() + other.val(),
            r.mag <= self.mag + other.mag,
    {
        if self.neg == other.neg {
            Fx { neg: self.neg, mag: self.mag + other.mag }
        } else if self.mag >= other.mag {
            let m = self.mag - other.mag;
            Fx { neg: self.neg && m > 0, mag: m }
        } else {
            let m = other.mag - self.mag;
            Fx { neg: other.neg, mag: m }
        }
    }

    pub fn minus(self, other: Fx) -> (r: Fx)
        requires
            self.wf(),
            other.wf(),
            self.mag + other.mag <= u64::MAX,
        ensures
            r.wf(),
            r.val() == self.val() - other.val(),
            r.mag <= self.mag + other.mag,
    {
        self.plus(other.negate())
    }

    /// Fixed-point product: the value is `self * other`, rescaled to raw
    /// units and rounded toward zero.
    pub fn times(self, other: Fx) -> (r: Fx)
        requires
            self.wf(),
            other.wf(),
            (self.mag as int * other.mag as int) / (SCALE as int) <= u64::MAX,
        ensures
            r.wf(),
            r.val() == tdiv(self.val() * other.val(), SCALE as int),
            r.mag == (self.mag as int * other.mag as int) / (SCALE as int),
    {
        proof {
            lemma_mul_le(self.mag as int, other.mag as int, u64::MAX as int, u64::MAX as int);
            lemma_sign_magnitude_product(
                self.val(),
                other.val(),
                self.mag as int,
                other.mag as int,
            );
        }
        let m: u128 = (self.mag as u128) * (other.mag as u128) / (SCALE as u128);
        proof {
            assert(m <= u64::MAX);
        }
        Fx { neg: (self.neg != other.neg) && m > 0, mag: m as u64 }
    }

    /// Scale by the exact fraction `num / den` (with `num <= den`), rounding
    /// toward zero; the magnitude never grows.
    pub fn scaled(self, num: u64, den: u64) -> (r: Fx)
        requires
            self.wf(),
            1 <= den,
            num <= den,
        ensures
            r.wf(),
            r.val() == tdiv(self.val() * num, den as int),
            r.mag <= self.mag,
    {
        proof {
            lemma_mul_le(self.mag as int, num as int, u64::MAX as int, u64::MAX as int);
            lemma_sign_magnitude_product(self.val(), num as int, self.mag as int, num as int);
            lemma_div_shrinks(self.mag as int, num as int, den as int);
        }
        let m: u128 = (self.mag as u128) * (num as u128) / (den as u128);
        Fx { neg: self.neg && m > 0, mag: m as u64 }
    }
}

/// |a * b| == |a| * |b|: the product of the magnitudes is the magnitude of
/// the product, and the operand signs decide its sign.
proof fn lemma_sign_magnitude_product(a: int, b: int, ma: int, mb: int)
    requires
        ma >= 0,
        mb >= 0,
        a == ma || a == -ma,
        b == mb || b == -mb,
    ensures
        ma * mb >= 0,
        ((a >= 0 && b >= 0) || (a <= 0 && b <= 0)) ==> a * b == ma * mb,
        ((a >= 0 && b <= 0) || (a <= 0 && b >= 0)) ==> a * b == -(ma * mb),
{
    assert((ma * mb >= 0 && (((a >= 0 && b >= 0) || (a <= 0 && b <= 0)) ==> a * b == ma * mb)
        && (((a >= 0 && b <= 0) || (a <= 0 && b >= 0)) ==> a * b == -(ma * mb))))
        by (nonlinear_arith)
        requires
            ma >= 0,
            mb >= 0,
            a == ma || a == -ma,
            b == mb || b == -mb,
    ;
}

/// Multiplication of non-negative numbers respects upper bounds.
pub(crate) proof fn lemma_mul_le(a: int, b: int, ca: int, cb: int)
    requires
        0 <= a <= ca,
        0 <= b <= cb,
    ensures
        a * b <= ca * cb,
        a * b >= 0,
{
    assert(a * b <= ca * cb && a * b >= 0) by (nonlinear_arith)
        requires
            0 <= a <= ca,
            0 <= b <= cb,
    ;
}

/// With `num <= den`, scaling a magnitude by `num / den` cannot enlarge it.
proof fn lemma_div_shrinks(m: int, num: int, den: int)
    requires
        m >= 0,
        0 <= num <= den,
        1 <= den,
    ensures
        (m * num) / den <= m,
        (m * num) / den >= 0,
{
    assert((m * num) / den <= m && (m * num) / den >= 0) by (nonlinear_arith)
        requires
            m >= 0,
            0 <= num <= den,
            1 <= den,
    ;
}

/// Flooring division by a positive divisor cannot enlarge a non-negative
/// dividend.
pub(crate) proof fn lemma_div_le(x: int, d: int)
    requires
        x >= 0,
        d >= 1,
    ensures
        0 <= x / d <= x,
{
    assert(0 <= x / d <= x) by (nonlinear_arith)
        requires
            x >= 0,
            d >= 1,
    ;
}

/// For non-negative factors, the product is at most the sum of the squares.
pub(crate) proof fn lemma_ab_le_sq(a: int, b: int)
    requires
        a >= 0,
        b >= 0,
    ensures
        a * b <= a * a + b * b,
{
    assert(a * b <= a * a + b * b) by (nonlinear_arith)
        requires
            a >= 0,
            b >= 0,
    ;
}

/// The square of a fixed-point value equals the square of its magnitude.
pub(crate) proof fn lemma_square_mag(x: Fx)
    ensures
        x.val() * x.val() == x.mag as int * x.mag as int,
        x.val() * x.val() >= 0,
{
    assert((-(x.mag as int)) * (-(x.mag as int)) == x.mag as int * x.mag as int
        && x.mag as int * x.mag as int >= 0) by (nonlinear_arith);
}

} // verus!
