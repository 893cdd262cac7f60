//! Exact fractions with a positive denominator.
//!
//! The ray/box intersector works on fractions of a traced segment. Keeping
//! them as `num / den` pairs instead of floating point makes every
//! comparison exact, so the slab method can be specified and proved as pure
//! rational arithmetic.

use vstd::prelude::*;

verus! {

/// `a/b <= c/d`, for positive denominators `b` and `d`.
pub open spec fn frac_le(an: int, ad: int, bn: int, bd: int) -> bool {
    an * bd <= bn * ad
}

/// An exact fraction `num / den`; well-formed values keep `den > 0`.
#[derive(Clone, Copy, Debug)]
pub struct Ratio {
    pub num: i64,
    pub den: i64,
}

impl Ratio {
    /// The denominator is positive, so the represented value is `num / den`.
    pub open spec fn wf(self) -> bool {
        0 < self.den
    }

    /// Numerator magnitude and denominator are at most `b`.
    pub open spec fn bounded(self, b: int) -> bool {
        &&& -b <= self.num <= b
        &&& 0 < self.den <= b
    }

    /// `self <= other` as rational numbers.
    pub open spec fn spec_le(self, other: Ratio) -> bool {
        frac_le(self.num as int, self.den as int, other.num as int, other.den as int)
    }

    /// `self < other` as rational numbers.
    pub open spec fn spec_lt(self, other: Ratio) -> bool {
        self.num * other.den < other.num * self.den
    }

    /// Exact comparison by cross-multiplication, carried out in `i128` so
    /// the products cannot overflow.
    pub fn le(&self, other: &Ratio) -> (r: bool)
        requires
            self.wf(),
            other.wf(),
        ensures
            r == self.spec_le(*other),
    {
        proof {
            lemma_mul_magnitude(self.num as int, other.den as int, 0x8000_0000_0000_0000, 0x8000_0000_0000_0000);
            lemma_mul_magnitude(other.num as int, self.den as int, 0x8000_0000_0000_0000, 0x8000_0000_0000_0000);
        }
        (self.num as i128) * (other.den as i128) <= (other.num as i128) * (self.den as i128)
    }

    /// Exact strict comparison.
    pub fn lt(&self, other: &Ratio) -> (r: bool)
        requires
            self.wf(),
            other.wf(),
        ensures
            r == self.spec_lt(*other),
    {
        proof {
            lemma_mul_magnitude(self.num as int, other.den as int, 0x8000_0000_0000_0000, 0x8000_0000_0000_0000);
            lemma_mul_magnitude(other.num as int, self.den as int, 0x8000_0000_0000_0000, 0x8000_0000_0000_0000);
        }
        (self.num as i128) * (other.den as i128) < (other.num as i128) * (self.den as i128)
    }

    /// The fraction `0`.
    pub fn zero() -> (r: Ratio)
        ensures
            r.num == 0 && r.den == 1,
    {
        Ratio { num: 0, den: 1 }
    }

    /// The fraction `1`.
    pub fn one() -> (r: Ratio)
        ensures
            r.num == 1 && r.den == 1,
    {
        Ratio { num: 1, den: 1 }
    }
}

/// `|a * b| <= aa * bb` when `|a| <= aa` and `|b| <= bb`.
pub proof fn lemma_mul_magnitude(a: int, b: int, aa: int, bb: int)
    by (nonlinear_arith)
    requires
        -aa <= a <= aa,
        -bb <= b <= bb,
    ensures
        -(aa * bb) <= a * b <= aa * bb,
{
}

/// `a <= b` in fraction form is transitive across a middle fraction.
pub proof fn lemma_frac_le_trans(an: int, ad: int, bn: int, bd: int, cn: int, cd: int)
    by (nonlinear_arith)
    requires
        0 < ad,
        0 < bd,
        0 < cd,
        frac_le(an, ad, bn, bd),
        frac_le(bn, bd, cn, cd),
    ensures
        frac_le(an, ad, cn, cd),
{
}

/// `a/b < c/d`, for positive denominators `b` and `d`.
pub open spec fn frac_lt(an: int, ad: int, bn: int, bd: int) -> bool {
    an * bd < bn * ad
}

/// A strict bound on the left of a non-strict one stays strict.
pub proof fn lemma_frac_lt_le_trans(an: int, ad: int, bn: int, bd: int, cn: int, cd: int)
    by (nonlinear_arith)
    requires
        0 < ad,
        0 < bd,
        0 < cd,
        frac_lt(an, ad, bn, bd),
        frac_le(bn, bd, cn, cd),
    ensures
        frac_lt(an, ad, cn, cd),
{
}

} // verus!
