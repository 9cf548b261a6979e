//! Exact fractions.
//!
//! Reports are fractions of counters. They are kept as a numerator over a denominator, so that
//! nothing is lost before a caller chooses how to round or print them.

use vstd::prelude::*;

verus! {

/// The fraction `num / den`. A fraction built by [`Ratio::of`] has a positive denominator.
#[derive(Debug, Clone, Copy, PartialEq, Eq, Structural)]
pub struct Ratio {
    pub num: u128,
    pub den: u128,
}

impl Ratio {
    /// `num / den`, or zero if there is nothing to divide by.
    pub open spec fn exact(num: int, den: int) -> Ratio {
        if den == 0 {
            Ratio { num: 0, den: 1 }
        } else {
            Ratio { num: num as u128, den: den as u128 }
        }
    }

    /// The denominator can be divided by.
    pub open spec fn wf(self) -> bool {
        self.den > 0
    }

    /// The fraction is at most `other`.
    pub open spec fn at_most(self, other: Ratio) -> bool {
        self.num * other.den <= other.num * self.den
    }

    /// The nearest whole number, halves rounding up.
    pub open spec fn nearest(self) -> int {
        self.num as int / self.den as int + if 2 * (self.num as int % self.den as int)
            >= self.den {
            1int
        } else {
            0
        }
    }

    /// `num / den`, or zero if there is nothing to divide by.
    pub fn of(num: u128, den: u128) -> (r: Ratio)
        ensures
            r == Ratio::exact(num as int, den as int),
            r.wf(),
    {
        if den == 0 {
            Ratio { num: 0, den: 1 }
        } else {
            Ratio { num, den }
        }
    }

    /// The nearest whole number, halves rounding up.
    pub fn round(&self) -> (whole: u128)
        requires
            self.wf(),
        ensures
            whole == self.num / self.den + if 2 * (self.num % self.den) >= self.den {
                1int
            } else {
                0
            },
            whole == self.nearest(),
    {
        let whole: u128 = self.num / self.den;
        let rest: u128 = self.num % self.den;
        if rest >= self.den - rest {
            proof {
                // A non-zero remainder means the divisor is at least two.
                assert(self.den >= 2 ==> self.num / self.den <= self.num / 2) by (nonlinear_arith)
                    requires
                        self.den >= 1,
                ;
            }
            whole + 1
        } else {
            whole
        }
    }
}

/// A part is at most the whole: the fraction of it is at most one.
pub proof fn law_part_is_at_most_one(part: int, whole: int)
    requires
        0 <= part <= whole <= u128::MAX,
    ensures
        Ratio::exact(part, whole).at_most(Ratio { num: 1, den: 1 }),
{
}

/// A fraction is worth its numerator over its denominator, and nothing where there is nothing to
/// divide by.
pub proof fn law_a_fraction_is_worth_its_quotient(num: int, den: int)
    requires
        0 <= num <= u128::MAX,
        0 <= den <= u128::MAX,
    ensures
        Ratio::exact(num, den).den > 0,
        den > 0 ==> Ratio::exact(num, den).num * den == num * Ratio::exact(num, den).den,
        den == 0 ==> Ratio::exact(num, den).num == 0,
{
}

/// The nearest whole number is within a half of the fraction, and above it where two are as near.
pub proof fn law_rounding_is_within_a_half(r: Ratio)
    requires
        r.wf(),
    ensures
        2 * r.num - r.den < 2 * (r.nearest() * r.den) <= 2 * r.num + r.den,
{
    let q = r.num as int / r.den as int;
    vstd::arithmetic::div_mod::lemma_fundamental_div_mod(r.num as int, r.den as int);
    vstd::arithmetic::div_mod::lemma_mod_bound(r.num as int, r.den as int);
    assert(q * r.den == r.den * q) by (nonlinear_arith);
    assert((q + 1) * r.den == r.den * q + r.den) by (nonlinear_arith);
}

} // verus!
