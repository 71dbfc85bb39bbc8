//! Exact fractions.
//!
//! Every quantity that is a real number between the integers (a courage, a
//! chance of winning, a mean) is held as a pair of integers and compared by
//! cross-multiplication, so that no rounding enters a decision.

use vstd::prelude::*;

verus! {

/// The denominator of every fixed-point fraction of the unit interval: 2^53.
pub const SCALE: u64 = 0x20_0000_0000_0000;

/// A fraction `num / den` over the mathematical integers. A zero denominator
/// stands for a value that does not exist (the mean of nothing, the chance of
/// winning between two combatants without any cultivation).
pub struct Frac {
    pub num: int,
    pub den: int,
}

impl Frac {
    /// `self > other`, for fractions that are not negative. The undefined
    /// `0 / 0` is neither more nor less than anything.
    pub open spec fn gt(self, other: Frac) -> bool {
        self.num * other.den > other.num * self.den
    }

    /// `self == other` as values.
    pub open spec fn same(self, other: Frac) -> bool {
        self.num * other.den == other.num * self.den
    }

    /// `1 - self`.
    pub open spec fn complement(self) -> Frac {
        Frac { num: self.den - self.num, den: self.den }
    }

    /// `self + other == 1`, both being defined.
    pub open spec fn sums_to_one(self, other: Frac) -> bool {
        &&& self.den > 0
        &&& other.den > 0
        &&& self.num * other.den + other.num * self.den == self.den * other.den
    }
}

/// A fraction as the library hands it out: numerator and denominator side by
/// side, left unreduced.
#[derive(Clone, Copy, Debug, PartialEq, Eq, Structural)]
pub struct Ratio {
    pub num: u128,
    pub den: u128,
}

impl View for Ratio {
    type V = Frac;

    open spec fn view(&self) -> Frac {
        Frac { num: self.num as int, den: self.den as int }
    }
}

/// The fixed-point fraction `raw / SCALE`.
pub open spec fn unit_frac(raw: u64) -> Frac {
    Frac { num: raw as int, den: SCALE as int }
}

/// Whether `raw / SCALE > num / den`, decided without rounding.
pub(crate) fn unit_exceeds(raw: u64, num: u128, den: u128) -> (r: bool)
    requires
        num <= den,
        den <= 2 * u64::MAX,
    ensures
        r == unit_frac(raw).gt(Frac { num: num as int, den: den as int }),
{
    let scale: u128 = SCALE as u128;
    if raw > SCALE {
        // More than one: above every fraction of the unit interval that exists.
        proof {
            let r = raw as int;
            let s = SCALE as int;
            let n = num as int;
            let d = den as int;
            assert(d > 0 ==> r * d > n * s) by (nonlinear_arith)
                requires
                    r > s,
                    s > 0,
                    0 <= n <= d,
            ;
        }
        den > 0
    } else {
        assert(raw as int * den as int <= 0x20_0000_0000_0000 * (2 * 0xffff_ffff_ffff_ffff))
            by (nonlinear_arith)
            requires
                raw <= 0x20_0000_0000_0000,
                den <= 2 * 0xffff_ffff_ffff_ffff,
        ;
        assert(num as int * scale as int <= (2 * 0xffff_ffff_ffff_ffff) * 0x20_0000_0000_0000)
            by (nonlinear_arith)
            requires
                num <= 2 * 0xffff_ffff_ffff_ffff,
                scale == 0x20_0000_0000_0000,
        ;
        (raw as u128) * den > num * scale
    }
}

/// The share of `a` in `a + b`: the fraction `a / (a + b)`, undefined where
/// both are zero.
pub open spec fn share(a: nat, b: nat) -> Frac {
    Frac { num: a as int, den: (a + b) as int }
}

/// Two shares that split one whole between them add up to one, and each is
/// the other's complement, whenever there is anything to split.
pub proof fn lemma_shares_sum_to_one(a: nat, b: nat)
    requires
        a + b > 0,
    ensures
        share(a, b).sums_to_one(share(b, a)),
        share(a, b).complement() == share(b, a),
{
    let d = (a + b) as int;
    assert(a * d + b * d == d * d) by (nonlinear_arith)
        requires
            d == a + b,
    ;
}

} // verus!
