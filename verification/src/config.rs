//! The tunable numbers of a simulation.

use vstd::arithmetic::power::{
    lemma0_pow, lemma1_pow, lemma_pow0, lemma_pow_increases, lemma_pow_positive, pow,
};
use vstd::prelude::*;

verus! {

/// The highest index of a level; the sequences are read at `0..=TOP`.
pub const TOP: usize = 6;

/// A sequence that starts at `start` and grows from one term to the next by
/// `a * b^(n - 1)`, for the `n`-th step.
#[derive(Debug, Clone, Copy, PartialEq, Eq, Structural)]
pub struct Sequence {
    pub start: u64,
    pub a: u64,
    pub b: u64,
}

impl Sequence {
    /// The `n`-th step, `a * b^(n - 1)`; steps are counted from 1.
    pub open spec fn spec_diff(self, n: nat) -> int {
        self.a * pow(self.b as int, (n - 1) as nat)
    }

    /// The term after `k` steps: `start` plus the first `k` steps.
    pub open spec fn spec_value(self, k: nat) -> int
        decreases k,
    {
        if k == 0 {
            self.start as int
        } else {
            self.spec_value((k - 1) as nat) + self.spec_diff(k)
        }
    }

    /// Every term up to the `k`-th is a `u64`.
    pub open spec fn fits(self, k: nat) -> bool {
        self.spec_value(k) <= u64::MAX
    }

    /// Steps are never negative, so the terms never fall.
    pub proof fn lemma_value_grows(self, i: nat, k: nat)
        requires
            i <= k,
        ensures
            0 <= self.spec_diff(k),
            self.start <= self.spec_value(i) <= self.spec_value(k),
        decreases k,
    {
        let e = (k - 1) as nat;
        let p = pow(self.b as int, e);
        assert(0 <= p) by {
            if self.b != 0 {
                lemma_pow_positive(self.b as int, e);
            } else if e == 0 {
                lemma_pow0(0);
            } else {
                lemma0_pow(e);
            }
        }
        assert(0 <= self.a * p) by (nonlinear_arith)
            requires
                0 <= p,
                0 <= self.a,
        ;
        if k > 0 {
            if i < k {
                self.lemma_value_grows(i, (k - 1) as nat);
            } else {
                self.lemma_value_grows((k - 1) as nat, (k - 1) as nat);
            }
        }
    }

    /// The `n`-th step of the sequence.
    pub fn diff(&self, n: usize) -> (d: u64)
        requires
            n >= 1,
            self.spec_diff(n as nat) <= u64::MAX,
        ensures
            d == self.spec_diff(n as nat),
    {
        if self.a == 0 {
            assert(0 * pow(self.b as int, (n - 1) as nat) == 0) by (nonlinear_arith);
            return 0;
        }
        if self.b == 0 {
            proof {
                if n == 1 {
                    lemma_pow0(0);
                } else {
                    lemma0_pow((n - 1) as nat);
                }
                assert(self.a * 1 == self.a && self.a * 0 == 0) by (nonlinear_arith);
            }
            return if n == 1 {
                self.a
            } else {
                0
            };
        }
        if self.b == 1 {
            proof {
                lemma1_pow((n - 1) as nat);
                assert(self.a * 1 == self.a) by (nonlinear_arith);
            }
            return self.a;
        }
        let ghost last = pow(self.b as int, (n - 1) as nat);
        let mut term: u64 = self.a;
        let mut j: usize = 1;
        proof {
            lemma_pow0(self.b as int);
            assert(self.a * 1 == self.a) by (nonlinear_arith);
        }
        while j < n
            invariant
                1 <= j <= n,
                self.a >= 1,
                self.b >= 2,
                last == pow(self.b as int, (n - 1) as nat),
                self.a * last <= u64::MAX,
                term == self.a * pow(self.b as int, (j - 1) as nat),
            decreases n - j,
        {
            proof {
                let b = self.b as int;
                let a = self.a as int;
                let cur = pow(b, (j - 1) as nat);
                let next = pow(b, j as nat);
                assert(next == b * cur) by {
                    reveal(pow);
                }
                lemma_pow_increases(self.b as nat, j as nat, (n - 1) as nat);
                assert(a * next <= a * last) by (nonlinear_arith)
                    requires
                        next <= last,
                        a >= 0,
                ;
                assert(a * cur * b == a * next) by (nonlinear_arith)
                    requires
                        next == b * cur,
                ;
            }
            term = term * self.b;
            j = j + 1;
        }
        term
    }
}

/// What a simulation is run with.
#[derive(Debug, Clone, Copy, PartialEq, Eq, Structural)]
pub struct Config {
    /// The cultivation of a newborn. Kept with the configuration; newborns
    /// enter with ten whatever this says.
    pub cult_default: u64,
    /// The cultivation that a year of training adds. Kept with the
    /// configuration; a year adds one whatever this says.
    pub cult_per_year: u64,
    /// The lifespans of the levels.
    pub lifespan: Sequence,
    /// The cultivation that the levels ask for.
    pub lvup: Sequence,
    /// How many cultivators enter the world each year.
    pub spawn_per_year: usize,
}

impl Config {
    /// The configuration that a simulation starts from when none is given.
    pub open spec fn spec_default() -> Config {
        Config {
            cult_default: 10,
            cult_per_year: 1,
            lifespan: Sequence { start: 100, a: 800, b: 10 },
            lvup: Sequence { start: 10, a: 90, b: 10 },
            spawn_per_year: 100,
        }
    }

    /// Both sequences stay within `u64` on every level.
    pub open spec fn representable(self) -> bool {
        self.lifespan.fits(TOP as nat) && self.lvup.fits(TOP as nat)
    }

    /// Whether both sequences stay within `u64` on every level.
    pub fn is_representable(&self) -> (r: bool)
        ensures
            r == self.representable(),
    {
        sequence_fits(&self.lifespan) && sequence_fits(&self.lvup)
    }
}

impl Default for Config {
    fn default() -> (c: Config)
        ensures
            c == Config::spec_default(),
            c.representable(),
    {
        proof {
            lemma_default_terms();
        }
        Config {
            cult_default: 10,
            cult_per_year: 1,
            lifespan: Sequence { start: 100, a: 800, b: 10 },
            lvup: Sequence { start: 10, a: 90, b: 10 },
            spawn_per_year: 100,
        }
    }
}

/// The terms of the two default sequences, written out.
pub proof fn lemma_default_terms()
    ensures
        ({
            let lvup = Config::spec_default().lvup;
            &&& lvup.spec_value(0) == 10
            &&& lvup.spec_value(1) == 100
            &&& lvup.spec_value(2) == 1000
            &&& lvup.spec_value(3) == 10000
            &&& lvup.spec_value(4) == 100000
            &&& lvup.spec_value(5) == 1000000
            &&& lvup.spec_value(6) == 10000000
        }),
        ({
            let lifespan = Config::spec_default().lifespan;
            &&& lifespan.spec_value(0) == 100
            &&& lifespan.spec_value(1) == 900
            &&& lifespan.spec_value(2) == 8900
            &&& lifespan.spec_value(3) == 88900
            &&& lifespan.spec_value(4) == 888900
            &&& lifespan.spec_value(5) == 8888900
            &&& lifespan.spec_value(6) == 88888900
        }),
{
    reveal_with_fuel(pow, 7);
    reveal_with_fuel(Sequence::spec_value, 8);
    assert(pow(10, 0) == 1);
    assert(pow(10, 1) == 10);
    assert(pow(10, 2) == 100);
    assert(pow(10, 3) == 1000);
    assert(pow(10, 4) == 10000);
    assert(pow(10, 5) == 100000);
}

/// Whether the first `TOP` steps keep the sequence within `u64`.
fn sequence_fits(seq: &Sequence) -> (r: bool)
    ensures
        r == seq.fits(TOP as nat),
{
    let limit: u128 = u64::MAX as u128;
    let mut sum: u128 = seq.start as u128;
    let mut term: u128 = seq.a as u128;
    let mut k: usize = 0;
    proof {
        lemma_pow0(seq.b as int);
        assert(seq.a * 1 == seq.a) by (nonlinear_arith);
    }
    while k < TOP
        invariant
            k <= TOP,
            limit == u64::MAX,
            sum == seq.spec_value(k as nat),
            sum <= limit,
            term == seq.spec_diff((k + 1) as nat),
            term <= limit * limit,
        decreases TOP - k,
    {
        proof {
            seq.lemma_value_grows((k + 1) as nat, TOP as nat);
        }
        if term > limit {
            return false;
        }
        sum = sum + term;
        if sum > limit {
            return false;
        }
        proof {
            let b = seq.b as int;
            let cur = pow(b, k as nat);
            let next = pow(b, (k + 1) as nat);
            assert(next == b * cur) by {
                reveal(pow);
            }
            assert(seq.a * cur * b == seq.a * next) by (nonlinear_arith)
                requires
                    next == b * cur,
            ;
            assert(term * seq.b <= limit * limit) by (nonlinear_arith)
                requires
                    term <= limit,
                    seq.b <= limit,
            ;
        }
        term = term * (seq.b as u128);
        k = k + 1;
    }
    true
}

} // verus!
