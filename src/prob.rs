use vstd::prelude::*;

verus! {

/// An exact probability, the fraction `num / den`.
#[derive(Debug, PartialEq, Eq, Structural, Clone, Copy)]
pub struct Prob {
    pub num: u64,
    pub den: u64,
}

/// The exact product of two 64-bit numbers.
fn wide_mul(a: u64, b: u64) -> (r: u128)
    ensures
        r == a * b,
{
    proof {
        assert(a * b <= u64::MAX * u64::MAX) by (nonlinear_arith)
            requires
                a <= u64::MAX,
                b <= u64::MAX,
        ;
    }
    (a as u128) * (b as u128)
}

impl Prob {
    /// A fraction in `[0, 1]` with a positive denominator.
    pub open spec fn wf(self) -> bool {
        0 < self.den && self.num <= self.den
    }

    /// `self < other` as rational numbers.
    pub open spec fn spec_lt(self, other: Prob) -> bool {
        self.num * other.den < other.num * self.den
    }

    /// `self == other` as rational numbers.
    pub open spec fn spec_same(self, other: Prob) -> bool {
        self.num * other.den == other.num * self.den
    }

    /// The exact product of two fractions.
    pub open spec fn spec_mul(self, other: Prob) -> Prob {
        Prob { num: (self.num * other.num) as u64, den: (self.den * other.den) as u64 }
    }

    /// `1 - self`.
    pub open spec fn spec_complement(self) -> Prob {
        Prob { num: (self.den - self.num) as u64, den: self.den }
    }

    pub fn new(num: u64, den: u64) -> (r: Prob)
        requires
            0 < den,
            num <= den,
        ensures
            r == (Prob { num, den }),
            r.wf(),
    {
        Prob { num, den }
    }

    /// Certainty.
    pub fn one() -> (r: Prob)
        ensures
            r == (Prob { num: 1, den: 1 }),
            r.wf(),
    {
        Prob { num: 1, den: 1 }
    }

    /// A chance of `n` in six, the chance of rolling at least `7 - n` on a die.
    pub fn sixths(n: u64) -> (r: Prob)
        requires
            n <= 6,
        ensures
            r == (Prob { num: n, den: 6 }),
            r.wf(),
    {
        Prob { num: n, den: 6 }
    }

    /// The exact product, or `None` where it does not fit in 64 bits.
    pub fn mul(&self, other: &Prob) -> (r: Option<Prob>)
        requires
            self.wf(),
            other.wf(),
        ensures
            r is Some <==> (self.num * other.num <= u64::MAX && self.den * other.den <= u64::MAX),
            r matches Some(p) ==> p == self.spec_mul(*other) && p.wf(),
    {
        let n = self.num.checked_mul(other.num);
        let d = self.den.checked_mul(other.den);
        match (n, d) {
            (Some(n), Some(d)) => {
                proof {
                    assert(self.num * other.num <= self.den * other.den) by (nonlinear_arith)
                        requires
                            self.num <= self.den,
                            other.num <= other.den,
                    ;
                    assert(0 < self.den * other.den) by (nonlinear_arith)
                        requires
                            0 < self.den,
                            0 < other.den,
                    ;
                }
                Some(Prob { num: n, den: d })
            },
            _ => None,
        }
    }

    /// `1 - self`.
    pub fn complement(&self) -> (r: Prob)
        requires
            self.wf(),
        ensures
            r == self.spec_complement(),
            r.wf(),
    {
        Prob { num: self.den - self.num, den: self.den }
    }

    /// `self < other` as rational numbers.
    pub fn lt(&self, other: &Prob) -> (r: bool)
        ensures
            r == self.spec_lt(*other),
    {
        wide_mul(self.num, other.den) < wide_mul(other.num, self.den)
    }

    /// `self == other` as rational numbers.
    pub fn same(&self, other: &Prob) -> (r: bool)
        ensures
            r == self.spec_same(*other),
    {
        wide_mul(self.num, other.den) == wide_mul(other.num, self.den)
    }

    /// Below one in a hundred.
    pub fn below_one_percent(&self) -> (r: bool)
        ensures
            r == (100 * self.num < self.den),
    {
        (self.num as u128) * 100 < self.den as u128
    }
}

/// The probabilities share one denominator and their numerators add up to it: they sum
/// to one.
pub open spec fn sums_to_one(ps: Seq<Prob>) -> bool {
    ps.len() > 0 && (forall|i: int|
        0 <= i < ps.len() ==> (#[trigger] ps[i]).den == ps[0].den && ps[i].wf()) && num_sum(ps)
        == ps[0].den
}

/// The sum of the numerators.
pub open spec fn num_sum(ps: Seq<Prob>) -> int
    decreases ps.len(),
{
    if ps.len() == 0 {
        0
    } else {
        num_sum(ps.drop_last()) + ps.last().num
    }
}

} // verus!
