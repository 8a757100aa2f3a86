//! Exact non-negative rational numbers.
//!
//! Every point value in a report — a per-test weight, a coverage fraction, a
//! normalized total — is an exact fraction of two machine integers, so the
//! arithmetic of the grading engine can be stated and checked exactly, with
//! no rounding at any step.

use vstd::prelude::*;

verus! {

/// Mathematical model of a fraction: a numerator over a denominator.
pub ghost struct Frac {
    pub num: int,
    pub den: int,
}

/// A well-formed fraction is non-negative with a positive denominator.
pub open spec fn frac_wf(f: Frac) -> bool {
    f.den >= 1 && f.num >= 0
}

pub open spec fn frac_zero() -> Frac {
    Frac { num: 0, den: 1 }
}

/// Fraction addition by cross multiplication.
pub open spec fn frac_add(a: Frac, b: Frac) -> Frac {
    Frac { num: a.num * b.den + b.num * a.den, den: a.den * b.den }
}

/// Two fractions denote the same rational number.
pub open spec fn frac_eq(a: Frac, b: Frac) -> bool {
    a.num * b.den == b.num * a.den
}

/// `a` denotes a rational no greater than `b` (for positive denominators).
pub open spec fn frac_le(a: Frac, b: Frac) -> bool {
    a.num * b.den <= b.num * a.den
}

/// The sum of a sequence of fractions, left to right.
pub open spec fn sum_frac(s: Seq<Frac>) -> Frac
    decreases s.len(),
{
    if s.len() == 0 {
        frac_zero()
    } else {
        frac_add(sum_frac(s.drop_last()), s.last())
    }
}

pub proof fn lemma_frac_add_wf(a: Frac, b: Frac)
    requires
        frac_wf(a),
        frac_wf(b),
    ensures
        frac_wf(frac_add(a, b)),
{
    assert(a.num * b.den >= 0 && b.num * a.den >= 0 && a.den * b.den >= 1) by (nonlinear_arith)
        requires
            a.den >= 1,
            b.den >= 1,
            a.num >= 0,
            b.num >= 0,
    ;
}

pub proof fn lemma_sum_frac_wf(s: Seq<Frac>)
    requires
        forall|i: int| 0 <= i < s.len() ==> frac_wf(#[trigger] s[i]),
    ensures
        frac_wf(sum_frac(s)),
    decreases s.len(),
{
    if s.len() > 0 {
        lemma_sum_frac_wf(s.drop_last());
        lemma_frac_add_wf(sum_frac(s.drop_last()), s.last());
    }
}

/// Denoting the same rational is transitive over well-formed fractions.
pub proof fn lemma_frac_eq_trans(a: Frac, b: Frac, c: Frac)
    requires
        frac_wf(a),
        frac_wf(b),
        frac_wf(c),
        frac_eq(a, b),
        frac_eq(b, c),
    ensures
        frac_eq(a, c),
{
    assert(a.num * c.den == c.num * a.den) by (nonlinear_arith)
        requires
            a.den >= 1,
            b.den >= 1,
            c.den >= 1,
            a.num * b.den == b.num * a.den,
            b.num * c.den == c.num * b.den,
    ;
}

/// Replacing one summand by an equal fraction keeps the sum's value.
pub proof fn lemma_frac_add_congruence(a: Frac, b: Frac, c: Frac)
    requires
        frac_wf(a),
        frac_wf(b),
        frac_wf(c),
        frac_eq(a, b),
    ensures
        frac_eq(frac_add(a, c), frac_add(b, c)),
{
    assert((a.num * c.den + c.num * a.den) * (b.den * c.den) == (b.num * c.den + c.num * b.den)
        * (a.den * c.den)) by (nonlinear_arith)
        requires
            a.den >= 1,
            b.den >= 1,
            c.den >= 1,
            a.num * b.den == b.num * a.den,
    ;
}

/// Executable representation: an exact non-negative fraction of two `u64`s.
#[derive(Debug)]
pub struct Rat {
    pub num: u64,
    pub den: u64,
}

impl View for Rat {
    type V = Frac;

    open spec fn view(&self) -> Frac {
        Frac { num: self.num as int, den: self.den as int }
    }
}

impl Rat {
    pub open spec fn wf(self) -> bool {
        self.den >= 1
    }

    pub fn new(num: u64, den: u64) -> (r: Rat)
        requires
            den >= 1,
        ensures
            r.wf(),
            r@ == (Frac { num: num as int, den: den as int }),
    {
        Rat { num, den }
    }

    /// The rational value of a whole number of points.
    pub fn whole(n: u64) -> (r: Rat)
        ensures
            r.wf(),
            r@ == (Frac { num: n as int, den: 1 }),
    {
        Rat { num: n, den: 1 }
    }

    pub fn zero() -> (r: Rat)
        ensures
            r.wf(),
            r@ == frac_zero(),
    {
        Rat { num: 0, den: 1 }
    }

    pub fn clone_rat(&self) -> (r: Rat)
        ensures
            r == *self,
    {
        Rat { num: self.num, den: self.den }
    }

    /// Exact addition; `None` exactly when a component would not fit in `u64`.
    pub fn add(&self, other: &Rat) -> (r: Option<Rat>)
        requires
            self.wf(),
            other.wf(),
        ensures
            r matches Some(s) ==> s.wf() && s@ == frac_add(self@, other@),
            r is Some <==> (self@.den * other@.den <= u64::MAX && self@.num * other@.den
                + other@.num * self@.den <= u64::MAX),
    {
        proof {
            assert(self@.num * other@.den >= 0 && other@.num * self@.den >= 0)
                by (nonlinear_arith)
                requires
                    self.num >= 0,
                    other.num >= 0,
                    self.den >= 1,
                    other.den >= 1,
            ;
        }
        proof {
            lemma_mul_pos(self@.den, other@.den);
        }
        match mul_fitting(self.den, other.den) {
            None => None,
            Some(d) => match mul_fitting(self.num, other.den) {
                None => None,
                Some(x) => match mul_fitting(other.num, self.den) {
                    None => None,
                    Some(y) => match add_fitting(x, y) {
                        None => None,
                        Some(n) => Some(Rat { num: n, den: d }),
                    },
                },
            },
        }
    }

    /// Exact division of a budget into `n` equal shares.
    pub fn div_by(&self, n: u64) -> (r: Option<Rat>)
        requires
            self.wf(),
            n >= 1,
        ensures
            r matches Some(s) ==> s.wf() && s@ == (Frac {
                num: self@.num,
                den: self@.den * n,
            }),
            r is Some <==> self@.den * n <= u64::MAX,
    {
        proof {
            lemma_mul_pos(self@.den, n as int);
        }
        match mul_fitting(self.den, n) {
            None => None,
            Some(d) => Some(Rat { num: self.num, den: d }),
        }
    }

    /// Exact value of `self * hit / found`.
    pub fn scale_ratio(&self, hit: u64, found: u64) -> (r: Option<Rat>)
        requires
            self.wf(),
            found >= 1,
        ensures
            r matches Some(s) ==> s.wf() && s@ == (Frac {
                num: self@.num * hit,
                den: self@.den * found,
            }),
            r is Some <==> (self@.den * found <= u64::MAX && self@.num * hit <= u64::MAX),
    {
        proof {
            lemma_mul_pos(self@.den, found as int);
        }
        match mul_fitting(self.den, found) {
            None => None,
            Some(d) => match mul_fitting(self.num, hit) {
                None => None,
                Some(n) => Some(Rat { num: n, den: d }),
            },
        }
    }

    /// Exact value of `100 * self / m`, the normalization step.
    pub fn percent_of(&self, m: &Rat) -> (r: Option<Rat>)
        requires
            self.wf(),
            m.wf(),
            m@.num >= 1,
        ensures
            r matches Some(s) ==> s.wf() && s@ == (Frac {
                num: 100 * self@.num * m@.den,
                den: self@.den * m@.num,
            }),
            r is Some <==> (self@.den * m@.num <= u64::MAX && 100 * self@.num * m@.den
                <= u64::MAX),
    {
        proof {
            lemma_mul_pos(self@.den, m@.num);
        }
        match mul_fitting(self.den, m.num) {
            None => None,
            Some(d) => match mul_fitting(self.num, m.den) {
                None => {
                    proof {
                        assert(100 * self@.num * m@.den > u64::MAX) by (nonlinear_arith)
                            requires
                                self@.num * m@.den > u64::MAX,
                                self@.num >= 0,
                                m@.den >= 1,
                        ;
                    }
                    None
                },
                Some(p) => match mul_fitting(100u64, p) {
                    None => {
                        proof {
                            assert(100 * self@.num * m@.den == 100 * (self@.num * m@.den))
                                by (nonlinear_arith);
                        }
                        None
                    },
                    Some(n) => {
                        proof {
                            assert(100 * self@.num * m@.den == 100 * (self@.num * m@.den))
                                by (nonlinear_arith);
                        }
                        Some(Rat { num: n, den: d })
                    },
                },
            },
        }
    }

    /// Whether two representations denote the same rational number.
    pub fn same_value(&self, other: &Rat) -> (r: bool)
        ensures
            r == frac_eq(self@, other@),
    {
        proof {
            lemma_u64_products_fit(self.num, other.den);
            lemma_u64_products_fit(other.num, self.den);
        }
        let a: u128 = (self.num as u128) * (other.den as u128);
        let b: u128 = (other.num as u128) * (self.den as u128);
        a == b
    }

    /// Whether `self` denotes a rational no greater than `other`.
    pub fn le_value(&self, other: &Rat) -> (r: bool)
        ensures
            r == frac_le(self@, other@),
    {
        proof {
            lemma_u64_products_fit(self.num, other.den);
            lemma_u64_products_fit(other.num, self.den);
        }
        let a: u128 = (self.num as u128) * (other.den as u128);
        let b: u128 = (other.num as u128) * (self.den as u128);
        a <= b
    }
}

proof fn lemma_mul_pos(a: int, b: int)
    requires
        a >= 1,
        b >= 1,
    ensures
        a * b >= 1,
{
    assert(a * b >= 1) by (nonlinear_arith)
        requires
            a >= 1,
            b >= 1,
    ;
}

proof fn lemma_u64_products_fit(a: u64, b: u64)
    ensures
        a * b <= u128::MAX,
{
    assert(a * b <= u64::MAX * u64::MAX) by (nonlinear_arith)
        requires
            a <= u64::MAX,
            b <= u64::MAX,
    ;
}

/// `a * b` when it fits in `u64`, else `None`.
fn mul_fitting(a: u64, b: u64) -> (r: Option<u64>)
    ensures
        r matches Some(p) ==> p == a * b,
        r is Some <==> a * b <= u64::MAX,
{
    proof {
        lemma_u64_products_fit(a, b);
    }
    let p: u128 = (a as u128) * (b as u128);
    if p <= u64::MAX as u128 {
        Some(p as u64)
    } else {
        None
    }
}

/// `a + b` when it fits in `u64`, else `None`.
fn add_fitting(a: u64, b: u64) -> (r: Option<u64>)
    ensures
        r matches Some(p) ==> p == a + b,
        r is Some <==> a + b <= u64::MAX,
{
    let p: u128 = (a as u128) + (b as u128);
    if p <= u64::MAX as u128 {
        Some(p as u64)
    } else {
        None
    }
}

} // verus!
