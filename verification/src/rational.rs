//! Exact rational quantities.
//!
//! Balances and rates accumulate over unboundedly many ticks, so every
//! quantity is an arbitrary-precision ratio of integers. The arithmetic is done
//! by `num`; this module gives each operation a contract over the real number
//! that a ratio denotes.
use num::bigint::BigInt;
use num::rational::Ratio;
use vstd::prelude::*;

verus! {

/// `num`'s arbitrary-precision integer, carried through as an opaque value.
#[verifier::external_type_specification]
#[verifier::external_body]
pub struct ExBigInt(BigInt);

/// `num`'s ratio of two integers. Its two fields are private to `num`; what a
/// ratio of big integers holds is named by `ratio_numer` and `ratio_denom`.
#[verifier::external_type_specification]
#[verifier::external_body]
#[verifier::reject_recursive_types(T)]
pub struct ExRatio<T>(Ratio<T>);

/// The numerator that a ratio holds.
pub uninterp spec fn ratio_numer(q: Ratio<BigInt>) -> int;

/// The denominator that a ratio holds.
pub uninterp spec fn ratio_denom(q: Ratio<BigInt>) -> int;

/// The real number `numer / denom`.
pub open spec fn quotient(numer: int, denom: int) -> real {
    numer as real / denom as real
}

/// The real number that a ratio denotes, where its denominator is not zero.
pub open spec fn ratio_value(q: Ratio<BigInt>) -> real {
    quotient(ratio_numer(q), ratio_denom(q))
}

/// `Ratio::new` on two machine integers: the ratio `numer / denom` in lowest
/// terms. It panics on a zero denominator, which `requires` leaves out; the
/// result has a denominator above zero and denotes the same quotient.
#[verifier::external_body]
fn ratio_new(numer: i64, denom: i64) -> (r: Ratio<BigInt>)
    requires
        denom != 0,
    ensures
        ratio_denom(r) > 0,
        ratio_value(r) == quotient(numer as int, denom as int),
{
    Ratio::new(BigInt::from(numer), BigInt::from(denom))
}

/// `Add` of two ratio references: the exact sum, reduced again.
#[verifier::external_body]
fn ratio_add(a: &Ratio<BigInt>, b: &Ratio<BigInt>) -> (r: Ratio<BigInt>)
    requires
        ratio_denom(*a) > 0,
        ratio_denom(*b) > 0,
    ensures
        ratio_denom(r) > 0,
        ratio_value(r) == ratio_value(*a) + ratio_value(*b),
{
    a + b
}

/// `Sub` of two ratio references: the exact difference, reduced again.
#[verifier::external_body]
fn ratio_sub(a: &Ratio<BigInt>, b: &Ratio<BigInt>) -> (r: Ratio<BigInt>)
    requires
        ratio_denom(*a) > 0,
        ratio_denom(*b) > 0,
    ensures
        ratio_denom(r) > 0,
        ratio_value(r) == ratio_value(*a) - ratio_value(*b),
{
    a - b
}

/// `Mul` of two ratio references: the exact product, reduced again.
#[verifier::external_body]
fn ratio_mul(a: &Ratio<BigInt>, b: &Ratio<BigInt>) -> (r: Ratio<BigInt>)
    requires
        ratio_denom(*a) > 0,
        ratio_denom(*b) > 0,
    ensures
        ratio_denom(r) > 0,
        ratio_value(r) == ratio_value(*a) * ratio_value(*b),
{
    a * b
}

/// `Div` of two ratio references: the exact quotient, reduced again. It
/// panics when the divisor's numerator is zero, which `requires` leaves out.
#[verifier::external_body]
fn ratio_div(a: &Ratio<BigInt>, b: &Ratio<BigInt>) -> (r: Ratio<BigInt>)
    requires
        ratio_denom(*a) > 0,
        ratio_denom(*b) > 0,
        ratio_numer(*b) != 0,
    ensures
        ratio_denom(r) > 0,
        ratio_value(r) == ratio_value(*a) / ratio_value(*b),
{
    a / b
}

/// `PartialOrd::lt` of two ratios: the order of the numbers they denote, found
/// without rounding.
#[verifier::external_body]
fn ratio_lt(a: &Ratio<BigInt>, b: &Ratio<BigInt>) -> (r: bool)
    requires
        ratio_denom(*a) > 0,
        ratio_denom(*b) > 0,
    ensures
        r == (ratio_value(*a) < ratio_value(*b)),
{
    a < b
}

/// `Clone::clone` of a ratio: a ratio that holds the same two integers.
#[verifier::external_body]
fn ratio_clone(a: &Ratio<BigInt>) -> (r: Ratio<BigInt>)
    ensures
        ratio_numer(r) == ratio_numer(*a),
        ratio_denom(r) == ratio_denom(*a),
{
    a.clone()
}

/// `Ratio::reduced`: the same number in lowest terms, with a denominator above
/// zero. It panics on a zero denominator, which `requires` leaves out.
#[verifier::external_body]
fn ratio_reduced(a: &Ratio<BigInt>) -> (r: Ratio<BigInt>)
    requires
        ratio_denom(*a) != 0,
    ensures
        ratio_denom(r) > 0,
        ratio_value(r) == ratio_value(*a),
{
    a.reduced()
}

/// `Ratio::floor`: the largest whole number that is not above the ratio. It
/// divides rounding towards zero and corrects for a negative ratio, which is
/// right where the denominator is above zero.
#[verifier::external_body]
fn ratio_floor(a: &Ratio<BigInt>) -> (r: Ratio<BigInt>)
    requires
        ratio_denom(*a) > 0,
    ensures
        ratio_denom(r) > 0,
        ratio_value(r) == ratio_value(*a).floor() as real,
{
    a.floor()
}

/// `Zero::is_zero` of the denominator that `Ratio::denom` hands out.
#[verifier::external_body]
fn ratio_denom_is_zero(a: &Ratio<BigInt>) -> (r: bool)
    ensures
        r == (ratio_denom(*a) == 0),
{
    num::Zero::is_zero(a.denom())
}

/// An exact rational number.
///
/// Its view is the real number it denotes.
#[derive(Debug)]
pub struct Rational {
    q: Ratio<BigInt>,
}

impl View for Rational {
    type V = real;

    closed spec fn view(&self) -> real {
        ratio_value(self.q)
    }
}

impl Rational {
    #[verifier::type_invariant]
    spec fn well_formed(self) -> bool {
        ratio_denom(self.q) > 0
    }

    /// The ratio `numer / denom`, or `None` for a zero denominator.
    pub fn new(numer: i64, denom: i64) -> (r: Option<Rational>)
        ensures
            r is None <==> denom == 0,
            r is Some ==> r->0@ == quotient(numer as int, denom as int),
    {
        if denom == 0 {
            None
        } else {
            Some(Rational { q: ratio_new(numer, denom) })
        }
    }

    /// The whole number `n`.
    pub fn from_integer(n: i64) -> (r: Rational)
        ensures
            r@ == n as real,
    {
        let r = Rational { q: ratio_new(n, 1) };
        proof {
            lemma_quotient_by_one(n as int);
        }
        r
    }

    /// Zero.
    pub fn zero() -> (r: Rational)
        ensures
            r@ == 0real,
    {
        Rational::from_integer(0)
    }

    /// `self + other`.
    pub fn add(&self, other: &Rational) -> (r: Rational)
        ensures
            r@ == self@ + other@,
    {
        proof {
            use_type_invariant(self);
            use_type_invariant(other);
        }
        Rational { q: ratio_add(&self.q, &other.q) }
    }

    /// `self - other`.
    pub fn sub(&self, other: &Rational) -> (r: Rational)
        ensures
            r@ == self@ - other@,
    {
        proof {
            use_type_invariant(self);
            use_type_invariant(other);
        }
        Rational { q: ratio_sub(&self.q, &other.q) }
    }

    /// `self * other`.
    pub fn mul(&self, other: &Rational) -> (r: Rational)
        ensures
            r@ == self@ * other@,
    {
        proof {
            use_type_invariant(self);
            use_type_invariant(other);
        }
        Rational { q: ratio_mul(&self.q, &other.q) }
    }

    /// `self / other`, for a divisor other than zero.
    pub fn div(&self, other: &Rational) -> (r: Rational)
        requires
            other@ != 0real,
        ensures
            r@ == self@ / other@,
    {
        proof {
            use_type_invariant(self);
            use_type_invariant(other);
            lemma_quotient_sign(ratio_numer(other.q), ratio_denom(other.q));
        }
        Rational { q: ratio_div(&self.q, &other.q) }
    }

    /// Whether `self < other`.
    pub fn lt(&self, other: &Rational) -> (r: bool)
        ensures
            r == (self@ < other@),
    {
        proof {
            use_type_invariant(self);
            use_type_invariant(other);
        }
        ratio_lt(&self.q, &other.q)
    }

    /// Whether `self <= other`.
    pub fn le(&self, other: &Rational) -> (r: bool)
        ensures
            r == (self@ <= other@),
    {
        !other.lt(self)
    }

    /// Whether the number is below zero.
    pub fn is_negative(&self) -> (r: bool)
        ensures
            r == (self@ < 0real),
    {
        let zero = Rational::zero();
        self.lt(&zero)
    }

    /// Whether the number is above zero.
    pub fn is_positive(&self) -> (r: bool)
        ensures
            r == (self@ > 0real),
    {
        let zero = Rational::zero();
        zero.lt(self)
    }

    /// The smaller of two numbers.
    pub fn min(self, other: Rational) -> (r: Rational)
        ensures
            r@ == if other@ < self@ { other@ } else { self@ },
    {
        if other.lt(&self) {
            other
        } else {
            self
        }
    }

    /// The larger of two numbers.
    pub fn max(self, other: Rational) -> (r: Rational)
        ensures
            r@ == if self@ < other@ { other@ } else { self@ },
    {
        if self.lt(&other) {
            other
        } else {
            self
        }
    }

    /// The largest whole number that is not above this one.
    pub fn floor(&self) -> (r: Rational)
        ensures
            r@ == self@.floor() as real,
    {
        proof {
            use_type_invariant(self);
        }
        Rational { q: ratio_floor(&self.q) }
    }

    /// A copy of the ratio, for code that works with `num` directly.
    pub fn to_big(&self) -> (q: Ratio<BigInt>)
        ensures
            ratio_denom(q) > 0,
            ratio_value(q) == self@,
    {
        proof {
            use_type_invariant(self);
        }
        ratio_clone(&self.q)
    }

    /// The number that a ratio built with `num` denotes, unless its denominator
    /// is zero.
    pub fn from_big(q: Ratio<BigInt>) -> (r: Option<Rational>)
        ensures
            r is None <==> ratio_denom(q) == 0,
            r is Some ==> r->0@ == ratio_value(q),
    {
        if ratio_denom_is_zero(&q) {
            None
        } else {
            Some(Rational { q: ratio_reduced(&q) })
        }
    }
}

impl Clone for Rational {
    fn clone(&self) -> (r: Rational)
        ensures
            r@ == self@,
    {
        proof {
            use_type_invariant(self);
        }
        Rational { q: ratio_clone(&self.q) }
    }
}

impl PartialEq for Rational {
    fn eq(&self, other: &Rational) -> (r: bool) {
        !self.lt(other) && !other.lt(self)
    }
}

impl vstd::std_specs::cmp::PartialEqSpecImpl for Rational {
    open spec fn obeys_eq_spec() -> bool {
        true
    }

    open spec fn eq_spec(&self, other: &Rational) -> bool {
        self@ == other@
    }
}

/// A whole number over one is that number.
pub proof fn lemma_quotient_by_one(n: int)
    ensures
        quotient(n, 1) == n as real,
{
    assert(n as real / 1real == n as real) by (nonlinear_arith);
}

/// Over a denominator above zero a quotient has the sign of its numerator.
pub proof fn lemma_quotient_sign(n: int, d: int)
    requires
        d > 0,
    ensures
        quotient(n, d) > 0real <==> n > 0,
        quotient(n, d) < 0real <==> n < 0,
        quotient(n, d) == 0real <==> n == 0,
{
    let numer = n as real;
    let denom = d as real;
    assert(denom > 0real ==> (numer / denom > 0real <==> numer > 0real) && (numer / denom < 0real
        <==> numer < 0real)) by (nonlinear_arith);
}

} // verus!
