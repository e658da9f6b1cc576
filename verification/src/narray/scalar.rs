use vstd::prelude::*;
use vstd::wrapping::i64_specs;

verus! {

/// The arithmetic that the containers ask of their elements.
///
/// Each executable operation is tied to a specification function of the same
/// meaning, so that contracts of vectors and matrices can be written as
/// formulas over the elements. Nothing is assumed about the operations beyond
/// their being functions of their arguments: no associativity, no identities.
/// Types that do obey such laws say so by implementing [`LawfulScalar`].
pub trait Scalar: Copy + Sized {
    /// The additive neutral element.
    spec fn zero_spec() -> Self;

    /// The multiplicative neutral element.
    spec fn one_spec() -> Self;

    /// The sum of `self` and `rhs`.
    spec fn add_spec(self, rhs: Self) -> Self;

    /// The difference `self - rhs`.
    spec fn sub_spec(self, rhs: Self) -> Self;

    /// The product of `self` and `rhs`.
    spec fn mul_spec(self, rhs: Self) -> Self;

    /// `self` divided by the positive count `n`.
    spec fn div_count_spec(self, n: usize) -> Self;

    /// Whether `self` is strictly greater than zero.
    spec fn is_positive_spec(self) -> bool;

    /// The additive neutral element.
    fn zero() -> (r: Self)
        ensures
            r == Self::zero_spec(),
    ;

    /// The multiplicative neutral element.
    fn one() -> (r: Self)
        ensures
            r == Self::one_spec(),
    ;

    /// The sum of `self` and `rhs`.
    fn add(self, rhs: Self) -> (r: Self)
        ensures
            r == self.add_spec(rhs),
    ;

    /// The difference `self - rhs`.
    fn sub(self, rhs: Self) -> (r: Self)
        ensures
            r == self.sub_spec(rhs),
    ;

    /// The product of `self` and `rhs`.
    fn mul(self, rhs: Self) -> (r: Self)
        ensures
            r == self.mul_spec(rhs),
    ;

    /// `self` divided by the positive count `n`.
    fn div_count(self, n: usize) -> (r: Self)
        requires
            n > 0,
        ensures
            r == self.div_count_spec(n),
    ;

    /// Whether `self` is strictly greater than zero.
    fn is_positive(self) -> (r: bool)
        ensures
            r == self.is_positive_spec(),
    ;
}

/// Scalars whose addition is associative, whose zero is neutral for addition
/// and absorbing for multiplication, and whose one is neutral for
/// multiplication. The algebraic laws of the containers are stated for these.
pub trait LawfulScalar: Scalar {
    /// Addition is associative.
    proof fn add_associative(a: Self, b: Self, c: Self)
        ensures
            a.add_spec(b).add_spec(c) == a.add_spec(b.add_spec(c)),
    ;

    /// Zero is neutral for addition, on either side.
    proof fn add_zero(a: Self)
        ensures
            a.add_spec(Self::zero_spec()) == a,
            Self::zero_spec().add_spec(a) == a,
    ;

    /// One is neutral for multiplication from the right.
    proof fn mul_one(a: Self)
        ensures
            a.mul_spec(Self::one_spec()) == a,
    ;

    /// Multiplying by zero from the right gives zero.
    proof fn mul_zero(a: Self)
        ensures
            a.mul_spec(Self::zero_spec()) == Self::zero_spec(),
    ;
}

/// The quotient of `a` by `n`, rounded towards zero.
pub open spec fn truncated_quotient(a: int, n: nat) -> int {
    if a >= 0 {
        a / (n as int)
    } else {
        -((-a) / (n as int))
    }
}

/// Integers modulo 2^64: sums, differences and products wrap around, division
/// by a count rounds towards zero.
impl Scalar for i64 {
    open spec fn zero_spec() -> i64 {
        0i64
    }

    open spec fn one_spec() -> i64 {
        1i64
    }

    open spec fn add_spec(self, rhs: i64) -> i64 {
        i64_specs::wrapping_add(self, rhs)
    }

    open spec fn sub_spec(self, rhs: i64) -> i64 {
        i64_specs::wrapping_sub(self, rhs)
    }

    open spec fn mul_spec(self, rhs: i64) -> i64 {
        i64_specs::wrapping_mul(self, rhs)
    }

    open spec fn div_count_spec(self, n: usize) -> i64 {
        truncated_quotient(self as int, n as nat) as i64
    }

    open spec fn is_positive_spec(self) -> bool {
        self > 0
    }

    fn zero() -> (r: i64) {
        0i64
    }

    fn one() -> (r: i64) {
        1i64
    }

    fn add(self, rhs: i64) -> (r: i64) {
        self.wrapping_add(rhs)
    }

    fn sub(self, rhs: i64) -> (r: i64) {
        self.wrapping_sub(rhs)
    }

    fn mul(self, rhs: i64) -> (r: i64) {
        self.wrapping_mul(rhs)
    }

    fn div_count(self, n: usize) -> (r: i64) {
        let divisor: u64 = n as u64;
        if self >= 0 {
            let quotient: u64 = (self as u64) / divisor;
            quotient as i64
        } else {
            // -(self + 1) fits even for the least value, whose magnitude does not.
            let magnitude: u64 = ((-(self + 1)) as u64) + 1;
            let quotient: u64 = magnitude / divisor;
            assert(quotient <= magnitude) by (nonlinear_arith)
                requires
                    quotient == magnitude / divisor,
                    divisor > 0,
            ;
            if quotient > i64::MAX as u64 {
                i64::MIN
            } else {
                -(quotient as i64)
            }
        }
    }

    fn is_positive(self) -> (r: bool) {
        self > 0
    }
}

impl LawfulScalar for i64 {
    proof fn add_associative(a: i64, b: i64, c: i64) {
    }

    proof fn add_zero(a: i64) {
    }

    proof fn mul_one(a: i64) {
    }

    proof fn mul_zero(a: i64) {
    }
}

} // verus!
