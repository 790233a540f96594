//! The scalar abstraction the matrix kernel and the trigonometric primitive
//! are written against.
//!
//! A scalar type supplies its arithmetic twice: as specification functions,
//! which the contracts of this crate are stated over, and as executable
//! methods, each of which returns exactly what its specification function
//! names. Nothing else is assumed of the arithmetic: rounding, saturation or
//! wrap-around are the scalar's own business. Algebraic laws are separate
//! traits ([`Unital`], [`Ring`]) that only exact scalars implement.
//!
//! Every specification function has a default of which nothing is known. A
//! scalar whose arithmetic lies outside verified code, such as hardware
//! floating point, implements the executable methods and leaves the
//! specification functions at their defaults; the contracts of the kernel
//! then say how its results are composed of the scalar's operations without
//! saying what those compute.
use vstd::prelude::*;

verus! {

/// Some constant for each tag, of which nothing is known.
pub open spec fn unknown_constant<T>(tag: int) -> T {
    arbitrary::<spec_fn(int) -> T>()(tag)
}

/// Some function of one operand for each tag, of which nothing is known.
pub open spec fn unknown_unary<T>(tag: int, a: T) -> T {
    arbitrary::<spec_fn(int, T) -> T>()(tag, a)
}

/// Some function of two operands for each tag, of which nothing is known.
pub open spec fn unknown_binary<T>(tag: int, a: T, b: T) -> T {
    arbitrary::<spec_fn(int, T, T) -> T>()(tag, a, b)
}

/// Ring-shaped arithmetic: two constants and four operations.
pub trait Scalar: Copy {
    /// The additive constant.
    open spec fn zero_spec() -> Self {
        unknown_constant(0)
    }

    /// The multiplicative constant.
    open spec fn one_spec() -> Self {
        unknown_constant(1)
    }

    /// `self + rhs`.
    open spec fn plus_spec(self, rhs: Self) -> Self {
        unknown_binary(0, self, rhs)
    }

    /// `self - rhs`.
    open spec fn minus_spec(self, rhs: Self) -> Self {
        unknown_binary(1, self, rhs)
    }

    /// `self * rhs`.
    open spec fn times_spec(self, rhs: Self) -> Self {
        unknown_binary(2, self, rhs)
    }

    /// `-self`.
    open spec fn negate_spec(self) -> Self {
        unknown_unary(0, self)
    }

    /// The additive constant.
    fn zero() -> (r: Self)
        ensures
            r == Self::zero_spec(),
    ;

    /// The multiplicative constant.
    fn one() -> (r: Self)
        ensures
            r == Self::one_spec(),
    ;

    /// `self + rhs`.
    fn plus(self, rhs: Self) -> (r: Self)
        ensures
            r == self.plus_spec(rhs),
    ;

    /// `self - rhs`.
    fn minus(self, rhs: Self) -> (r: Self)
        ensures
            r == self.minus_spec(rhs),
    ;

    /// `self * rhs`.
    fn times(self, rhs: Self) -> (r: Self)
        ensures
            r == self.times_spec(rhs),
    ;

    /// `-self`.
    fn negate(self) -> (r: Self)
        ensures
            r == self.negate_spec(),
    ;
}

/// What the trigonometric primitive, the reflector and the text rendering
/// need beyond [`Scalar`]: division, remainder, an order, two conversions and
/// a decimal rendering.
pub trait Real: Scalar {
    /// `self / rhs`.
    open spec fn over_spec(self, rhs: Self) -> Self {
        unknown_binary(3, self, rhs)
    }

    /// The remainder of `self / rhs`, with the sign of `self`.
    open spec fn remainder_spec(self, rhs: Self) -> Self {
        unknown_binary(4, self, rhs)
    }

    /// `self < rhs`.
    open spec fn less_than_spec(self, rhs: Self) -> bool {
        arbitrary::<spec_fn(Self, Self) -> bool>()(self, rhs)
    }

    /// The scalar that stands for the IEEE-754 single-precision number with
    /// the bit pattern `bits`.
    open spec fn from_ieee_bits_spec(bits: u32) -> Self {
        arbitrary::<spec_fn(u32) -> Self>()(bits)
    }

    /// The scalar that stands for the count `n`.
    open spec fn from_count_spec(n: usize) -> Self {
        arbitrary::<spec_fn(usize) -> Self>()(n)
    }

    /// The decimal text of `self` with exactly three digits after the point.
    open spec fn decimal3_spec(self) -> Seq<char> {
        arbitrary::<spec_fn(Self) -> Seq<char>>()(self)
    }

    /// `self / rhs`. Every divisor is admitted; what a division by zero gives
    /// is the scalar's to say.
    fn over(self, rhs: Self) -> (r: Self)
        ensures
            r == self.over_spec(rhs),
    ;

    /// The remainder of `self / rhs`, with the sign of `self`.
    fn remainder(self, rhs: Self) -> (r: Self)
        ensures
            r == self.remainder_spec(rhs),
    ;

    /// `self < rhs`.
    fn less_than(self, rhs: Self) -> (r: bool)
        ensures
            r == self.less_than_spec(rhs),
    ;

    /// The scalar that stands for the IEEE-754 single-precision number with
    /// the bit pattern `bits`.
    fn from_ieee_bits(bits: u32) -> (r: Self)
        ensures
            r == Self::from_ieee_bits_spec(bits),
    ;

    /// The scalar that stands for the count `n`.
    fn from_count(n: usize) -> (r: Self)
        ensures
            r == Self::from_count_spec(n),
    ;

    /// The decimal text of `self` with exactly three digits after the point.
    fn decimal3(self) -> (r: String)
        ensures
            r@ == self.decimal3_spec(),
    ;
}

/// Scalars whose two constants are exact identities and whose zero
/// annihilates products.
pub trait Unital: Scalar {
    /// Zero is neutral for the sum.
    proof fn lemma_plus_zero(a: Self)
        ensures
            a.plus_spec(Self::zero_spec()) == a,
            Self::zero_spec().plus_spec(a) == a,
    ;

    /// One is neutral for the product.
    proof fn lemma_times_one(a: Self)
        ensures
            a.times_spec(Self::one_spec()) == a,
            Self::one_spec().times_spec(a) == a,
    ;

    /// A product with zero is zero.
    proof fn lemma_times_zero(a: Self)
        ensures
            a.times_spec(Self::zero_spec()) == Self::zero_spec(),
            Self::zero_spec().times_spec(a) == Self::zero_spec(),
    ;
}

/// Scalars whose addition and multiplication obey the laws of a ring.
pub trait Ring: Unital {
    /// The sum does not depend on the order of its operands.
    proof fn lemma_plus_commutative(a: Self, b: Self)
        ensures
            a.plus_spec(b) == b.plus_spec(a),
    ;

    /// Sums may be regrouped.
    proof fn lemma_plus_associative(a: Self, b: Self, c: Self)
        ensures
            a.plus_spec(b).plus_spec(c) == a.plus_spec(b.plus_spec(c)),
    ;

    /// Products may be regrouped.
    proof fn lemma_times_associative(a: Self, b: Self, c: Self)
        ensures
            a.times_spec(b).times_spec(c) == a.times_spec(b.times_spec(c)),
    ;

    /// The product distributes over the sum, from either side.
    proof fn lemma_distributive(a: Self, b: Self, c: Self)
        ensures
            a.times_spec(b.plus_spec(c)) == a.times_spec(b).plus_spec(a.times_spec(c)),
            a.plus_spec(b).times_spec(c) == a.times_spec(c).plus_spec(b.times_spec(c)),
    ;
}

} // verus!
