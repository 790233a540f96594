//! Machine integers as exact scalars: `i64` with arithmetic modulo `2^64`,
//! which is a commutative ring.
use crate::scalar::{Ring, Scalar, Unital};
use vstd::arithmetic::div_mod::{
    lemma_add_mod_noop, lemma_mod_add_multiples_vanish, lemma_mod_bound, lemma_mul_mod_noop,
    lemma_small_mod,
};
use vstd::prelude::*;
use vstd::wrapping::i64_specs::{signed_crop, wrapping_add, wrapping_mul, wrapping_sub};

verus! {

/// The number of residues modulo which `i64` computes.
pub open spec fn modulus() -> int {
    0x1_0000_0000_0000_0000
}

/// The `i64` congruent to `x`.
pub open spec fn wrapped(x: int) -> i64 {
    signed_crop(x)
}

/// `wrapped(x)` is congruent to `x`.
pub proof fn lemma_wrapped_congruent(x: int)
    ensures
        wrapped(x) as int % modulus() == x % modulus(),
{
    let r = modulus();
    lemma_mod_bound(x, r);
    if x % r > i64::MAX {
        lemma_mod_add_multiples_vanish(x % r - r, r);
    }
    lemma_small_mod((x % r) as nat, r as nat);
}

/// Congruent integers wrap to the same `i64`.
pub proof fn lemma_wrapped_equal(x: int, y: int)
    requires
        x % modulus() == y % modulus(),
    ensures
        wrapped(x) == wrapped(y),
{
}

/// An integer in the range of `i64` wraps to itself.
pub proof fn lemma_wrapped_small(x: int)
    requires
        i64::MIN <= x <= i64::MAX,
    ensures
        wrapped(x) == x,
{
    let r = modulus();
    if x >= 0 {
        lemma_small_mod(x as nat, r as nat);
    } else {
        lemma_small_mod((x + r) as nat, r as nat);
        lemma_mod_add_multiples_vanish(x, r);
    }
}

/// Wrapping one summand first changes nothing.
pub proof fn lemma_wrapped_plus(x: int, y: int)
    ensures
        wrapped(wrapped(x) + y) == wrapped(x + y),
        wrapped(y + wrapped(x)) == wrapped(y + x),
{
    let r = modulus();
    lemma_wrapped_congruent(x);
    lemma_add_mod_noop(wrapped(x) as int, y, r);
    lemma_add_mod_noop(x, y, r);
    lemma_wrapped_equal(wrapped(x) + y, x + y);
}

/// Wrapping one factor first changes nothing.
pub proof fn lemma_wrapped_times(x: int, y: int)
    ensures
        wrapped(wrapped(x) * y) == wrapped(x * y),
        wrapped(y * wrapped(x)) == wrapped(y * x),
{
    let r = modulus();
    lemma_wrapped_congruent(x);
    lemma_mul_mod_noop(wrapped(x) as int, y, r);
    lemma_mul_mod_noop(x, y, r);
    lemma_wrapped_equal(wrapped(x) * y, x * y);
    assert(y * wrapped(x) == wrapped(x) * y) by (nonlinear_arith);
    assert(y * x == x * y) by (nonlinear_arith);
}

/// The wrapping operations of `i64` are the exact ones followed by wrapping.
pub proof fn lemma_wrapping_operations(a: i64, b: i64)
    ensures
        wrapping_add(a, b) == wrapped(a + b),
        wrapping_sub(a, b) == wrapped(a - b),
        wrapping_mul(a, b) == wrapped(a * b),
{
    let r = modulus();
    if a + b > i64::MAX {
        lemma_wrapped_small(a + b - r);
        lemma_mod_add_multiples_vanish(a + b - r, r);
        lemma_wrapped_equal(a + b - r, a + b);
    } else if a + b < i64::MIN {
        lemma_wrapped_small(a + b + r);
        lemma_mod_add_multiples_vanish(a + b, r);
        lemma_wrapped_equal(a + b + r, a + b);
    } else {
        lemma_wrapped_small(a + b);
    }
    if a - b > i64::MAX {
        lemma_wrapped_small(a - b - r);
        lemma_mod_add_multiples_vanish(a - b - r, r);
        lemma_wrapped_equal(a - b - r, a - b);
    } else if a - b < i64::MIN {
        lemma_wrapped_small(a - b + r);
        lemma_mod_add_multiples_vanish(a - b, r);
        lemma_wrapped_equal(a - b + r, a - b);
    } else {
        lemma_wrapped_small(a - b);
    }
}

impl Scalar for i64 {
    open spec fn zero_spec() -> i64 {
        0
    }

    open spec fn one_spec() -> i64 {
        1
    }

    open spec fn plus_spec(self, rhs: i64) -> i64 {
        wrapped(self + rhs)
    }

    open spec fn minus_spec(self, rhs: i64) -> i64 {
        wrapped(self - rhs)
    }

    open spec fn times_spec(self, rhs: i64) -> i64 {
        wrapped(self * rhs)
    }

    open spec fn negate_spec(self) -> i64 {
        wrapped(-self)
    }

    fn zero() -> (r: i64) {
        0
    }

    fn one() -> (r: i64) {
        1
    }

    fn plus(self, rhs: i64) -> (r: i64) {
        proof {
            lemma_wrapping_operations(self, rhs);
        }
        self.wrapping_add(rhs)
    }

    fn minus(self, rhs: i64) -> (r: i64) {
        proof {
            lemma_wrapping_operations(self, rhs);
        }
        self.wrapping_sub(rhs)
    }

    fn times(self, rhs: i64) -> (r: i64) {
        proof {
            lemma_wrapping_operations(self, rhs);
        }
        self.wrapping_mul(rhs)
    }

    fn negate(self) -> (r: i64) {
        proof {
            lemma_wrapping_operations(0, self);
        }
        0i64.wrapping_sub(self)
    }
}

impl Unital for i64 {
    proof fn lemma_plus_zero(a: i64) {
        lemma_wrapped_small(a as int);
    }

    proof fn lemma_times_one(a: i64) {
        lemma_wrapped_small(a as int);
        assert(a * 1 == a && 1 * a == a) by (nonlinear_arith);
    }

    proof fn lemma_times_zero(a: i64) {
        lemma_wrapped_small(0);
        assert(a * 0 == 0 && 0 * a == 0) by (nonlinear_arith);
    }
}

impl Ring for i64 {
    proof fn lemma_plus_commutative(a: i64, b: i64) {
    }

    proof fn lemma_plus_associative(a: i64, b: i64, c: i64) {
        lemma_wrapped_plus(a + b, c as int);
        lemma_wrapped_plus(b + c, a as int);
    }

    proof fn lemma_times_associative(a: i64, b: i64, c: i64) {
        lemma_wrapped_times(a * b, c as int);
        lemma_wrapped_times(b * c, a as int);
        assert((a * b) * c == a * (b * c)) by (nonlinear_arith);
    }

    proof fn lemma_distributive(a: i64, b: i64, c: i64) {
        lemma_wrapped_times(b + c, a as int);
        lemma_wrapped_times(a + b, c as int);
        lemma_wrapped_plus(a * b, wrapped(a * c) as int);
        lemma_wrapped_plus(a * c, a * b);
        lemma_wrapped_plus(a * c, wrapped(b * c) as int);
        lemma_wrapped_plus(b * c, a * c);
        assert(a * (b + c) == a * b + a * c) by (nonlinear_arith);
        assert((a + b) * c == a * c + b * c) by (nonlinear_arith);
    }
}

} // verus!
