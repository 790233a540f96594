//! A fixed-point scalar for targets without floating point: a signed 64-bit
//! number of units of `2^-32`. Sums saturate at the ends of the range,
//! products and quotients are rounded toward zero and saturate.
use crate::scalar::{Real, Scalar, Unital};
use vstd::arithmetic::div_mod::{
    lemma_div_multiples_vanish, lemma_fundamental_div_mod, lemma_small_mod,
};
use vstd::arithmetic::power2::{
    lemma2_to64, lemma2_to64_rest, lemma_pow2_adds, lemma_pow2_pos, pow2,
};
use vstd::prelude::*;
use vstd::string::*;

verus! {

/// A number `raw / 2^32`.
#[derive(Clone, Copy, Debug, PartialEq, Eq, Structural)]
pub struct Fixed {
    pub raw: i64,
}

/// The number of units in one: `2^32`.
pub const UNITS: i64 = 0x1_0000_0000;

/// The absolute value.
pub open spec fn abs(x: int) -> int {
    if x < 0 {
        -x
    } else {
        x
    }
}

/// The quotient of `x` by `y` rounded toward zero, for `y` other than zero.
pub open spec fn toward_zero(x: int, y: int) -> int {
    let q = abs(x) / abs(y);
    if (x < 0) == (y < 0) {
        q
    } else {
        -q
    }
}

/// `x` moved to the nearest end of the range of `i64` where it lies outside.
pub open spec fn saturated(x: int) -> i64 {
    if x > i64::MAX {
        i64::MAX
    } else if x < i64::MIN {
        i64::MIN
    } else {
        x as i64
    }
}

/// `magnitude`, negated where `negative`.
pub open spec fn with_sign(negative: bool, magnitude: int) -> int {
    if negative {
        -magnitude
    } else {
        magnitude
    }
}

/// The sign and the magnitude of a product are those of its factors.
pub proof fn lemma_product_sign(x: int, y: int)
    ensures
        abs(x * y) == abs(x) * abs(y),
        x * y < 0 <==> ((x < 0) != (y < 0) && x != 0 && y != 0),
{
    assert(abs(x * y) == abs(x) * abs(y)) by (nonlinear_arith);
    assert(x * y < 0 <==> ((x < 0) != (y < 0) && x != 0 && y != 0)) by (nonlinear_arith);
}

/// The magnitude of `x`.
fn magnitude(x: i64) -> (r: u128)
    ensures
        r == abs(x as int),
        r <= 0x8000_0000_0000_0000,
{
    if x < 0 {
        (-(x as i128)) as u128
    } else {
        x as u128
    }
}

/// The number with the given sign and magnitude, saturated.
fn signed(negative: bool, magnitude: u128) -> (r: i64)
    ensures
        r == saturated(with_sign(negative, magnitude as int)),
{
    if negative {
        if magnitude >= 0x8000_0000_0000_0000 {
            i64::MIN
        } else {
            -(magnitude as i64)
        }
    } else {
        if magnitude > 0x7fff_ffff_ffff_ffff {
            i64::MAX
        } else {
            magnitude as i64
        }
    }
}

impl Scalar for Fixed {
    open spec fn zero_spec() -> Fixed {
        Fixed { raw: 0 }
    }

    open spec fn one_spec() -> Fixed {
        Fixed { raw: UNITS }
    }

    open spec fn plus_spec(self, rhs: Fixed) -> Fixed {
        Fixed { raw: saturated(self.raw + rhs.raw) }
    }

    open spec fn minus_spec(self, rhs: Fixed) -> Fixed {
        Fixed { raw: saturated(self.raw - rhs.raw) }
    }

    open spec fn times_spec(self, rhs: Fixed) -> Fixed {
        Fixed { raw: saturated(toward_zero(self.raw * rhs.raw, UNITS as int)) }
    }

    open spec fn negate_spec(self) -> Fixed {
        Fixed { raw: saturated(-self.raw) }
    }

    fn zero() -> (r: Fixed) {
        Fixed { raw: 0 }
    }

    fn one() -> (r: Fixed) {
        Fixed { raw: UNITS }
    }

    fn plus(self, rhs: Fixed) -> (r: Fixed) {
        let sum = self.raw as i128 + rhs.raw as i128;
        let raw = if sum > i64::MAX as i128 {
            i64::MAX
        } else if sum < i64::MIN as i128 {
            i64::MIN
        } else {
            sum as i64
        };
        Fixed { raw }
    }

    fn minus(self, rhs: Fixed) -> (r: Fixed) {
        let difference = self.raw as i128 - rhs.raw as i128;
        let raw = if difference > i64::MAX as i128 {
            i64::MAX
        } else if difference < i64::MIN as i128 {
            i64::MIN
        } else {
            difference as i64
        };
        Fixed { raw }
    }

    fn times(self, rhs: Fixed) -> (r: Fixed) {
        let negative = (self.raw < 0) != (rhs.raw < 0);
        let a = magnitude(self.raw);
        let b = magnitude(rhs.raw);
        proof {
            lemma_product_sign(self.raw as int, rhs.raw as int);
            assert(a * b <= 0x8000_0000_0000_0000 * 0x8000_0000_0000_0000) by (nonlinear_arith)
                requires
                    a <= 0x8000_0000_0000_0000,
                    b <= 0x8000_0000_0000_0000,
            ;
        }
        let quotient = (a * b) / (UNITS as u128);
        Fixed { raw: signed(negative, quotient) }
    }

    fn negate(self) -> (r: Fixed) {
        if self.raw == i64::MIN {
            Fixed { raw: i64::MAX }
        } else {
            Fixed { raw: -self.raw }
        }
    }
}

impl Unital for Fixed {
    proof fn lemma_plus_zero(a: Fixed) {
    }

    proof fn lemma_times_one(a: Fixed) {
        let units = UNITS as int;
        lemma_product_sign(a.raw as int, units);
        lemma_product_sign(units, a.raw as int);
        lemma_div_multiples_vanish(abs(a.raw as int), units);
        assert(abs(a.raw as int) * units == units * abs(a.raw as int)) by (nonlinear_arith);
    }

    proof fn lemma_times_zero(a: Fixed) {
        assert(a.raw * 0 == 0 && 0 * a.raw == 0) by (nonlinear_arith);
    }
}

/// The sign bit of a single-precision bit pattern.
pub open spec fn ieee_negative(bits: u32) -> bool {
    bits >= 0x8000_0000
}

/// The biased exponent of a single-precision bit pattern.
pub open spec fn ieee_exponent(bits: u32) -> int {
    ((bits / 0x80_0000) % 0x100) as int
}

/// The fraction field of a single-precision bit pattern.
pub open spec fn ieee_mantissa(bits: u32) -> int {
    (bits % 0x80_0000) as int
}

/// The magnitude of the finite single-precision number with the given bit
/// pattern, in units of `2^-32` and rounded toward zero. The number is
/// `significand * 2^(power - 150)`, so it holds
/// `significand * 2^(power - 118)` units.
pub open spec fn ieee_units(bits: u32) -> int {
    let significand = if ieee_exponent(bits) == 0 {
        ieee_mantissa(bits)
    } else {
        ieee_mantissa(bits) + 0x80_0000
    };
    let power = if ieee_exponent(bits) == 0 {
        1
    } else {
        ieee_exponent(bits)
    };
    if power >= 118 {
        significand * pow2((power - 118) as nat)
    } else {
        significand / (pow2((118 - power) as nat) as int)
    }
}

/// The character of a decimal digit.
pub open spec fn digit(d: int) -> char {
    seq!['0', '1', '2', '3', '4', '5', '6', '7', '8', '9'][d]
}

/// The decimal digits of `n`, the most significant first.
pub open spec fn digits(n: nat) -> Seq<char>
    decreases n,
{
    if n < 10 {
        seq![digit(n as int)]
    } else {
        digits(n / 10).push(digit((n % 10) as int))
    }
}

/// The number of thousandths nearest to `units` units of `2^-32`; of two
/// that are equally near, the even one.
pub open spec fn thousandths(units: int) -> int {
    let below = (units * 1000) / (UNITS as int);
    let rest = (units * 1000) % (UNITS as int);
    if 2 * rest > UNITS || (2 * rest == UNITS && below % 2 == 1) {
        below + 1
    } else {
        below
    }
}

/// Appends one decimal digit.
fn push_digit(text: &mut String, d: u128)
    requires
        d < 10,
    ensures
        final(text)@ == old(text)@.push(digit(d as int)),
{
    proof {
        reveal_strlit("0");
        reveal_strlit("1");
        reveal_strlit("2");
        reveal_strlit("3");
        reveal_strlit("4");
        reveal_strlit("5");
        reveal_strlit("6");
        reveal_strlit("7");
        reveal_strlit("8");
        reveal_strlit("9");
    }
    let piece = if d == 0 {
        "0"
    } else if d == 1 {
        "1"
    } else if d == 2 {
        "2"
    } else if d == 3 {
        "3"
    } else if d == 4 {
        "4"
    } else if d == 5 {
        "5"
    } else if d == 6 {
        "6"
    } else if d == 7 {
        "7"
    } else if d == 8 {
        "8"
    } else {
        "9"
    };
    assert(piece@ =~= seq![digit(d as int)]);
    text.append(piece);
    assert(text@ =~= old(text)@.push(digit(d as int)));
}

/// Appends the decimal digits of `n`.
fn push_number(text: &mut String, n: u128)
    ensures
        final(text)@ == old(text)@ + digits(n as nat),
    decreases n,
{
    if n >= 10 {
        push_number(text, n / 10);
    }
    push_digit(text, n % 10);
    assert(text@ =~= old(text)@ + digits(n as nat));
}

impl Real for Fixed {
    open spec fn over_spec(self, rhs: Fixed) -> Fixed {
        if rhs.raw == 0 {
            Fixed {
                raw: if self.raw > 0 {
                    i64::MAX
                } else if self.raw < 0 {
                    i64::MIN
                } else {
                    0
                },
            }
        } else {
            Fixed { raw: saturated(toward_zero(self.raw * UNITS, rhs.raw as int)) }
        }
    }

    open spec fn remainder_spec(self, rhs: Fixed) -> Fixed {
        if rhs.raw == 0 {
            Fixed { raw: 0 }
        } else {
            Fixed {
                raw: saturated(
                    with_sign(self.raw < 0, abs(self.raw as int) % abs(rhs.raw as int)),
                ),
            }
        }
    }

    open spec fn less_than_spec(self, rhs: Fixed) -> bool {
        self.raw < rhs.raw
    }

    open spec fn from_ieee_bits_spec(bits: u32) -> Fixed {
        if ieee_exponent(bits) == 255 && ieee_mantissa(bits) != 0 {
            Fixed { raw: 0 }
        } else if ieee_exponent(bits) == 255 {
            Fixed {
                raw: if ieee_negative(bits) {
                    i64::MIN
                } else {
                    i64::MAX
                },
            }
        } else {
            Fixed { raw: saturated(with_sign(ieee_negative(bits), ieee_units(bits))) }
        }
    }

    open spec fn from_count_spec(n: usize) -> Fixed {
        Fixed { raw: saturated(n * UNITS) }
    }

    open spec fn decimal3_spec(self) -> Seq<char> {
        let t = thousandths(abs(self.raw as int));
        (if self.raw < 0 {
            seq!['-']
        } else {
            Seq::<char>::empty()
        }) + digits((t / 1000) as nat) + seq![
            '.',
            digit((t % 1000) / 100),
            digit((t % 100) / 10),
            digit(t % 10),
        ]
    }

    fn over(self, rhs: Fixed) -> (r: Fixed) {
        if rhs.raw == 0 {
            if self.raw > 0 {
                Fixed { raw: i64::MAX }
            } else if self.raw < 0 {
                Fixed { raw: i64::MIN }
            } else {
                Fixed { raw: 0 }
            }
        } else {
            let negative = (self.raw < 0) != (rhs.raw < 0);
            let a = magnitude(self.raw);
            let b = magnitude(rhs.raw);
            proof {
                lemma_product_sign(self.raw as int, UNITS as int);
                assert(a * 0x1_0000_0000 <= 0x8000_0000_0000_0000 * 0x1_0000_0000)
                    by (nonlinear_arith)
                    requires
                        a <= 0x8000_0000_0000_0000,
                ;
            }
            let quotient = (a * (UNITS as u128)) / b;
            Fixed { raw: signed(negative, quotient) }
        }
    }

    fn remainder(self, rhs: Fixed) -> (r: Fixed) {
        if rhs.raw == 0 {
            Fixed { raw: 0 }
        } else {
            let a = magnitude(self.raw);
            let b = magnitude(rhs.raw);
            Fixed { raw: signed(self.raw < 0, a % b) }
        }
    }

    fn less_than(self, rhs: Fixed) -> (r: bool) {
        self.raw < rhs.raw
    }

    fn from_ieee_bits(bits: u32) -> (r: Fixed) {
        let negative = bits >= 0x8000_0000;
        let exponent = (bits / 0x80_0000) % 0x100;
        let mantissa = bits % 0x80_0000;
        if exponent == 255 {
            if mantissa != 0 {
                Fixed { raw: 0 }
            } else if negative {
                Fixed { raw: i64::MIN }
            } else {
                Fixed { raw: i64::MAX }
            }
        } else {
            let significand: u64 = if exponent == 0 {
                mantissa as u64
            } else {
                mantissa as u64 + 0x80_0000
            };
            let power: u64 = if exponent == 0 {
                1
            } else {
                exponent as u64
            };
            proof {
                lemma2_to64();
                lemma2_to64_rest();
            }
            if power >= 158 {
                proof {
                    lemma_pow2_adds(40, (power - 158) as nat);
                    lemma_pow2_pos((power - 158) as nat);
                    assert(significand * pow2((power - 118) as nat) >= 0x8000_0000_0000_0000)
                        by (nonlinear_arith)
                        requires
                            significand >= 0x80_0000,
                            pow2((power - 118) as nat) == pow2(40) * pow2((power - 158) as nat),
                            pow2(40) == 0x100_0000_0000,
                            pow2((power - 158) as nat) >= 1,
                    ;
                }
                if negative {
                    Fixed { raw: i64::MIN }
                } else {
                    Fixed { raw: i64::MAX }
                }
            } else if power >= 118 {
                let shift: u64 = power - 118;
                proof {
                    lemma_pow2_adds(shift as nat, (39 - shift) as nat);
                    lemma_pow2_pos((39 - shift) as nat);
                    assert(significand * pow2(shift as nat) <= 0x100_0000 * 0x80_0000_0000)
                        by (nonlinear_arith)
                        requires
                            significand <= 0x100_0000,
                            pow2(shift as nat) * pow2((39 - shift) as nat) == 0x80_0000_0000,
                            pow2((39 - shift) as nat) >= 1,
                            pow2(shift as nat) >= 0,
                    ;
                    vstd::bits::lemma_u64_shl_is_mul(significand, shift);
                }
                Fixed { raw: signed(negative, (significand << shift) as u128) }
            } else {
                let shift: u64 = 118 - power;
                if shift >= 24 {
                    proof {
                        lemma_pow2_adds(24, (shift - 24) as nat);
                        lemma_pow2_pos((shift - 24) as nat);
                        assert(pow2(shift as nat) >= 0x100_0000) by (nonlinear_arith)
                            requires
                                pow2(shift as nat) == pow2(24) * pow2((shift - 24) as nat),
                                pow2(24) == 0x100_0000,
                                pow2((shift - 24) as nat) >= 1,
                        ;
                        lemma_small_mod(significand as nat, pow2(shift as nat));
                        lemma_fundamental_div_mod(significand as int, pow2(shift as nat) as int);
                        assert(significand as int / (pow2(shift as nat) as int) == 0)
                            by (nonlinear_arith)
                            requires
                                significand as int == pow2(shift as nat) as int * (significand as int
                                    / (pow2(shift as nat) as int)) + significand as int,
                                pow2(shift as nat) > 0,
                        ;
                    }
                    Fixed { raw: 0 }
                } else {
                    proof {
                        vstd::bits::lemma_u64_shr_is_div(significand, shift);
                    }
                    Fixed { raw: signed(negative, (significand >> shift) as u128) }
                }
            }
        }
    }

    fn from_count(n: usize) -> (r: Fixed) {
        proof {
            assert(n * 0x1_0000_0000 <= 0xffff_ffff_ffff_ffff * 0x1_0000_0000) by (nonlinear_arith)
                requires
                    n <= 0xffff_ffff_ffff_ffff,
            ;
        }
        Fixed { raw: signed(false, (n as u128) * (UNITS as u128)) }
    }

    fn decimal3(self) -> (r: String) {
        let a = magnitude(self.raw);
        let below = (a * 1000) / (UNITS as u128);
        let rest = (a * 1000) % (UNITS as u128);
        let t = if 2 * rest > UNITS as u128 || (2 * rest == UNITS as u128 && below % 2 == 1) {
            below + 1
        } else {
            below
        };
        let mut text = String::new();
        if self.raw < 0 {
            text.append("-");
            proof {
                reveal_strlit("-");
                assert("-"@ =~= seq!['-']);
            }
        }
        push_number(&mut text, t / 1000);
        text.append(".");
        proof {
            reveal_strlit(".");
            assert("."@ =~= seq!['.']);
        }
        push_digit(&mut text, (t % 1000) / 100);
        push_digit(&mut text, (t % 100) / 10);
        push_digit(&mut text, t % 10);
        proof {
            assert(text@ =~= self.decimal3_spec());
        }
        text
    }
}

} // verus!
