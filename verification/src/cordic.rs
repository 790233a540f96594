//! Sine and cosine by CORDIC rotation: a fixed number of micro-rotations by
//! the angles `atan(2^-i)`, using only addition, subtraction, multiplication
//! and halving, followed by one gain correction.
use crate::scalar::Real;
use vstd::prelude::*;

verus! {

/// The number of micro-rotations: as many as the tables hold.
pub const ITERATIONS: usize = 16;

/// The bit pattern of the single-precision number nearest to pi.
pub const PI_BITS: u32 = 0x4049_0fdb;

/// The bit pattern of the single-precision number two.
pub const TWO_BITS: u32 = 0x4000_0000;

/// Entry `i` is the bit pattern of the single-precision number nearest to
/// `atan(2^-i)`, in radians.
pub const ANGLE_BITS: [u32; 16] = [
    0x3f49_0fdb,
    0x3eed_6338,
    0x3e7a_dbb0,
    0x3dfe_add5,
    0x3d7f_aade,
    0x3cff_eaae,
    0x3c7f_faab,
    0x3bff_feab,
    0x3b7f_ffab,
    0x3aff_ffeb,
    0x3a7f_fffb,
    0x39ff_ffff,
    0x3980_0000,
    0x3900_0000,
    0x3880_0000,
    0x3800_0000,
];

/// Entry `i` is the bit pattern of the single-precision number nearest to the
/// reciprocal of the gain that `i + 1` micro-rotations accumulate.
pub const GAIN_BITS: [u32; 16] = [
    0x3f35_04f3,
    0x3f21_e89b,
    0x3f1d_130e,
    0x3f1b_dc8a,
    0x3f1b_8ed6,
    0x3f1b_7b68,
    0x3f1b_768c,
    0x3f1b_7555,
    0x3f1b_7507,
    0x3f1b_74f4,
    0x3f1b_74ef,
    0x3f1b_74ee,
    0x3f1b_74ee,
    0x3f1b_74ee,
    0x3f1b_74ee,
    0x3f1b_74ee,
];

/// The state of the rotation between two micro-rotations.
pub struct Rotation<T> {
    /// The first component of the rotated vector.
    pub x: T,
    /// The second component of the rotated vector.
    pub y: T,
    /// The angle rotated by so far.
    pub theta: T,
    /// `2^-i` before micro-rotation `i`.
    pub p2i: T,
}

/// Pi as a scalar.
pub open spec fn pi<T: Real>() -> T {
    T::from_ieee_bits_spec(PI_BITS)
}

/// Two as a scalar.
pub open spec fn two<T: Real>() -> T {
    T::from_ieee_bits_spec(TWO_BITS)
}

/// `alpha` brought into `[-pi, pi]`: the remainder by two pi, moved by two pi
/// where it lies below `-pi` or above `pi`.
pub open spec fn reduced<T: Real>(alpha: T) -> T {
    let turn = two::<T>().times_spec(pi::<T>());
    let rest = alpha.remainder_spec(turn);
    if rest.less_than_spec(pi::<T>().negate_spec()) {
        rest.plus_spec(turn)
    } else if pi::<T>().less_than_spec(rest) {
        rest.minus_spec(turn)
    } else {
        rest
    }
}

/// The state before the first micro-rotation: the unit vector `(1, 0)`.
pub open spec fn start<T: Real>() -> Rotation<T> {
    Rotation { x: T::one_spec(), y: T::zero_spec(), theta: T::zero_spec(), p2i: T::one_spec() }
}

/// Micro-rotation `i` towards `alpha`: by `+atan(2^-i)` where the angle so
/// far is below `alpha`, by `-atan(2^-i)` otherwise.
pub open spec fn step<T: Real>(alpha: T, s: Rotation<T>, i: int) -> Rotation<T> {
    let angle = T::from_ieee_bits_spec(ANGLE_BITS[i]);
    let dx = s.y.times_spec(s.p2i);
    let dy = s.x.times_spec(s.p2i);
    let p2i = s.p2i.over_spec(two::<T>());
    if s.theta.less_than_spec(alpha) {
        Rotation {
            x: s.x.minus_spec(dx),
            y: s.y.plus_spec(dy),
            theta: s.theta.plus_spec(angle),
            p2i,
        }
    } else {
        Rotation {
            x: s.x.plus_spec(dx),
            y: s.y.minus_spec(dy),
            theta: s.theta.minus_spec(angle),
            p2i,
        }
    }
}

/// The state after the first `n` micro-rotations towards `alpha`.
pub open spec fn rotated<T: Real>(alpha: T, n: nat) -> Rotation<T>
    decreases n,
{
    if n == 0 {
        start()
    } else {
        step(alpha, rotated(alpha, (n - 1) as nat), n - 1)
    }
}

/// The approximations `(cos(alpha), sin(alpha))` that [`sincos`] returns.
pub open spec fn sincos_spec<T: Real>(alpha: T) -> (T, T) {
    let last = rotated(reduced(alpha), ITERATIONS as nat);
    let gain = T::from_ieee_bits_spec(GAIN_BITS[ITERATIONS - 1]);
    (last.x.times_spec(gain), last.y.times_spec(gain))
}

/// Approximates `(cos(alpha), sin(alpha))` for an angle in radians.
pub fn sincos<T: Real>(alpha: T) -> (r: (T, T))
    ensures
        r == sincos_spec(alpha),
{
    let half_turn = T::from_ieee_bits(PI_BITS);
    let halver = T::from_ieee_bits(TWO_BITS);
    let turn = halver.times(half_turn);
    let mut alpha = alpha.remainder(turn);
    if alpha.less_than(half_turn.negate()) {
        alpha = alpha.plus(turn);
    } else if half_turn.less_than(alpha) {
        alpha = alpha.minus(turn);
    }
    let mut x = T::one();
    let mut y = T::zero();
    let mut theta = T::zero();
    let mut p2i = T::one();
    let mut iter: usize = 0;
    while iter < ITERATIONS
        invariant
            iter <= ITERATIONS,
            halver == two::<T>(),
            (Rotation { x, y, theta, p2i }) == rotated(alpha, iter as nat),
        decreases ITERATIONS - iter,
    {
        let angle = T::from_ieee_bits(ANGLE_BITS[iter]);
        let dx = y.times(p2i);
        let dy = x.times(p2i);
        if theta.less_than(alpha) {
            theta = theta.plus(angle);
            x = x.minus(dx);
            y = y.plus(dy);
        } else {
            theta = theta.minus(angle);
            x = x.plus(dx);
            y = y.minus(dy);
        }
        p2i = p2i.over(halver);
        iter = iter + 1;
    }
    let gain = T::from_ieee_bits(GAIN_BITS[ITERATIONS - 1]);
    (x.times(gain), y.times(gain))
}

} // verus!
