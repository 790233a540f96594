//! What holds of the CORDIC primitive over the fixed-point scalar.
use crate::cordic::{
    pi, reduced, rotated, sincos_spec, step, two, Rotation, ANGLE_BITS, GAIN_BITS, PI_BITS,
    TWO_BITS,
};
use crate::fixed::{abs, toward_zero, Fixed, UNITS};
use crate::scalar::{Real, Scalar};
use vstd::arithmetic::div_mod::{
    lemma_div_multiples_vanish, lemma_div_multiples_vanish_quotient, lemma_fundamental_div_mod,
    lemma_mod_bound,
};
use vstd::arithmetic::power2::{
    lemma2_to64, lemma_pow2_adds, lemma_pow2_pos, lemma_pow2_unfold, pow2,
};
use vstd::prelude::*;

verus! {

/// Pi in units of `2^-32`, as the tables give it.
pub open spec fn pi_units() -> int {
    13493038080
}

/// The constants of the range reduction as fixed-point numbers: two is exact,
/// pi is the single-precision pi, and a full turn is twice that.
pub proof fn lemma_constants()
    ensures
        two::<Fixed>() == (Fixed { raw: (2 * UNITS) as i64 }),
        pi::<Fixed>() == (Fixed { raw: pi_units() as i64 }),
        two::<Fixed>().times_spec(pi::<Fixed>()) == (Fixed { raw: (2 * pi_units()) as i64 }),
{
    lemma2_to64();
    assert(PI_BITS / 0x80_0000 == 0x80);
    assert(PI_BITS % 0x80_0000 == 0x49_0fdb);
    assert(TWO_BITS / 0x80_0000 == 0x80);
    assert(TWO_BITS % 0x80_0000 == 0);
    assert(pow2(10) == 1024);
    assert(two::<Fixed>().raw == 2 * UNITS);
    assert(0xc9_0fdb * pow2(10) == pi_units());
    assert(pi::<Fixed>().raw == pi_units());
    assert((2 * UNITS) * pi_units() == (2 * pi_units()) * UNITS);
    lemma_div_multiples_vanish(2 * pi_units(), UNITS as int);
}

/// The reduced angle lies between minus pi and pi, whatever the angle.
pub proof fn lemma_reduced_in_range(alpha: Fixed)
    ensures
        -pi_units() <= reduced(alpha).raw <= pi_units(),
{
    lemma_constants();
    let turn = 2 * pi_units();
    lemma_mod_bound(abs(alpha.raw as int), turn);
}

/// The angle of micro-rotation `n` in units of `2^-32`, as the tables give
/// it.
pub open spec fn angle_units(n: nat) -> int {
    if n == 0 {
        3_373_259_520
    } else if n == 1 {
        1_991_351_296
    } else if n == 2 {
        1_052_175_360
    } else if n == 3 {
        534_100_640
    } else if n == 4 {
        268_086_752
    } else if n == 5 {
        134_174_064
    } else if n == 6 {
        67_103_404
    } else if n == 7 {
        33_553_750
    } else if n == 8 {
        16_777_131
    } else if n == 9 {
        8_388_597
    } else if n == 10 {
        4_194_302
    } else if n == 11 {
        2_097_151
    } else if n == 12 {
        1_048_576
    } else if n == 13 {
        524_288
    } else if n == 14 {
        262_144
    } else {
        131_072
    }
}

/// How far the angle rotated by may be from the angle aimed at after `n`
/// micro-rotations, in units of `2^-32`, where the angle aimed at is within
/// reach: within the sum of all sixteen angles.
pub open spec fn deviation(n: nat) -> int {
    if n == 0 {
        7_487_228_047
    } else if n == 1 {
        4_113_968_527
    } else if n == 2 {
        2_122_617_231
    } else if n == 3 {
        1_070_441_871
    } else if n == 4 {
        536_341_231
    } else if n == 5 {
        268_254_479
    } else if n == 6 {
        134_174_064
    } else if n == 7 {
        67_103_404
    } else if n == 8 {
        33_553_750
    } else if n == 9 {
        16_777_131
    } else if n == 10 {
        8_388_597
    } else if n == 11 {
        4_194_302
    } else if n == 12 {
        2_097_151
    } else if n == 13 {
        1_048_576
    } else if n == 14 {
        524_288
    } else if n == 15 {
        262_144
    } else {
        131_072
    }
}

/// The largest angle the micro-rotations can reach, in units of `2^-32`: the
/// sum of all sixteen angles, a little under 1.7433 radians.
pub open spec fn reach() -> int {
    deviation(0)
}

/// The fixed-point angles of the table.
pub proof fn lemma_angle_table(n: nat)
    requires
        n < 16,
    ensures
        Fixed::from_ieee_bits_spec(ANGLE_BITS[n as int]).raw == angle_units(n),
{
    lemma2_to64();
    if n == 0 {
        assert(ANGLE_BITS[0] == 0x3f490fdb);
        assert(ANGLE_BITS[0] / 0x80_0000 == 0x7e);
        assert(ANGLE_BITS[0] % 0x80_0000 == 0x490fdb);
        assert(0xc90fdb * pow2(8) == 3_373_259_520);
    } else if n == 1 {
        assert(ANGLE_BITS[1] == 0x3eed6338);
        assert(ANGLE_BITS[1] / 0x80_0000 == 0x7d);
        assert(ANGLE_BITS[1] % 0x80_0000 == 0x6d6338);
        assert(0xed6338 * pow2(7) == 1_991_351_296);
    } else if n == 2 {
        assert(ANGLE_BITS[2] == 0x3e7adbb0);
        assert(ANGLE_BITS[2] / 0x80_0000 == 0x7c);
        assert(ANGLE_BITS[2] % 0x80_0000 == 0x7adbb0);
        assert(0xfadbb0 * pow2(6) == 1_052_175_360);
    } else if n == 3 {
        assert(ANGLE_BITS[3] == 0x3dfeadd5);
        assert(ANGLE_BITS[3] / 0x80_0000 == 0x7b);
        assert(ANGLE_BITS[3] % 0x80_0000 == 0x7eadd5);
        assert(0xfeadd5 * pow2(5) == 534_100_640);
    } else if n == 4 {
        assert(ANGLE_BITS[4] == 0x3d7faade);
        assert(ANGLE_BITS[4] / 0x80_0000 == 0x7a);
        assert(ANGLE_BITS[4] % 0x80_0000 == 0x7faade);
        assert(0xffaade * pow2(4) == 268_086_752);
    } else if n == 5 {
        assert(ANGLE_BITS[5] == 0x3cffeaae);
        assert(ANGLE_BITS[5] / 0x80_0000 == 0x79);
        assert(ANGLE_BITS[5] % 0x80_0000 == 0x7feaae);
        assert(0xffeaae * pow2(3) == 134_174_064);
    } else if n == 6 {
        assert(ANGLE_BITS[6] == 0x3c7ffaab);
        assert(ANGLE_BITS[6] / 0x80_0000 == 0x78);
        assert(ANGLE_BITS[6] % 0x80_0000 == 0x7ffaab);
        assert(0xfffaab * pow2(2) == 67_103_404);
    } else if n == 7 {
        assert(ANGLE_BITS[7] == 0x3bfffeab);
        assert(ANGLE_BITS[7] / 0x80_0000 == 0x77);
        assert(ANGLE_BITS[7] % 0x80_0000 == 0x7ffeab);
        assert(0xfffeab * pow2(1) == 33_553_750);
    } else if n == 8 {
        assert(ANGLE_BITS[8] == 0x3b7fffab);
        assert(ANGLE_BITS[8] / 0x80_0000 == 0x76);
        assert(ANGLE_BITS[8] % 0x80_0000 == 0x7fffab);
        assert(0xffffab * pow2(0) == 16_777_131);
    } else if n == 9 {
        assert(ANGLE_BITS[9] == 0x3affffeb);
        assert(ANGLE_BITS[9] / 0x80_0000 == 0x75);
        assert(ANGLE_BITS[9] % 0x80_0000 == 0x7fffeb);
        assert(0xffffebint / (pow2(1) as int) == 8_388_597);
    } else if n == 10 {
        assert(ANGLE_BITS[10] == 0x3a7ffffb);
        assert(ANGLE_BITS[10] / 0x80_0000 == 0x74);
        assert(ANGLE_BITS[10] % 0x80_0000 == 0x7ffffb);
        assert(0xfffffbint / (pow2(2) as int) == 4_194_302);
    } else if n == 11 {
        assert(ANGLE_BITS[11] == 0x39ffffff);
        assert(ANGLE_BITS[11] / 0x80_0000 == 0x73);
        assert(ANGLE_BITS[11] % 0x80_0000 == 0x7fffff);
        assert(0xffffffint / (pow2(3) as int) == 2_097_151);
    } else if n == 12 {
        assert(ANGLE_BITS[12] == 0x39800000);
        assert(ANGLE_BITS[12] / 0x80_0000 == 0x73);
        assert(ANGLE_BITS[12] % 0x80_0000 == 0x0);
        assert(0x800000int / (pow2(3) as int) == 1_048_576);
    } else if n == 13 {
        assert(ANGLE_BITS[13] == 0x39000000);
        assert(ANGLE_BITS[13] / 0x80_0000 == 0x72);
        assert(ANGLE_BITS[13] % 0x80_0000 == 0x0);
        assert(0x800000int / (pow2(4) as int) == 524_288);
    } else if n == 14 {
        assert(ANGLE_BITS[14] == 0x38800000);
        assert(ANGLE_BITS[14] / 0x80_0000 == 0x71);
        assert(ANGLE_BITS[14] % 0x80_0000 == 0x0);
        assert(0x800000int / (pow2(5) as int) == 262_144);
    } else {
        assert(ANGLE_BITS[15] == 0x38000000);
        assert(ANGLE_BITS[15] / 0x80_0000 == 0x70);
        assert(ANGLE_BITS[15] % 0x80_0000 == 0x0);
        assert(0x800000int / (pow2(6) as int) == 131_072);
    }
}

/// While the angle aimed at is within reach, the angle rotated by closes in
/// on it: after `n` micro-rotations it is off by at most `deviation(n)`.
pub proof fn lemma_angle_closes_in(alpha: Fixed, n: nat)
    requires
        n <= 16,
        -reach() <= alpha.raw <= reach(),
    ensures
        abs(rotated(alpha, n).theta.raw - alpha.raw) <= deviation(n),
    decreases n,
{
    if n > 0 {
        let before = (n - 1) as nat;
        lemma_angle_closes_in(alpha, before);
        lemma_angle_table(before);
        let s = rotated(alpha, before);
        let angle = Fixed::from_ieee_bits_spec(ANGLE_BITS[before as int]);
        assert(angle.raw == angle_units(before));
        assert(deviation(n) >= deviation(before) - angle_units(before));
        assert(deviation(n) >= angle_units(before));
        assert(0 <= angle_units(before) <= reach());
        assert(deviation(before) <= reach());
        assert(reach() == 7_487_228_047);
    }
}

/// For an angle within reach, the sixteen micro-rotations end within
/// `2^-15` radians of it.
pub proof fn lemma_angle_converges(alpha: Fixed)
    requires
        -reach() <= alpha.raw <= reach(),
    ensures
        abs(rotated(alpha, 16).theta.raw - alpha.raw) <= 131_072,
{
    lemma_angle_closes_in(alpha, 16);
}

/// The squared length of the rotated vector, in units of `2^-64`.
pub open spec fn squared_length(s: Rotation<Fixed>) -> int {
    s.x.raw * s.x.raw + s.y.raw * s.y.raw
}

/// A number whose square is at most `m * m` is at most `m` in magnitude.
proof fn lemma_root_bound(x: int, m: int)
    requires
        m >= 0,
        x * x <= m * m,
    ensures
        abs(x) <= m,
{
    assert(abs(x) <= m) by (nonlinear_arith)
        requires
            m >= 0,
            x * x <= m * m,
    ;
}

/// Multiplying by `2^-i` is dividing by `2^i` toward zero, which leaves a
/// remainder below `2^i` and no larger a magnitude.
proof fn lemma_times_fraction(y: int, q: int, p: int)
    requires
        q >= 1,
        p >= 1,
        p * q == UNITS,
    ensures
        toward_zero(y * p, UNITS as int) == toward_zero(y, q),
        abs(y - q * toward_zero(y, q)) < q,
        abs(toward_zero(y, q)) <= abs(y),
{
    let a = abs(y);
    assert(abs(y * p) == a * p && (y * p < 0 <==> y < 0)) by (nonlinear_arith)
        requires
            p >= 1,
            a == abs(y),
    ;
    lemma_div_multiples_vanish_quotient(p, a, q);
    assert(p * a == a * p) by (nonlinear_arith);
    lemma_toward_zero_error(y, q);
}

/// One micro-rotation by `2^-i`, with quotients that are off by less than one
/// unit, multiplies the squared length by `1 + 4^-i` up to `8 m + 2`.
proof fn lemma_rotate_length(x: int, y: int, dx: int, dy: int, q: int, s: int, m: int)
    requires
        q >= 1,
        s == 1 || s == -1,
        abs(x) <= m,
        abs(y) <= m,
        abs(y - q * dx) < q,
        abs(x - q * dy) < q,
    ensures
        ({
            let nx = x - s * dx;
            let ny = y + s * dy;
            abs(q * q * (nx * nx + ny * ny) - (q * q + 1) * (x * x + y * y)) <= q * q * (8 * m + 2)
        }),
{
    let ry = y - q * dx;
    let rx = x - q * dy;
    let a = q * x - s * y;
    let b = q * y + s * x;
    let nx = x - s * dx;
    let ny = y + s * dy;
    assert(q * nx == a + s * ry) by (nonlinear_arith)
        requires
            ry == y - q * dx,
            a == q * x - s * y,
            nx == x - s * dx,
    ;
    assert(q * ny == b - s * rx) by (nonlinear_arith)
        requires
            rx == x - q * dy,
            b == q * y + s * x,
            ny == y + s * dy,
    ;
    if s == 1 {
        assert(s * y == y && s * x == x) by (nonlinear_arith)
            requires
                s == 1,
        ;
        assert((q * x - y) * (q * x - y) + (q * y + x) * (q * y + x) == (q * q + 1) * (x * x + y
            * y)) by (nonlinear_arith);
    } else {
        assert(s * y == -y && s * x == -x) by (nonlinear_arith)
            requires
                s == -1,
        ;
        assert((q * x + y) * (q * x + y) + (q * y - x) * (q * y - x) == (q * q + 1) * (x * x + y
            * y)) by (nonlinear_arith);
    }
    assert(a * a + b * b == (q * q + 1) * (x * x + y * y));
    assert(q * q * (nx * nx + ny * ny) == (q * nx) * (q * nx) + (q * ny) * (q * ny))
        by (nonlinear_arith);
    let cross = a * ry - b * rx;
    assert((a + s * ry) * (a + s * ry) + (b - s * rx) * (b - s * rx) == a * a + b * b + 2 * s
        * cross + ry * ry + rx * rx) by (nonlinear_arith)
        requires
            s == 1 || s == -1,
            cross == a * ry - b * rx,
    ;
    assert(abs(a) <= 2 * q * m && abs(b) <= 2 * q * m) by (nonlinear_arith)
        requires
            a == q * x - s * y,
            b == q * y + s * x,
            s == 1 || s == -1,
            q >= 1,
            abs(x) <= m,
            abs(y) <= m,
    ;
    assert(abs(a * ry) <= 2 * q * m * q) by (nonlinear_arith)
        requires
            abs(a) <= 2 * q * m,
            abs(ry) < q,
            q >= 1,
    ;
    assert(abs(b * rx) <= 2 * q * m * q) by (nonlinear_arith)
        requires
            abs(b) <= 2 * q * m,
            abs(rx) < q,
            q >= 1,
    ;
    assert(ry * ry <= q * q && rx * rx <= q * q && ry * ry >= 0 && rx * rx >= 0)
        by (nonlinear_arith)
        requires
            abs(ry) < q,
            abs(rx) < q,
    ;
    assert(abs(2 * s * cross) <= 8 * (q * q * m)) by (nonlinear_arith)
        requires
            s == 1 || s == -1,
            cross == a * ry - b * rx,
            abs(a * ry) <= 2 * q * m * q,
            abs(b * rx) <= 2 * q * m * q,
    ;
    assert(q * q * (8 * m + 2) == 8 * (q * q * m) + 2 * (q * q)) by (nonlinear_arith);
}

/// A lower bound, in millionths, of the factor by which `n` micro-rotations
/// have stretched the squared length: of `(1 + 4^0) ... (1 + 4^-(n - 1))`,
/// less what rounding can take away.
pub open spec fn growth_below(n: nat) -> int {
    if n == 0 {
        1_000_000
    } else if n == 1 {
        1_999_999
    } else if n == 2 {
        2_499_998
    } else if n == 3 {
        2_656_247
    } else if n == 4 {
        2_697_750
    } else if n == 5 {
        2_708_288
    } else if n == 6 {
        2_710_932
    } else if n == 7 {
        2_711_593
    } else if n == 8 {
        2_711_758
    } else if n == 9 {
        2_711_799
    } else if n == 10 {
        2_711_809
    } else if n == 11 {
        2_711_811
    } else if n == 12 {
        2_711_811
    } else if n == 13 {
        2_711_811
    } else if n == 14 {
        2_711_811
    } else if n == 15 {
        2_711_811
    } else {
        2_711_810
    }
}

/// An upper bound, in millionths, of the factor by which `n` micro-rotations
/// have stretched the squared length.
pub open spec fn growth_above(n: nat) -> int {
    if n == 0 {
        1_000_000
    } else if n == 1 {
        2_000_001
    } else if n == 2 {
        2_500_002
    } else if n == 3 {
        2_656_253
    } else if n == 4 {
        2_697_757
    } else if n == 5 {
        2_708_296
    } else if n == 6 {
        2_710_941
    } else if n == 7 {
        2_711_603
    } else if n == 8 {
        2_711_769
    } else if n == 9 {
        2_711_811
    } else if n == 10 {
        2_711_822
    } else if n == 11 {
        2_711_825
    } else if n == 12 {
        2_711_826
    } else if n == 13 {
        2_711_827
    } else if n == 14 {
        2_711_828
    } else if n == 15 {
        2_711_829
    } else {
        2_711_830
    }
}

/// The gain correction in units of `2^-32`, as the tables give it.
pub open spec fn gain_units() -> int {
    2608131584
}

/// What rounding can add to or take from the squared length in one
/// micro-rotation of a vector with components of at most two.
pub open spec fn slack() -> int {
    16 * UNITS + 2
}

/// One entry of the table follows from the one before it: with `k = 4^n`, the
/// bounds after micro-rotation `n` allow for the growth by `1 + 1 / k` and
/// the slack.
pub open spec fn entry_follows(k: int, low: int, high: int, next_low: int, next_high: int) -> bool {
    let square = UNITS * UNITS;
    &&& (k + 1) * (low * square) - 1_000_000 * (k * slack()) >= k * (next_low * square)
    &&& (k + 1) * (high * square) + 1_000_000 * (k * slack()) <= k * (next_high * square)
}

/// [`entry_follows`] for given numbers.
proof fn lemma_entry_follows(k: int, low: int, high: int, next_low: int, next_high: int)
    requires
        1 <= k <= 0x4000_0000,
        1_000_000 <= low <= high <= 2_711_830,
        ({
            let square = 0x1_0000_0000_0000_0000int;
            let slack = 0x10_0000_0002int;
            &&& (k + 1) * low * square - 1_000_000 * k * slack >= k * next_low * square
            &&& (k + 1) * high * square + 1_000_000 * k * slack <= k * next_high * square
        }),
    ensures
        entry_follows(k, low, high, next_low, next_high),
{
    let square = UNITS * UNITS;
    assert(square == 0x1_0000_0000_0000_0000int);
    assert(slack() == 0x10_0000_0002int);
    assert((k + 1) * (low * square) == (k + 1) * low * square && k * (next_low * square) == k
        * next_low * square && (k + 1) * (high * square) == (k + 1) * high * square && k * (
    next_high * square) == k * next_high * square && 1_000_000 * (k * slack()) == 1_000_000 * k
        * slack()) by (nonlinear_arith);
}

/// Every entry of the table follows from the one before it, and no entry
/// allows a squared length above four.
proof fn lemma_growth_table(n: nat)
    requires
        n < 16,
    ensures
        entry_follows(
            (pow2(n) * pow2(n)) as int,
            growth_below(n),
            growth_above(n),
            growth_below(n + 1),
            growth_above(n + 1),
        ),
        pow2(n) * pow2(n) >= 1,
        growth_above(n) <= 4_000_000,
        growth_below(n) >= 0,
{
    lemma2_to64();
    lemma_pow2_adds(n, n);
    if n == 0 {
        lemma_entry_follows(0x1, 1_000_000, 1_000_000, 1_999_999, 2_000_001);
    } else if n == 1 {
        lemma_entry_follows(0x4, 1_999_999, 2_000_001, 2_499_998, 2_500_002);
    } else if n == 2 {
        lemma_entry_follows(0x10, 2_499_998, 2_500_002, 2_656_247, 2_656_253);
    } else if n == 3 {
        lemma_entry_follows(0x40, 2_656_247, 2_656_253, 2_697_750, 2_697_757);
    } else if n == 4 {
        lemma_entry_follows(0x100, 2_697_750, 2_697_757, 2_708_288, 2_708_296);
    } else if n == 5 {
        lemma_entry_follows(0x400, 2_708_288, 2_708_296, 2_710_932, 2_710_941);
    } else if n == 6 {
        lemma_entry_follows(0x1000, 2_710_932, 2_710_941, 2_711_593, 2_711_603);
    } else if n == 7 {
        lemma_entry_follows(0x4000, 2_711_593, 2_711_603, 2_711_758, 2_711_769);
    } else if n == 8 {
        lemma_entry_follows(0x10000, 2_711_758, 2_711_769, 2_711_799, 2_711_811);
    } else if n == 9 {
        lemma_entry_follows(0x40000, 2_711_799, 2_711_811, 2_711_809, 2_711_822);
    } else if n == 10 {
        lemma_entry_follows(0x100000, 2_711_809, 2_711_822, 2_711_811, 2_711_825);
    } else if n == 11 {
        lemma_entry_follows(0x400000, 2_711_811, 2_711_825, 2_711_811, 2_711_826);
    } else if n == 12 {
        lemma_entry_follows(0x1000000, 2_711_811, 2_711_826, 2_711_811, 2_711_827);
    } else if n == 13 {
        lemma_entry_follows(0x4000000, 2_711_811, 2_711_827, 2_711_811, 2_711_828);
    } else if n == 14 {
        lemma_entry_follows(0x10000000, 2_711_811, 2_711_828, 2_711_811, 2_711_829);
    } else {
        lemma_entry_follows(0x40000000, 2_711_811, 2_711_829, 2_711_810, 2_711_830);
    }
}

/// Bounds of a squared length carry over one micro-rotation.
proof fn lemma_carry_bounds(
    len: int,
    next: int,
    k: int,
    e: int,
    lo: int,
    hi: int,
    lo2: int,
    hi2: int,
)
    requires
        k >= 1,
        abs(k * next - (k + 1) * len) <= k * e,
        lo <= 1_000_000 * len <= hi,
        (k + 1) * lo - 1_000_000 * (k * e) >= k * lo2,
        (k + 1) * hi + 1_000_000 * (k * e) <= k * hi2,
    ensures
        lo2 <= 1_000_000 * next <= hi2,
{
    assert((k + 1) * lo <= (k + 1) * (1_000_000 * len) <= (k + 1) * hi) by (nonlinear_arith)
        requires
            k >= 1,
            lo <= 1_000_000 * len <= hi,
    ;
    assert(1_000_000 * (k * next) >= 1_000_000 * ((k + 1) * len) - 1_000_000 * (k * e)
        && 1_000_000 * (k * next) <= 1_000_000 * ((k + 1) * len) + 1_000_000 * (k * e));
    assert((k + 1) * (1_000_000 * len) == 1_000_000 * ((k + 1) * len)) by (nonlinear_arith);
    assert(1_000_000 * (k * next) == k * (1_000_000 * next)) by (nonlinear_arith);
    assert(lo2 <= 1_000_000 * next <= hi2) by (nonlinear_arith)
        requires
            k >= 1,
            k * (1_000_000 * next) >= k * lo2,
            k * (1_000_000 * next) <= k * hi2,
    ;
}

/// One micro-rotation of a vector with components of at most two halves the
/// step and multiplies the squared length by `1 + 4^-i` up to the slack.
proof fn lemma_step_length(alpha: Fixed, s: Rotation<Fixed>, i: nat)
    requires
        i < 16,
        s.p2i.raw == pow2((32 - i) as nat),
        abs(s.x.raw as int) <= 2 * UNITS,
        abs(s.y.raw as int) <= 2 * UNITS,
    ensures
        ({
            let t = step(alpha, s, i as int);
            let k = pow2(i) * pow2(i);
            &&& t.p2i.raw == pow2((31 - i) as nat)
            &&& abs(k * squared_length(t) - (k + 1) * squared_length(s)) <= k * slack()
        }),
{
    lemma2_to64();
    lemma_constants();
    let x = s.x.raw as int;
    let y = s.y.raw as int;
    let q = pow2(i) as int;
    let p = pow2((32 - i) as nat) as int;
    lemma_pow2_adds(i, (32 - i) as nat);
    lemma_pow2_pos(i);
    lemma_pow2_pos((32 - i) as nat);
    assert(p * q == UNITS) by (nonlinear_arith)
        requires
            q * p == UNITS,
    ;
    lemma_times_fraction(y, q, p);
    lemma_times_fraction(x, q, p);
    let dx = toward_zero(y, q);
    let dy = toward_zero(x, q);
    assert(s.y.times_spec(s.p2i).raw == dx);
    assert(s.x.times_spec(s.p2i).raw == dy);
    lemma_pow2_unfold((32 - i) as nat);
    assert(p * UNITS == UNITS * p && 2 * UNITS == UNITS * 2) by (nonlinear_arith);
    lemma_div_multiples_vanish_quotient(UNITS as int, p, 2);
    assert(p * UNITS >= 0) by (nonlinear_arith)
        requires
            p >= 1,
    ;
    assert(s.p2i.over_spec(two::<Fixed>()).raw == pow2((31 - i) as nat));
    if s.theta.less_than_spec(alpha) {
        lemma_rotate_length(x, y, dx, dy, q, 1, 2 * UNITS);
    } else {
        lemma_rotate_length(x, y, dx, dy, q, -1, 2 * UNITS);
    }
    let t = step(alpha, s, i as int);
    assert(q * q * (8 * (2 * UNITS) + 2) == (pow2(i) * pow2(i)) * slack()) by (nonlinear_arith)
        requires
            q == pow2(i),
            slack() == 8 * (2 * UNITS) + 2,
    ;
}

/// After `n` micro-rotations the step is `2^-n` and the squared length lies
/// between the bounds of the table.
pub proof fn lemma_rotated_length(alpha: Fixed, n: nat)
    requires
        n <= 16,
    ensures
        rotated(alpha, n).p2i.raw == pow2((32 - n) as nat),
        growth_below(n) * (UNITS * UNITS) <= 1_000_000 * squared_length(rotated(alpha, n))
            <= growth_above(n) * (UNITS * UNITS),
    decreases n,
{
    lemma2_to64();
    if n == 0 {
        let s = rotated(alpha, 0);
        assert(s.x.raw * s.x.raw + s.y.raw * s.y.raw == UNITS * UNITS) by (nonlinear_arith)
            requires
                s.x.raw == UNITS,
                s.y.raw == 0,
        ;
    } else {
        let before = (n - 1) as nat;
        let s = rotated(alpha, before);
        let square = UNITS * UNITS;
        lemma_rotated_length(alpha, before);
        lemma_growth_table(before);
        assert(s.x.raw * s.x.raw <= (2 * UNITS) * (2 * UNITS) && s.y.raw * s.y.raw <= (2 * UNITS)
            * (2 * UNITS)) by (nonlinear_arith)
            requires
                1_000_000 * (s.x.raw * s.x.raw + s.y.raw * s.y.raw) <= growth_above(before) * (
                UNITS * UNITS),
                growth_above(before) <= 4_000_000,
        ;
        lemma_root_bound(s.x.raw as int, 2 * UNITS);
        lemma_root_bound(s.y.raw as int, 2 * UNITS);
        lemma_step_length(alpha, s, before);
        let k = pow2(before) * pow2(before);
        lemma_carry_bounds(
            squared_length(s),
            squared_length(rotated(alpha, n)),
            k as int,
            slack(),
            growth_below(before) * square,
            growth_above(before) * square,
            growth_below(n) * square,
            growth_above(n) * square,
        );
    }
}

/// The gain correction of a vector with components of at most two multiplies
/// the squared length by the square of the gain, up to rounding.
proof fn lemma_gain_length(x: int, y: int, c: int, s: int, k: int, u: int)
    requires
        0 <= k <= u,
        abs(x) <= 2 * u,
        abs(y) <= 2 * u,
        abs(u * c - x * k) < u,
        abs(u * s - y * k) < u,
    ensures
        abs(u * u * (c * c + s * s) - k * k * (x * x + y * y)) <= u * u * (8 * k + 2),
{
    let e1 = x * k - u * c;
    let e2 = y * k - u * s;
    assert(u * u * (c * c + s * s) == (u * c) * (u * c) + (u * s) * (u * s)) by (nonlinear_arith);
    let xk = x * k;
    let yk = y * k;
    assert((xk - e1) * (xk - e1) == xk * xk - 2 * (xk * e1) + e1 * e1) by (nonlinear_arith);
    assert((yk - e2) * (yk - e2) == yk * yk - 2 * (yk * e2) + e2 * e2) by (nonlinear_arith);
    assert(xk * xk == k * k * (x * x)) by (nonlinear_arith)
        requires
            xk == x * k,
    ;
    assert(yk * yk == k * k * (y * y)) by (nonlinear_arith)
        requires
            yk == y * k,
    ;
    assert(k * k * (x * x + y * y) == k * k * (x * x) + k * k * (y * y)) by (nonlinear_arith);
    assert(abs(x * k) <= 2 * u * k && abs(y * k) <= 2 * u * k) by (nonlinear_arith)
        requires
            0 <= k,
            abs(x) <= 2 * u,
            abs(y) <= 2 * u,
    ;
    assert(abs(x * k * e1) <= 2 * u * k * u) by (nonlinear_arith)
        requires
            abs(x * k) <= 2 * u * k,
            abs(e1) < u,
            0 <= k,
    ;
    assert(abs(y * k * e2) <= 2 * u * k * u) by (nonlinear_arith)
        requires
            abs(y * k) <= 2 * u * k,
            abs(e2) < u,
            0 <= k,
    ;
    assert(0 <= e1 * e1 <= u * u && 0 <= e2 * e2 <= u * u) by (nonlinear_arith)
        requires
            abs(e1) < u,
            abs(e2) < u,
    ;
    assert(u * u * (8 * k + 2) == 4 * (2 * u * k * u) + 2 * (u * u)) by (nonlinear_arith);
}

/// The quotient toward zero is off by less than one and no larger in
/// magnitude than the dividend.
proof fn lemma_toward_zero_error(x: int, d: int)
    requires
        d >= 1,
    ensures
        abs(d * toward_zero(x, d) - x) < d,
        abs(x - d * toward_zero(x, d)) < d,
        abs(toward_zero(x, d)) <= abs(x),
{
    let a = abs(x);
    lemma_fundamental_div_mod(a, d);
    lemma_mod_bound(a, d);
    assert(0 <= a / d <= a) by (nonlinear_arith)
        requires
            a == d * (a / d) + a % d,
            0 <= a % d < d,
            d >= 1,
            a >= 0,
    ;
    assert(d * (-(a / d)) == -(d * (a / d))) by (nonlinear_arith);
}

/// Whatever the angle, the results lie on the unit circle up to one part in
/// a hundred thousand: the sum of their squares differs from one by at most
/// `10^-5`.
pub proof fn lemma_unit_norm(alpha: Fixed)
    ensures
        ({
            let r = sincos_spec(alpha);
            let sum = r.0.raw * r.0.raw + r.1.raw * r.1.raw;
            99_999 * (UNITS * UNITS) <= 100_000 * sum <= 100_001 * (UNITS * UNITS)
        }),
{
    lemma2_to64();
    let last = rotated(reduced(alpha), 16);
    lemma_rotated_length(reduced(alpha), 16);
    let x = last.x.raw as int;
    let y = last.y.raw as int;
    let u = UNITS as int;
    let k = gain_units();
    assert(GAIN_BITS[15] == 0x3f1b_74ee);
    assert(GAIN_BITS[15] / 0x80_0000 == 0x7e);
    assert(GAIN_BITS[15] % 0x80_0000 == 0x1b_74ee);
    assert(0x9b_74ee * pow2(8) == gain_units());
    let gain = Fixed::from_ieee_bits_spec(GAIN_BITS[15]);
    assert(gain.raw == k);
    assert(x * x <= (2 * u) * (2 * u) && y * y <= (2 * u) * (2 * u)) by (nonlinear_arith)
        requires
            1_000_000 * (x * x + y * y) <= 2_711_830 * (u * u),
            u == 0x1_0000_0000,
    ;
    lemma_root_bound(x, 2 * u);
    lemma_root_bound(y, 2 * u);
    let c = toward_zero(x * k, u);
    let s = toward_zero(y * k, u);
    lemma_toward_zero_error(x * k, u);
    lemma_toward_zero_error(y * k, u);
    assert(abs(x * k) <= 2 * u * k && abs(y * k) <= 2 * u * k) by (nonlinear_arith)
        requires
            0 <= k,
            abs(x) <= 2 * u,
            abs(y) <= 2 * u,
    ;
    assert(last.x.times_spec(gain).raw == c);
    assert(last.y.times_spec(gain).raw == s);
    lemma_gain_length(x, y, c, s, k, u);
    let len = x * x + y * y;
    let sum = c * c + s * s;
    assert(k * k * (1_000_000 * len) >= k * k * (2_711_810 * (u * u)) && k * k * (1_000_000 * len)
        <= k * k * (2_711_830 * (u * u))) by (nonlinear_arith)
        requires
            2_711_810 * (u * u) <= 1_000_000 * len <= 2_711_830 * (u * u),
    ;
    assert(k * k * (1_000_000 * len) == 1_000_000 * (k * k * len)) by (nonlinear_arith);
    assert(k * k * (2_711_810 * (u * u)) == (k * k * 2_711_810) * (u * u)) by (nonlinear_arith);
    assert(k * k * (2_711_830 * (u * u)) == (k * k * 2_711_830) * (u * u)) by (nonlinear_arith);
    assert(u * u * (8 * k + 2) == (8 * k + 2) * (u * u)) by (nonlinear_arith);
    assert(u * u * sum == sum * (u * u)) by (nonlinear_arith);
    let w = u * u;
    assert(1_000_000 * (sum * w) >= (k * k * 2_711_810) * w - 1_000_000 * ((8 * k + 2) * w));
    assert(1_000_000 * (sum * w) <= (k * k * 2_711_830) * w + 1_000_000 * ((8 * k + 2) * w));
    assert(99_999 * w <= 100_000 * sum <= 100_001 * w) by (nonlinear_arith)
        requires
            w > 0,
            k == 2608131584,
            1_000_000 * (sum * w) >= (k * k * 2_711_810) * w - 1_000_000 * ((8 * k + 2) * w),
            1_000_000 * (sum * w) <= (k * k * 2_711_830) * w + 1_000_000 * ((8 * k + 2) * w),
            w == 0x1_0000_0000 * 0x1_0000_0000,
    ;
}

} // verus!
