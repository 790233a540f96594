use matrix_kernel::{sincos, Fixed, Matrix, MatrixError, Real, Scalar};

const ONE: i64 = 4294967296;

fn raw(raw: i64) -> Fixed {
    Fixed { raw }
}

fn whole(n: i64) -> Fixed {
    Fixed { raw: n * ONE }
}

fn value(x: Fixed) -> f64 {
    x.raw as f64 / ONE as f64
}

#[test]
fn fixed_constants() {
    assert_eq!(Fixed::zero(), raw(0));
    assert_eq!(Fixed::one(), raw(ONE));
}

#[test]
fn fixed_sums_saturate() {
    assert_eq!(whole(2).plus(whole(3)), whole(5));
    assert_eq!(whole(2).minus(whole(3)), whole(-1));
    assert_eq!(raw(i64::MAX).plus(raw(1)), raw(i64::MAX));
    assert_eq!(raw(i64::MIN).plus(raw(-1)), raw(i64::MIN));
    assert_eq!(raw(i64::MIN).minus(raw(1)), raw(i64::MIN));
    assert_eq!(raw(i64::MAX).minus(raw(-1)), raw(i64::MAX));
    assert_eq!(raw(i64::MAX).minus(raw(i64::MIN)), raw(i64::MAX));
    assert_eq!(raw(i64::MIN).minus(raw(i64::MAX)), raw(i64::MIN));
    assert_eq!(whole(7).negate(), whole(-7));
    assert_eq!(raw(i64::MIN).negate(), raw(i64::MAX));
    assert_eq!(raw(i64::MAX).negate(), raw(i64::MIN + 1));
}

#[test]
fn fixed_products_round_toward_zero_and_saturate() {
    assert_eq!(raw(3 * ONE / 2).times(raw(9 * ONE / 4)), raw(14495514624));
    assert_eq!(raw(-3 * ONE / 2).times(raw(9 * ONE / 4)), raw(-14495514624));
    assert_eq!(raw(3).times(raw(ONE / 2)), raw(1));
    assert_eq!(raw(-3).times(raw(ONE / 2)), raw(-1));
    assert_eq!(raw(1).times(raw(1)), raw(0));
    assert_eq!(raw(-1).times(raw(1)), raw(0));
    assert_eq!(raw(i64::MAX).times(whole(2)), raw(i64::MAX));
    assert_eq!(raw(i64::MIN).times(whole(2)), raw(i64::MIN));
    assert_eq!(raw(i64::MIN).times(whole(-1)), raw(i64::MAX));
    assert_eq!(raw(i64::MIN).times(raw(i64::MIN)), raw(i64::MAX));
    assert_eq!(raw(123456789).times(Fixed::one()), raw(123456789));
    assert_eq!(Fixed::one().times(raw(-123456789)), raw(-123456789));
    assert_eq!(raw(i64::MIN).times(Fixed::one()), raw(i64::MIN));
    assert_eq!(raw(987654321).times(Fixed::zero()), Fixed::zero());
}

#[test]
fn fixed_quotients_round_toward_zero_and_saturate() {
    assert_eq!(whole(1).over(whole(3)), raw(1431655765));
    assert_eq!(whole(-1).over(whole(3)), raw(-1431655765));
    assert_eq!(whole(7).over(whole(2)), raw(15032385536));
    assert_eq!(whole(-7).over(whole(2)), raw(-15032385536));
    assert_eq!(raw(1).over(whole(2)), raw(0));
    assert_eq!(raw(-1).over(whole(2)), raw(0));
    assert_eq!(raw(i64::MAX).over(raw(ONE / 2)), raw(i64::MAX));
    assert_eq!(raw(i64::MIN).over(whole(-1)), raw(i64::MAX));
    assert_eq!(whole(1).over(raw(0)), raw(i64::MAX));
    assert_eq!(whole(-1).over(raw(0)), raw(i64::MIN));
    assert_eq!(raw(0).over(raw(0)), raw(0));
}

#[test]
fn fixed_remainder_has_the_sign_of_the_dividend() {
    assert_eq!(raw(15 * ONE / 2).remainder(whole(2)), raw(3 * ONE / 2));
    assert_eq!(raw(-15 * ONE / 2).remainder(whole(2)), raw(-3 * ONE / 2));
    assert_eq!(raw(15 * ONE / 2).remainder(whole(-2)), raw(3 * ONE / 2));
    assert_eq!(whole(1).remainder(raw(0)), raw(0));
    assert_eq!(raw(i64::MIN).remainder(raw(-1)), raw(0));
    assert_eq!(raw(i64::MIN).remainder(raw(3)), raw(-2));
}

#[test]
fn fixed_order() {
    assert!(whole(1).less_than(whole(2)));
    assert!(!whole(2).less_than(whole(2)));
    assert!(!whole(3).less_than(whole(2)));
    assert!(raw(i64::MIN).less_than(raw(i64::MAX)));
    assert!(whole(-1).less_than(raw(0)));
}

#[test]
fn fixed_reads_single_precision_bit_patterns() {
    assert_eq!(Fixed::from_ieee_bits(0x3f80_0000), whole(1));
    assert_eq!(Fixed::from_ieee_bits(0x4000_0000), whole(2));
    assert_eq!(Fixed::from_ieee_bits(0x3f00_0000), raw(ONE / 2));
    assert_eq!(Fixed::from_ieee_bits(0xbfc0_0000), raw(-3 * ONE / 2));
    assert_eq!(Fixed::from_ieee_bits(0x4049_0fdb), raw(13493038080));
    assert_eq!(Fixed::from_ieee_bits(0x3dcc_cccd), raw(429496736));
    assert_eq!(Fixed::from_ieee_bits(0x3800_0000), raw(131072));
    assert_eq!(Fixed::from_ieee_bits(0x3f1b_74ee), raw(2608131584));
    assert_eq!(Fixed::from_ieee_bits(0x0000_0000), raw(0));
    assert_eq!(Fixed::from_ieee_bits(0x8000_0000), raw(0));
    assert_eq!(Fixed::from_ieee_bits(0x0000_0001), raw(0));
    assert_eq!(Fixed::from_ieee_bits(0x2f80_0000), raw(1));
    assert_eq!(Fixed::from_ieee_bits(0x2f00_0000), raw(0));
    assert_eq!(Fixed::from_ieee_bits(0x4e80_0000), raw(4611686018427387904));
    assert_eq!(Fixed::from_ieee_bits(0x4f00_0000), raw(i64::MAX));
    assert_eq!(Fixed::from_ieee_bits(0xcf00_0000), raw(i64::MIN));
    assert_eq!(Fixed::from_ieee_bits(0x7f7f_ffff), raw(i64::MAX));
    assert_eq!(Fixed::from_ieee_bits(0x7f80_0000), raw(i64::MAX));
    assert_eq!(Fixed::from_ieee_bits(0xff80_0000), raw(i64::MIN));
    assert_eq!(Fixed::from_ieee_bits(0x7fc0_0000), raw(0));
}

#[test]
fn fixed_reads_every_bit_pattern_as_the_float_truncated() {
    let mut bits: u32 = 0x2000_0000;
    while bits < 0x4e80_0000 {
        let expected = (f32::from_bits(bits) as f64 * ONE as f64).trunc() as i64;
        assert_eq!(Fixed::from_ieee_bits(bits), raw(expected), "bits = {:#x}", bits);
        assert_eq!(Fixed::from_ieee_bits(bits | 0x8000_0000), raw(-expected));
        bits += 0x0003_a5c7;
    }
}

#[test]
fn fixed_counts() {
    assert_eq!(Fixed::from_count(0), raw(0));
    assert_eq!(Fixed::from_count(3), whole(3));
    assert_eq!(Fixed::from_count(2147483647), whole(2147483647));
    assert_eq!(Fixed::from_count(2147483648), raw(i64::MAX));
    assert_eq!(Fixed::from_count(usize::MAX), raw(i64::MAX));
}

#[test]
fn fixed_decimal_text() {
    assert_eq!(whole(1).decimal3(), "1.000");
    assert_eq!(raw(-5 * ONE / 2).decimal3(), "-2.500");
    assert_eq!(raw(1431655765).decimal3(), "0.333");
    assert_eq!(raw(2863311530).decimal3(), "0.667");
    assert_eq!(raw(2147483).decimal3(), "0.000");
    assert_eq!(raw(2147484).decimal3(), "0.001");
    assert_eq!(raw(0).decimal3(), "0.000");
    assert_eq!(raw(-1).decimal3(), "-0.000");
    assert_eq!(raw(5302424889720).decimal3(), "1234.567");
    assert_eq!(raw(44023414784).decimal3(), "10.250");
    assert_eq!(raw(1000 * ONE - 1).decimal3(), "1000.000");
    assert_eq!(raw(-(1000 * ONE - 1)).decimal3(), "-1000.000");
    assert_eq!(raw(i64::MAX).decimal3(), "2147483648.000");
    assert_eq!(raw(i64::MIN).decimal3(), "-2147483648.000");
}

#[test]
fn fixed_sincos_exact_values() {
    assert_eq!(sincos(raw(0)), (raw(4294967436), raw(75567)));
    assert_eq!(sincos(whole(1)), (raw(2320540492), raw(3614116369)));
    assert_eq!(sincos(whole(-1)), (raw(2320540492), raw(-3614116369)));
    assert_eq!(sincos(raw(ONE / 2)), (raw(3769166924), raw(2059156623)));
    assert_eq!(sincos(whole(7)), (raw(3238022474), raw(2821693775)));
    assert_eq!(sincos(whole(100)), (raw(3703691044), raw(-2174722501)));
    assert_eq!(sincos(raw(6746519040)), (raw(-75567), raw(4294967436)));
}

#[test]
fn fixed_sincos_at_zero_and_quarter_turn() {
    let (c, s) = sincos(raw(0));
    assert!((value(c) - 1.0).abs() <= 1e-3 && value(s).abs() <= 1e-3);
    let (c, s) = sincos(Fixed::from_ieee_bits(0x3fc9_0fdb));
    assert!(value(c).abs() <= 1e-3 && (value(s) - 1.0).abs() <= 1e-3);
}

#[test]
fn fixed_sincos_is_accurate_where_the_rotation_converges() {
    for step in -1700..=1700i64 {
        let alpha = raw(step * ONE / 1000);
        let (c, s) = sincos(alpha);
        assert!((value(c) - value(alpha).cos()).abs() <= 1e-3);
        assert!((value(s) - value(alpha).sin()).abs() <= 1e-3);
    }
}

#[test]
fn fixed_sincos_keeps_the_unit_norm() {
    for step in -4000..=4000i64 {
        let (x, y) = sincos(raw(step * ONE * 37 / 100));
        assert!((value(x) * value(x) + value(y) * value(y) - 1.0).abs() <= 1e-2);
    }
    for alpha in [i64::MAX, i64::MIN, 1, -1] {
        let (x, y) = sincos(raw(alpha));
        assert!((value(x) * value(x) + value(y) * value(y) - 1.0).abs() <= 1e-2);
    }
}

#[test]
fn fixed_sincos_is_periodic() {
    let turn = Fixed::from_ieee_bits(0x4000_0000).times(Fixed::from_ieee_bits(0x4049_0fdb));
    for step in [-3i64, -1, 0, 1, 2, 5] {
        let alpha = raw(step * ONE / 4);
        assert_eq!(sincos(alpha.plus(turn)), sincos(alpha));
        assert_eq!(sincos(alpha.plus(turn).plus(turn)), sincos(alpha));
    }
}

#[test]
fn fixed_householder_of_a_basis_vector() {
    let v = Matrix::new([[whole(1)], [whole(0)], [whole(0)]]);
    let h = v.transform_householder().unwrap();
    assert_eq!(h.shape(), (3, 3));
    let expected = [-1i64, 0, 0, 0, 1, 0, 0, 0, 1];
    for r in 0..3 {
        for c in 0..3 {
            assert_eq!(h.index((r, c)), Ok(&whole(expected[r * 3 + c])));
        }
    }
    let reflected = h.mul(&v).unwrap();
    assert_eq!(reflected.index((0, 0)), Ok(&whole(-1)));
    assert_eq!(reflected.index((1, 0)), Ok(&whole(0)));
    assert_eq!(reflected.index((2, 0)), Ok(&whole(0)));
    let row = Matrix::new([[whole(1), whole(0)]]);
    assert!(matches!(row.transform_householder(), Err(MatrixError::InvalidVectorShape)));
}

#[test]
fn fixed_mean_of_squares() {
    let m = Matrix::new([[whole(1), whole(2)], [whole(3), whole(4)]]);
    assert_eq!(m.norm_l2(), raw(15 * ONE / 2));
}

#[test]
fn fixed_renders_with_three_decimals_and_equal_width() {
    let m = Matrix::new(
        [[whole(1), raw(-5 * ONE / 2)], [raw(44023414784), whole(3)]],
    );
    assert_eq!(m.to_string(), "|  1.000  -2.500 |\n| 10.250   3.000 |");
    let row = Matrix::new([[whole(1), whole(2), whole(3)]]);
    assert_eq!(row.to_string(), "| 1.000  2.000  3.000 |");
    let column = Matrix::new([[whole(100)], [whole(-1)]]);
    assert_eq!(column.to_string(), "| 100.000 |\n|  -1.000 |");
}

#[test]
fn fixed_renders_empty_shapes() {
    assert_eq!(Matrix::<Fixed>::zeros((0, 0)).to_string(), "");
    assert_eq!(Matrix::<Fixed>::zeros((0, 3)).to_string(), "");
    assert_eq!(Matrix::<Fixed>::zeros((2, 0)).to_string(), "|  |\n|  |");
}

#[test]
fn fixed_rotation_2d_holds_cosine_and_sine() {
    let (c, s) = sincos(whole(1));
    let r = Matrix::rotation_2d(whole(1));
    assert_eq!(r.shape(), (2, 2));
    assert_eq!(r.index((0, 0)), Ok(&c));
    assert_eq!(r.index((0, 1)), Ok(&s.negate()));
    assert_eq!(r.index((1, 0)), Ok(&s));
    assert_eq!(r.index((1, 1)), Ok(&c));
}

#[test]
fn fixed_sincos_lies_on_the_unit_circle() {
    let unit = ONE as i128 * ONE as i128;
    let mut alpha: i64 = i64::MIN;
    loop {
        let (x, y) = sincos(raw(alpha));
        let sum = x.raw as i128 * x.raw as i128 + y.raw as i128 * y.raw as i128;
        assert!(99_999 * unit <= 100_000 * sum && 100_000 * sum <= 100_001 * unit);
        match alpha.checked_add(0x0003_1415_9265_3589) {
            Some(next) => alpha = next,
            None => break,
        }
    }
    for step in -70000..=70000i64 {
        let (x, y) = sincos(raw(step * 99991));
        let sum = x.raw as i128 * x.raw as i128 + y.raw as i128 * y.raw as i128;
        assert!(99_999 * unit <= 100_000 * sum && 100_000 * sum <= 100_001 * unit);
    }
}

#[test]
fn fixed_identity_laws() {
    let m = Matrix::new([[raw(1431655765), whole(-7)], [raw(i64::MAX), raw(i64::MIN)]]);
    let i = Matrix::<Fixed>::identity(2);
    let left = i.mul(&m).unwrap();
    let right = m.mul(&i).unwrap();
    for r in 0..2 {
        for c in 0..2 {
            assert_eq!(left.index((r, c)), m.index((r, c)));
            assert_eq!(right.index((r, c)), m.index((r, c)));
        }
    }
    for n in [1usize, 2, 3, 5, 7] {
        assert_eq!(Matrix::<Fixed>::identity(n).determinant(), Ok(Fixed::one()));
    }
}

#[test]
fn fixed_decimal_text_rounds_halves_to_even() {
    assert_eq!(raw(ONE / 16).decimal3(), "0.062");
    assert_eq!(raw(3 * ONE / 16).decimal3(), "0.188");
    assert_eq!(raw(-ONE / 16).decimal3(), "-0.062");
    assert_eq!(raw(ONE / 2).decimal3(), "0.500");
    assert_eq!(raw(ONE / 2048).decimal3(), "0.000");
    assert_eq!(raw(3 * ONE / 2048).decimal3(), "0.001");
    assert_eq!(raw(5 * ONE / 2048 + 1).decimal3(), "0.002");
}

#[test]
fn fixed_decimal_text_agrees_with_the_text_of_the_same_float() {
    let mut units: i64 = -(1 << 52);
    while units < (1 << 52) {
        let text = format!("{:.3}", units as f64 / ONE as f64);
        assert_eq!(raw(units).decimal3(), text, "units = {}", units);
        units += 0x0000_0123_4567_89ab / 7;
    }
    for units in -5000..=5000i64 {
        let text = format!("{:.3}", (units * 262144) as f64 / ONE as f64);
        assert_eq!(raw(units * 262144).decimal3(), text, "units = {}", units * 262144);
    }
}
