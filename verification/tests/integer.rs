use matrix_kernel::Scalar;

#[test]
fn integer_constants() {
    assert_eq!(<i64 as Scalar>::zero(), 0);
    assert_eq!(<i64 as Scalar>::one(), 1);
}

#[test]
fn integer_arithmetic_in_range() {
    assert_eq!(Scalar::plus(5i64, 6), 11);
    assert_eq!(Scalar::minus(5i64, 6), -1);
    assert_eq!(Scalar::times(-5i64, 6), -30);
    assert_eq!(Scalar::negate(5i64), -5);
}

#[test]
fn integer_arithmetic_wraps_modulo_two_to_the_sixty_four() {
    assert_eq!(Scalar::plus(i64::MAX, 1), i64::MIN);
    assert_eq!(Scalar::plus(i64::MIN, -1), i64::MAX);
    assert_eq!(Scalar::minus(i64::MIN, 1), i64::MAX);
    assert_eq!(Scalar::minus(i64::MAX, -1), i64::MIN);
    assert_eq!(Scalar::times(i64::MAX, 2), -2);
    assert_eq!(Scalar::times(i64::MIN, -1), i64::MIN);
    assert_eq!(Scalar::times(1i64 << 32, 1i64 << 32), 0);
    assert_eq!(Scalar::times(3037000500i64, 3037000500), -9223372036709301616);
    assert_eq!(Scalar::negate(i64::MIN), i64::MIN);
}

#[test]
fn integer_ring_laws_on_samples() {
    let samples = [0i64, 1, -1, 2, 7, -13, i64::MAX, i64::MIN, 1 << 40, -(1 << 33) + 5];
    for &a in samples.iter() {
        assert_eq!(Scalar::plus(a, 0), a);
        assert_eq!(Scalar::times(a, 1), a);
        assert_eq!(Scalar::times(a, 0), 0);
        for &b in samples.iter() {
            assert_eq!(Scalar::plus(a, b), Scalar::plus(b, a));
            for &c in samples.iter() {
                assert_eq!(
                    Scalar::plus(Scalar::plus(a, b), c),
                    Scalar::plus(a, Scalar::plus(b, c))
                );
                assert_eq!(
                    Scalar::times(Scalar::times(a, b), c),
                    Scalar::times(a, Scalar::times(b, c))
                );
                assert_eq!(
                    Scalar::times(a, Scalar::plus(b, c)),
                    Scalar::plus(Scalar::times(a, b), Scalar::times(a, c))
                );
            }
        }
    }
}
