use matrix_kernel::cordic::{ANGLE_BITS, GAIN_BITS, ITERATIONS};
use matrix_kernel::{sincos, Matrix, MatrixError, Real, Scalar};

/// Single-precision floating point as a scalar of the kernel.
#[derive(Clone, Copy, Debug, PartialEq)]
struct Single(f32);

impl Scalar for Single {
    fn zero() -> Self {
        Single(0.0)
    }

    fn one() -> Self {
        Single(1.0)
    }

    fn plus(self, rhs: Self) -> Self {
        Single(self.0 + rhs.0)
    }

    fn minus(self, rhs: Self) -> Self {
        Single(self.0 - rhs.0)
    }

    fn times(self, rhs: Self) -> Self {
        Single(self.0 * rhs.0)
    }

    fn negate(self) -> Self {
        Single(-self.0)
    }
}

impl Real for Single {
    fn over(self, rhs: Self) -> Self {
        Single(self.0 / rhs.0)
    }

    fn remainder(self, rhs: Self) -> Self {
        Single(self.0 % rhs.0)
    }

    fn less_than(self, rhs: Self) -> bool {
        self.0 < rhs.0
    }

    fn from_ieee_bits(bits: u32) -> Self {
        Single(f32::from_bits(bits))
    }

    fn from_count(n: usize) -> Self {
        Single(n as f32)
    }

    fn decimal3(self) -> String {
        format!("{:.3}", self.0)
    }
}

fn matrix<const M: usize, const N: usize>(rows: [[f32; N]; M]) -> Matrix<Single> {
    let mut data = Vec::new();
    for row in rows.iter() {
        for entry in row.iter() {
            data.push(Single(*entry));
        }
    }
    Matrix::from(data, (M, N)).unwrap()
}

fn entries(m: &Matrix<Single>) -> Vec<f32> {
    let (rows, cols) = m.shape();
    let mut out = Vec::new();
    for r in 0..rows {
        for c in 0..cols {
            out.push(m.index((r, c)).unwrap().0);
        }
    }
    out
}

fn close(a: f32, b: f32, tolerance: f32) -> bool {
    (a - b).abs() <= tolerance
}

fn cos_sin(alpha: f32) -> (f32, f32) {
    let (c, s) = sincos(Single(alpha));
    (c.0, s.0)
}

#[test]
fn sincos_at_zero_and_quarter_turn() {
    let (c, s) = cos_sin(0.0);
    assert!(close(c, 1.0, 1e-3) && close(s, 0.0, 1e-3));
    let (c, s) = cos_sin(std::f32::consts::FRAC_PI_2);
    assert!(close(c, 0.0, 1e-3) && close(s, 1.0, 1e-3));
}

#[test]
fn sincos_exact_values() {
    let cases: [(u32, u32, u32); 8] = [
        (0x0000_0000, 0x3f7f_ffff, 0x3793_9839),
        (0x3fc9_0fdb, 0xb793_9839, 0x3f7f_ffff),
        (0x3f80_0000, 0x3f0a_50a3, 0x3f57_6b0b),
        (0xbf80_0000, 0x3f0a_50a3, 0xbf57_6b0b),
        (0x3f00_0000, 0x3f60_a8ed, 0x3ef5_7879),
        (0x40e0_0000, 0x3f41_004c, 0x3f28_2fa2),
        (0x42c8_0000, 0x3f5c_c1d7, 0xbf01_9fa1),
        (0xbe80_0000, 0x3f78_0b11, 0xbe7d_50e4),
    ];
    for (alpha, cos, sin) in cases {
        let (c, s) = cos_sin(f32::from_bits(alpha));
        assert_eq!((c.to_bits(), s.to_bits()), (cos, sin), "alpha = {:#x}", alpha);
    }
}

#[test]
fn sincos_follows_the_rotation_loop() {
    for step in -40..=40 {
        let alpha = step as f32 * 0.173;
        let pi = f32::from_bits(0x4049_0fdb);
        let mut reduced = alpha % (2.0 * pi);
        if reduced < -pi {
            reduced += 2.0 * pi;
        } else if reduced > pi {
            reduced -= 2.0 * pi;
        }
        let (mut x, mut y, mut theta, mut p2i) = (1.0f32, 0.0f32, 0.0f32, 1.0f32);
        for i in 0..ITERATIONS {
            let angle = f32::from_bits(ANGLE_BITS[i]);
            let dx = y * p2i;
            let dy = x * p2i;
            if theta < reduced {
                theta += angle;
                x -= dx;
                y += dy;
            } else {
                theta -= angle;
                x += dx;
                y -= dy;
            }
            p2i /= 2.0;
        }
        let gain = f32::from_bits(GAIN_BITS[ITERATIONS - 1]);
        let (c, s) = cos_sin(alpha);
        assert_eq!((c.to_bits(), s.to_bits()), ((x * gain).to_bits(), (y * gain).to_bits()));
    }
}

#[test]
fn sincos_agrees_with_libm_where_the_rotation_converges() {
    for step in -170..=170 {
        let alpha = step as f32 * 0.01;
        let (c, s) = cos_sin(alpha);
        assert!(close(c, libm::cosf(alpha), 1e-3), "cos({})", alpha);
        assert!(close(s, libm::sinf(alpha), 1e-3), "sin({})", alpha);
    }
}

#[test]
fn sincos_keeps_the_unit_norm() {
    for step in -400..=400 {
        let alpha = step as f32 * 0.37;
        let (x, y) = cos_sin(alpha);
        assert!(close(x * x + y * y, 1.0, 1e-2), "alpha = {}", alpha);
    }
    for alpha in [1.0e6f32, -1.0e6, 1.0e-20, 12345.678, f32::MAX, f32::MIN] {
        let (x, y) = cos_sin(alpha);
        assert!(close(x * x + y * y, 1.0, 1e-2), "alpha = {}", alpha);
    }
}

#[test]
fn sincos_is_periodic() {
    let turn = 2.0 * std::f32::consts::PI;
    for alpha in [0.0f32, 0.3, -0.7, 1.2, -1.5, 0.01, 1.0] {
        let (c0, s0) = cos_sin(alpha);
        let (c1, s1) = cos_sin(alpha + turn);
        assert!(close(c0, c1, 1e-3) && close(s0, s1, 1e-3), "alpha = {}", alpha);
        let (c2, s2) = cos_sin(alpha - turn);
        assert!(close(c0, c2, 1e-3) && close(s0, s2, 1e-3), "alpha = {}", alpha);
    }
}

#[test]
fn sincos_propagates_nan_and_infinity() {
    for alpha in [f32::NAN, f32::INFINITY, f32::NEG_INFINITY] {
        let (c, s) = cos_sin(alpha);
        assert!(c.is_nan() || c.is_finite());
        assert!(s.is_nan() || s.is_finite());
        let (x, y) = sincos(Single(alpha));
        assert_eq!(x.0.is_nan(), c.is_nan());
        assert_eq!(y.0.is_nan(), s.is_nan());
    }
}

#[test]
fn rotation_2d_holds_cosine_and_sine() {
    let (c, s) = cos_sin(0.5);
    let r = Matrix::rotation_2d(Single(0.5));
    assert_eq!(r.shape(), (2, 2));
    assert_eq!(entries(&r), vec![c, -s, s, c]);
    let from = Matrix::rotation_2d_from(Single(libm::sinf(0.5)), Single(libm::cosf(0.5)));
    for (a, b) in entries(&r).iter().zip(entries(&from).iter()) {
        assert!(close(*a, *b, 1e-3));
    }
}

#[test]
fn rotation_3d_follows_the_closed_formula() {
    let (yaw, pitch, roll) = (0.3f32, -0.4f32, 1.1f32);
    let (cy, sy) = cos_sin(yaw);
    let (cp, sp) = cos_sin(pitch);
    let (cr, sr) = cos_sin(roll);
    let r = Matrix::rotation_3d(Single(yaw), Single(pitch), Single(roll));
    assert_eq!(r.shape(), (3, 3));
    let expected = vec![
        cy * cp,
        cy * sp * sr - sy * cr,
        cy * sp * cr + sy * sr,
        sy * cp,
        sy * sp * sr + cy * cr,
        sy * sp * cr - cy * sr,
        -sp,
        cp * sr,
        cp * cr,
    ];
    assert_eq!(entries(&r), expected);
    let rt = r.T();
    let product = rt.mul(&r).unwrap();
    let identity = entries(&Matrix::<Single>::identity(3));
    for (a, b) in entries(&product).iter().zip(identity.iter()) {
        assert!(close(*a, *b, 1e-3));
    }
}

#[test]
fn rotation_3d_of_no_rotation_is_nearly_the_identity() {
    let r = Matrix::rotation_3d(Single(0.0), Single(0.0), Single(0.0));
    let identity = entries(&Matrix::<Single>::identity(3));
    for (a, b) in entries(&r).iter().zip(identity.iter()) {
        assert!(close(*a, *b, 1e-3));
    }
}

#[test]
fn householder_reflects_a_unit_vector() {
    let v = matrix([[0.6], [0.8]]);
    let h = v.transform_householder().unwrap();
    assert_eq!(h.shape(), (2, 2));
    let hv = h.mul(&v).unwrap();
    for (a, b) in entries(&hv).iter().zip([-0.6f32, -0.8].iter()) {
        assert!(close(*a, *b, 1e-5));
    }
    let hth = h.T().mul(&h).unwrap();
    for (a, b) in entries(&hth).iter().zip([1.0f32, 0.0, 0.0, 1.0].iter()) {
        assert!(close(*a, *b, 1e-5));
    }
}

#[test]
fn householder_of_a_basis_vector() {
    let v = matrix([[1.0], [0.0], [0.0]]);
    let h = v.transform_householder().unwrap();
    assert_eq!(entries(&h), vec![-1.0, 0.0, 0.0, 0.0, 1.0, 0.0, 0.0, 0.0, 1.0]);
    assert_eq!(entries(&h.mul(&v).unwrap()), vec![-1.0, 0.0, 0.0]);
}

#[test]
fn householder_follows_its_formula() {
    let v = matrix([[1.0], [2.0], [3.0]]);
    let h = v.transform_householder().unwrap();
    let factor = 2.0f32 / 14.0;
    let mut expected = Vec::new();
    for i in 0..3 {
        for j in 0..3 {
            let outer = (i as f32 + 1.0) * (j as f32 + 1.0);
            let unit = if i == j { 1.0f32 } else { 0.0 };
            expected.push(unit - outer * factor);
        }
    }
    assert_eq!(entries(&h), expected);
}

#[test]
fn householder_needs_a_column_vector() {
    let row = matrix([[1.0, 2.0, 3.0]]);
    assert!(matches!(row.transform_householder(), Err(MatrixError::InvalidVectorShape)));
    let square = matrix([[1.0, 2.0], [3.0, 4.0]]);
    assert!(matches!(square.transform_householder(), Err(MatrixError::InvalidVectorShape)));
}

#[test]
fn norm_l2_is_the_mean_of_the_squares() {
    let m = matrix([[1.0, 2.0], [3.0, 4.0]]);
    assert_eq!(m.norm_l2(), Single(7.5));
    let v = matrix([[3.0], [4.0]]);
    assert_eq!(v.norm_l2(), Single(12.5));
}

#[test]
fn product_sums_in_increasing_order() {
    let big = 16777216.0f32;
    let a = matrix([[big, 1.0, -big]]);
    let b = matrix([[1.0], [1.0], [1.0]]);
    let p = a.mul(&b).unwrap();
    assert_eq!(entries(&p), vec![((0.0f32 + big) + 1.0) - big]);
    assert_eq!(entries(&p), vec![0.0]);
    assert_eq!(a.dot(&b).unwrap(), Single(0.0));
}

#[test]
fn determinant_of_a_float_matrix() {
    let m = matrix([[4.0, 0.0, 4.0], [3.0, -4.0, 3.0], [4.0, -2.0, 1.0]]);
    assert_eq!(m.determinant().unwrap(), Single(48.0));
    for n in [1usize, 2, 3, 5] {
        assert_eq!(Matrix::<Single>::identity(n).determinant().unwrap(), Single(1.0));
    }
    assert_eq!(matrix([[5.0]]).determinant().unwrap(), Single(5.0));
}

#[test]
fn cross_of_basis_vectors() {
    let e1 = matrix([[1.0], [0.0], [0.0]]);
    let e2 = matrix([[0.0], [1.0], [0.0]]);
    let e3 = e1.cross(&e2).unwrap();
    assert_eq!(e3.shape(), (3, 1));
    assert_eq!(entries(&e3), vec![0.0, 0.0, 1.0]);
}

#[test]
fn renders_with_three_decimals_and_equal_width() {
    let m = matrix([[1.0, -2.5], [10.25, 3.0]]);
    assert_eq!(m.to_string(), "|  1.000  -2.500 |\n| 10.250   3.000 |");
    let v = matrix([[1.0], [2.0], [3.0]]);
    assert_eq!(v.to_string(), "| 1.000 |\n| 2.000 |\n| 3.000 |");
    let single = matrix([[0.0005]]);
    assert_eq!(single.to_string(), "| 0.001 |");
    let wide = matrix([[1234.5678, 0.1, -0.25]]);
    assert_eq!(wide.to_string(), "| 1234.568     0.100    -0.250 |");
}

#[test]
fn renders_the_dyadic_product_of_a_vector_with_itself() {
    let v1 = matrix([[1.0], [2.0], [3.0]]);
    let v2 = matrix([[1.0], [2.0], [3.0]]).T();
    let m1 = v1.dyadic(&v2).unwrap();
    assert_eq!(
        m1.to_string(),
        "| 1.000  2.000  3.000 |\n| 2.000  4.000  6.000 |\n| 3.000  6.000  9.000 |"
    );
}

#[test]
fn angle_table_holds_the_arctangents_of_the_powers_of_two() {
    for i in 0..16 {
        let angle = (0.5f64.powi(i as i32)).atan() as f32;
        assert_eq!(ANGLE_BITS[i], angle.to_bits(), "entry {}", i);
    }
}

#[test]
fn gain_table_holds_the_reciprocals_of_the_accumulated_gain() {
    let mut gain = 1.0f64;
    for i in 0..16 {
        gain *= (1.0 + 0.25f64.powi(i as i32)).sqrt();
        let expected = (1.0 / gain) as f32;
        let entry = f32::from_bits(GAIN_BITS[i]);
        assert!((entry - expected).abs() <= f32::EPSILON * expected, "entry {}", i);
    }
    assert_eq!(ITERATIONS, 16);
}

#[test]
fn transposing_twice_gives_a_float_matrix_back() {
    let m = matrix([[1.5, -2.0, f32::MAX], [0.0, -0.0, 1.0e-30]]);
    let back = m.T().T();
    assert_eq!(back.shape(), (2, 3));
    let bits = |m: &Matrix<Single>| entries(m).iter().map(|e| e.to_bits()).collect::<Vec<u32>>();
    assert_eq!(bits(&back), bits(&m));
}

#[test]
fn float_powers_follow_repeated_squaring() {
    let x = 0.1f32;
    let a = matrix([[x]]);
    assert_eq!(entries(&a.pow(0).unwrap()), vec![1.0]);
    assert_eq!(entries(&a.pow(1).unwrap()), vec![x]);
    let square = 0.0f32 + x * x;
    assert_eq!(entries(&a.pow(2).unwrap()), vec![square]);
    assert_eq!(entries(&a.pow(3).unwrap()), vec![0.0 + square * x]);
    let fourth = 0.0f32 + square * square;
    assert_eq!(entries(&a.pow(4).unwrap()), vec![fourth]);
    assert_eq!(entries(&a.pow(5).unwrap()), vec![0.0 + fourth * x]);
    let one_by_three = a.pow(1).unwrap().mul(&a.pow(3).unwrap()).unwrap();
    assert_ne!(entries(&one_by_three), vec![fourth]);
}
