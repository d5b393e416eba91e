use fractal_core::complex::{ArithError, Complex};
use fractal_core::scalar::{Scalar, SCALE};

fn units(n: i32) -> Scalar {
    Scalar::from_units(n)
}

fn c(re: i32, im: i32) -> Complex {
    Complex::new(units(re), units(im))
}

#[test]
fn complex_add_sub() {
    let a = c(1, 0);
    let b = c(0, 1);
    let cc = c(5, 3);
    let d = c(-2, -6);

    assert_eq!(a.add(a), c(2, 0));
    assert_eq!(b.add(b), c(0, 2));
    assert_eq!(a.add(b), c(1, 1));

    assert_eq!(cc.sub(a), c(4, 3));
    assert_eq!(cc.sub(b), c(5, 2));

    assert_eq!(a.add(d), c(-1, -6));
    assert_eq!(b.add(d), c(-2, -5));

    assert_eq!(cc.add(d), c(3, -3));
    assert_eq!(cc.sub(d), c(7, 9));
}

#[test]
fn complex_add_sub_assign() {
    let mut a = c(1, 0);
    let b = c(0, 1);
    let mut cc = c(2, -3);
    let d = c(-2, -6);

    a.add_assign(b);
    assert_eq!(a, c(1, 1));

    cc.sub_assign(d);
    assert_eq!(cc, c(4, 3));
}

#[test]
fn complex_mul() {
    let a = c(1, 0);
    let b = c(0, 1);
    let cc = c(2, 3);
    let d = c(-5, -4);

    assert_eq!(a.mul(b), c(0, 1));

    assert_eq!(a.mul(cc), cc);
    assert_eq!(b.mul(cc), c(-3, 2));

    assert_eq!(cc.mul(d), c(2, -23));
}

#[test]
fn complex_div() {
    let a = c(1, 0);
    let b = c(0, 1);
    let cc = c(2, 3);
    let d = c(-5, -4);

    assert_eq!(cc.div(a).unwrap(), cc);
    assert_eq!(d.div(a).unwrap(), d);

    assert_eq!(cc.div(b).unwrap(), c(3, -2));
    assert_eq!(d.div(b).unwrap(), c(-4, 5));

    let expected = Complex::new(units(-22).div(units(41)), units(-7).div(units(41)));
    assert_eq!(cc.div(d).unwrap(), expected);
}

#[test]
fn complex_div_degenerate() {
    let cc = c(2, 3);
    assert_eq!(cc.div(Complex::null()), Err(ArithError::DegenerateDivision));
}

#[test]
fn dist_from_origin() {
    let a = c(1, 0);
    let b = c(0, 1);
    let cc = c(2, 3);
    let d = c(-5, -4);

    assert_eq!(a.dist_from_origin(), units(1));
    assert_eq!(b.dist_from_origin(), units(1));
    // floor(sqrt(13) * 10^9) and floor(sqrt(41) * 10^9)
    assert_eq!(cc.dist_from_origin(), Scalar::from_raw(3_605_551_275));
    assert_eq!(d.dist_from_origin(), Scalar::from_raw(6_403_124_237));
}

#[test]
fn neg() {
    let num = Complex::new(Scalar::from_raw(2_100_000_000), Scalar::from_raw(-7_500_000_000));
    assert_eq!(
        num.neg(),
        Complex::new(Scalar::from_raw(-2_100_000_000), Scalar::from_raw(7_500_000_000))
    );
}

#[test]
fn magnitude_three_four_is_five() {
    let z = c(3, 4);
    assert_eq!(z.dist_from_origin(), units(5));
}

#[test]
fn div_mul_round_trip_within_tolerance() {
    let a = c(5, 3);
    let b = c(2, 3);
    let q = a.div(b).unwrap();
    let back = q.mul(b);
    // tolerance: the divisor's combined magnitude scaled down, plus two
    let tol: i64 = (b.re().raw().abs() + b.im().raw().abs()) / SCALE + 2;
    assert!((back.re().raw() - a.re().raw()).abs() <= tol);
    assert!((back.im().raw() - a.im().raw()).abs() <= tol);
}

#[test]
fn powi_laws() {
    let a = c(2, -1);
    assert_eq!(a.powi(0), c(1, 0));
    assert_eq!(a.powi(1), a);
    assert_eq!(a.powi(2), a.powi(1).mul(a));
    assert_eq!(a.powi(3), a.powi(2).mul(a));
    assert_eq!(a.powi(2), c(3, -4));
}

#[test]
fn conjugate() {
    let z = c(2, 3);
    assert_eq!(z.con(), c(2, -3));
    assert_eq!(z.con().con(), z);
}
