use fractal_core::complex::Complex;
use fractal_core::kernel::{mandelbrot, stable, FractalSpec};
use fractal_core::scalar::Scalar;

fn units(n: i32) -> Scalar {
    Scalar::from_units(n)
}

#[test]
fn mandelbrot_origin_never_escapes() {
    assert_eq!(mandelbrot(units(0), units(0), 50), 50);
}

#[test]
fn mandelbrot_outside_escapes_immediately() {
    let count = mandelbrot(units(2), units(0), 50);
    assert!(count < 50);
    // z1 = 2 sits exactly on the radius, z2 = 6 leaves it
    assert_eq!(count, 1);
}

#[test]
fn julia_quarter_constant_origin_is_stable() {
    let jul = Complex::new(Scalar::from_raw(250_000_000), units(0));
    assert_eq!(jul.stable(Complex::null(), 180), 180);
}

#[test]
fn julia_far_point_escapes() {
    let jul = Complex::new(Scalar::from_raw(250_000_000), units(0));
    let count = jul.stable_cords(units(3), units(3), 100);
    assert!(count < 100);
}

#[test]
fn stable_matches_free_functions() {
    let jul = Complex::new(Scalar::from_raw(250_000_000), units(0));
    let probe = Complex::new(Scalar::from_raw(100_000_000), Scalar::from_raw(-200_000_000));
    let fs = FractalSpec::Julia { constant: jul, power: 2 };
    assert_eq!(stable(&fs, probe, 64), jul.stable(probe, 64));

    let ms = FractalSpec::Mandelbrot { power: 2 };
    let point = Complex::new(Scalar::from_raw(-500_000_000), Scalar::from_raw(300_000_000));
    assert_eq!(stable(&ms, point, 64), mandelbrot(point.re(), point.im(), 64));
}

#[test]
fn higher_power_kernel_runs() {
    let fs = FractalSpec::Mandelbrot { power: 3 };
    let origin = Complex::null();
    assert_eq!(stable(&fs, origin, 25), 25);
    let outside = Complex::new(units(2), units(0));
    assert!(stable(&fs, outside, 25) < 25);
}
