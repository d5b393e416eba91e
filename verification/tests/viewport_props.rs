use fractal_core::scalar::Scalar;
use fractal_core::viewport::{PlotWindow, ViewportError};

#[test]
fn new_viewport_has_canonical_bounds() {
    let v = PlotWindow::new((192, 108));
    assert_eq!(v.x_min, Scalar::from_raw(-2_133_300_000));
    assert_eq!(v.x_max, Scalar::from_raw(2_133_300_000));
    assert_eq!(v.y_min, Scalar::from_raw(-1_200_000_000));
    assert_eq!(v.y_max, Scalar::from_raw(1_200_000_000));
    assert_eq!(v.x_dif, Scalar::from_raw(4_266_600_000));
    assert_eq!(v.y_dif, Scalar::from_raw(2_400_000_000));
    assert_eq!(v.julia.re(), Scalar::from_raw(250_000_000));
    assert_eq!(v.julia.im(), Scalar::from_raw(0));
}

#[test]
fn zoom_in_is_contained() {
    let v = PlotWindow::new((192, 108));
    let half = Scalar::from_raw(500_000_000);
    let w = v.zoom((96, 54), half).unwrap();
    // the halved spans, exactly
    assert_eq!(w.x_dif, Scalar::from_raw(2_133_300_000));
    assert_eq!(w.y_dif, Scalar::from_raw(1_200_000_000));
    // the new bounds center on the converted pixel point
    assert_eq!(w.x_min, Scalar::from_raw(-1_055_480_891));
    assert_eq!(w.x_max, Scalar::from_raw(1_077_819_109));
    assert_eq!(w.y_min, Scalar::from_raw(-588_785_047));
    assert_eq!(w.y_max, Scalar::from_raw(611_214_953));
    // containment on both axes
    assert!(v.x_min.raw() <= w.x_min.raw() && w.x_max.raw() <= v.x_max.raw());
    assert!(v.y_min.raw() <= w.y_min.raw() && w.y_max.raw() <= v.y_max.raw());
}

#[test]
fn zoom_in_at_corner_is_clamped_and_contained() {
    let v = PlotWindow::new((192, 108));
    let half = Scalar::from_raw(500_000_000);
    // a corner point would undershoot both minima without the clamp
    let w = v.zoom((0, 0), half).unwrap();
    assert_eq!(w.x_min, v.x_min);
    assert_eq!(w.y_min, v.y_min);
    assert!(w.x_max.raw() <= v.x_max.raw());
    assert!(w.y_max.raw() <= v.y_max.raw());
    assert_eq!(w.x_max.raw() - w.x_min.raw(), w.x_dif.raw());
    // the opposite corner clamps against the maxima
    let u = v.zoom((191, 107), half).unwrap();
    assert_eq!(u.x_max, v.x_max);
    assert_eq!(u.y_max, v.y_max);
    assert!(v.x_min.raw() <= u.x_min.raw());
    assert!(v.y_min.raw() <= u.y_min.raw());
}

#[test]
fn zoom_out_grows_without_clamp() {
    let v = PlotWindow::new((192, 108));
    let two = Scalar::from_units(2);
    let w = v.zoom((96, 54), two).unwrap();
    assert_eq!(w.x_dif, Scalar::from_raw(8_533_200_000));
    assert_eq!(w.y_dif, Scalar::from_raw(4_800_000_000));
    assert!(w.x_min.raw() < v.x_min.raw());
    assert!(w.x_max.raw() > v.x_max.raw());
    assert_eq!(w.x_max.raw() - w.x_min.raw(), w.x_dif.raw());
}

#[test]
fn zoom_keeps_dimensions_and_constant() {
    let v = PlotWindow::new((64, 36));
    let w = v.zoom((10, 20), Scalar::from_raw(300_000_000)).unwrap();
    assert_eq!(w.pixel_dim, (64, 36));
    assert_eq!(w.julia, v.julia);
}

#[test]
fn zoom_span_underflow_is_reported() {
    let v = PlotWindow::new((16, 9));
    let tiny = Scalar::from_raw(1);
    // one zoom by a billionth leaves spans of a few raw units
    let w = v.zoom((8, 4), tiny).unwrap();
    assert_eq!(w.x_dif, Scalar::from_raw(4));
    assert_eq!(w.y_dif, Scalar::from_raw(2));
    // a second such zoom collapses them to nothing
    assert_eq!(w.zoom((8, 4), tiny).err(), Some(ViewportError::SpanUnderflow));
}

#[test]
fn zoom_span_overflow_is_reported() {
    let v = PlotWindow::new((16, 9));
    let huge = Scalar::from_raw(i64::MAX);
    // one huge zoom-out still fits: the span saturates and the bounds
    // stay representable
    let far = v.zoom((8, 4), huge).unwrap();
    // recentering on the far corner keeps drifting the bounds outward;
    // the second recentering pushes the lower bound past the
    // representable range
    let far2 = far.zoom((0, 0), Scalar::one()).unwrap();
    assert_eq!(far2.zoom((0, 0), Scalar::one()).err(), Some(ViewportError::SpanOverflow));
}

#[test]
fn set_julia_picks_the_converted_point() {
    let v = PlotWindow::new((192, 108));
    let w = v.set_julia((96, 54));
    assert_eq!(w.x_min, v.x_min);
    assert_eq!(w.x_max, v.x_max);
    assert_eq!(w.y_min, v.y_min);
    assert_eq!(w.y_max, v.y_max);
    assert_eq!(w.pixel_dim, v.pixel_dim);
    assert_eq!(w.julia.re(), Scalar::from_raw(11_169_109));
    assert_eq!(w.julia.im(), Scalar::from_raw(11_214_953));
}

#[test]
fn viewport_renders_have_pixel_layout() {
    let v = PlotWindow::new((8, 6));
    let mandel = v.load_mandelbrot(12).unwrap();
    assert_eq!(mandel.len(), 3 * 8 * 6);
    let jul = v.load_julia(12).unwrap();
    assert_eq!(jul.len(), 3 * 8 * 6);
}

#[test]
fn bounds_reports_the_fields() {
    let v = PlotWindow::new((32, 18));
    let (x0, x1, y0, y1) = v.bounds();
    assert_eq!(x0, v.x_min);
    assert_eq!(x1, v.x_max);
    assert_eq!(y0, v.y_min);
    assert_eq!(y1, v.y_max);
}
