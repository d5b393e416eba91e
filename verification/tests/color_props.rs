use fractal_core::colors::{color_builder, iteration_to_color, ratio_to_color, Rgb};
use fractal_core::scalar::Scalar;

#[test]
fn interior_is_black_for_every_depth() {
    for depth in [1u32, 2, 50, 100, 180, 1000] {
        assert_eq!(iteration_to_color(depth, depth), Rgb { r: 0, g: 0, b: 0 });
    }
}

#[test]
fn cyclic_color_ignores_depth() {
    // equal residues modulo the period give equal colors
    assert_eq!(iteration_to_color(5, 100), iteration_to_color(105, 300));
    assert_eq!(iteration_to_color(7, 50), iteration_to_color(207, 1000));
    assert_eq!(color_builder(42), color_builder(142));
}

#[test]
fn color_exact_values() {
    // count 0: hue ratio 0 lands in sector three of the wheel
    assert_eq!(iteration_to_color(0, 100), Rgb { r: 102, g: 163, b: 255 });
    // count 50: half a turn further
    assert_eq!(iteration_to_color(50, 100), Rgb { r: 255, g: 194, b: 102 });
    // count 5
    assert_eq!(iteration_to_color(5, 100), Rgb { r: 102, g: 117, b: 255 });
}

#[test]
fn ratio_to_color_matches_builder() {
    // the builder reduces the count and scales it into a ratio
    let ratio = Scalar::from_raw(5 * 10_000_000);
    assert_eq!(ratio_to_color(ratio), color_builder(5));
}

#[test]
fn escaped_count_is_never_black_at_small_depths() {
    for count in 0u32..100 {
        let c = iteration_to_color(count, 100);
        assert!(c.r > 0 || c.g > 0 || c.b > 0);
    }
}
