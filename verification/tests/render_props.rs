use fractal_core::complex::Complex;
use fractal_core::kernel::FractalSpec;
use fractal_core::render::{
    assemble, colorize, main_mandelbrot, raw_julia, raw_single_julia, render, render_colored,
    render_column, rgb_bytes, RenderError,
};
use fractal_core::scalar::Scalar;

fn units(n: i32) -> Scalar {
    Scalar::from_units(n)
}

fn small_spec() -> FractalSpec {
    FractalSpec::Julia {
        constant: Complex::new(Scalar::from_raw(250_000_000), units(0)),
        power: 2,
    }
}

#[test]
fn render_grid_size_and_range() {
    let fs = small_spec();
    let grid = render(&fs, units(-2), units(2), units(-1), units(1), 8, 5, 7).unwrap();
    assert_eq!(grid.len(), 8 * 5);
    for count in &grid {
        assert!(*count <= 7);
    }
}

#[test]
fn render_is_deterministic() {
    let fs = small_spec();
    let one = render(&fs, units(-2), units(2), units(-1), units(1), 6, 4, 9).unwrap();
    let two = render(&fs, units(-2), units(2), units(-1), units(1), 6, 4, 9).unwrap();
    assert_eq!(one, two);

    let b1 = raw_single_julia(Scalar::from_raw(250_000_000), units(0), 2, 10).unwrap();
    let b2 = raw_single_julia(Scalar::from_raw(250_000_000), units(0), 2, 10).unwrap();
    assert_eq!(b1, b2);
}

#[test]
fn render_rejects_invalid_requests() {
    let fs = small_spec();
    let bad_bounds = render(&fs, units(2), units(-2), units(-1), units(1), 4, 4, 5);
    assert_eq!(bad_bounds, Err(RenderError::InvalidRequest));
    let zero_width = render(&fs, units(-2), units(2), units(-1), units(1), 0, 4, 5);
    assert_eq!(zero_width, Err(RenderError::InvalidRequest));
    let zero_height = render(&fs, units(-2), units(2), units(-1), units(1), 4, 0, 5);
    assert_eq!(zero_height, Err(RenderError::InvalidRequest));
    let zero_depth = render(&fs, units(-2), units(2), units(-1), units(1), 4, 4, 0);
    assert_eq!(zero_depth, Err(RenderError::InvalidRequest));
}

#[test]
fn assembled_columns_match_render_in_any_order() {
    let fs = small_spec();
    let w: u32 = 7;
    let h: u32 = 4;
    let depth: u32 = 6;
    let grid = render(&fs, units(-2), units(2), units(-1), units(1), w, h, depth).unwrap();

    // deliver the columns in reversed completion order
    let mut parts: Vec<(u32, Vec<u32>)> = Vec::new();
    for x in (0..w).rev() {
        let col = render_column(&fs, units(-2), units(2), units(-1), units(1), w, h, depth, x);
        parts.push((x, col));
    }
    let assembled = assemble(&parts, w, h).unwrap();
    assert_eq!(assembled, grid);

    // and in an interleaved order
    let mut shuffled: Vec<(u32, Vec<u32>)> = Vec::new();
    for x in [3u32, 0, 5, 1, 6, 2, 4] {
        let col = render_column(&fs, units(-2), units(2), units(-1), units(1), w, h, depth, x);
        shuffled.push((x, col));
    }
    let assembled2 = assemble(&shuffled, w, h).unwrap();
    assert_eq!(assembled2, grid);
}

#[test]
fn assemble_rejects_missing_and_duplicate_columns() {
    let fs = small_spec();
    let w: u32 = 3;
    let h: u32 = 2;
    let col0 = render_column(&fs, units(-1), units(1), units(-1), units(1), w, h, 4, 0);
    let col1 = render_column(&fs, units(-1), units(1), units(-1), units(1), w, h, 4, 1);

    let missing: Vec<(u32, Vec<u32>)> = vec![(0, col0.clone()), (1, col1.clone())];
    assert_eq!(assemble(&missing, w, h), Err(RenderError::Incomplete));

    let duplicated: Vec<(u32, Vec<u32>)> =
        vec![(0, col0.clone()), (1, col1.clone()), (1, col1.clone())];
    assert_eq!(assemble(&duplicated, w, h), Err(RenderError::Incomplete));
}

#[test]
fn colored_render_matches_packed_bytes() {
    let fs = small_spec();
    let grid = render(&fs, units(-2), units(2), units(-1), units(1), 5, 3, 8).unwrap();
    let pixels = colorize(&grid, 8);
    let bytes = rgb_bytes(&pixels);
    assert_eq!(bytes.len(), 3 * pixels.len());
    let colored = render_colored(&fs, units(-2), units(2), units(-1), units(1), 5, 3, 8).unwrap();
    assert_eq!(colored, pixels);
    for (i, px) in pixels.iter().enumerate() {
        assert_eq!(bytes[3 * i], px.r);
        assert_eq!(bytes[3 * i + 1], px.g);
        assert_eq!(bytes[3 * i + 2], px.b);
    }
}

#[test]
fn raw_julia_test() {
    let raw = raw_single_julia(Scalar::from_raw(250_000_000), units(0), 60, 50).unwrap();
    assert_eq!(raw.is_empty(), false);
}

#[test]
fn raw_buffers_have_pixel_layout() {
    let bytes = main_mandelbrot(1, 12).unwrap();
    assert_eq!(bytes.len(), 3 * 16 * 9);

    let jul = Complex::new(Scalar::from_raw(250_000_000), units(0));
    let jb = raw_julia(jul, units(-2), units(2), units(-1), units(1), 4, 3, 10).unwrap();
    assert_eq!(jb.len(), 3 * 4 * 3);
}

#[test]
fn zero_scale_is_invalid() {
    assert_eq!(main_mandelbrot(0, 10), Err(RenderError::InvalidRequest));
    assert_eq!(
        raw_single_julia(units(0), units(0), 1, 0),
        Err(RenderError::InvalidRequest)
    );
}
