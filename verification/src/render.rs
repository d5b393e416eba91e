//! The render engine.
//!
//! A render request is a fractal variant, a rectangular plane region, a
//! pixel grid size and an iteration budget.  The engine validates the
//! request before any work starts, maps every pixel to its plane point by
//! one shared linear interpolation, evaluates the escape-time kernel per
//! pixel, and assembles a row-major grid.  Per-column evaluation and the
//! keyed assembly are exposed separately so that a caller may compute
//! columns on a bounded worker pool in any completion order: results are
//! placed by their column key, never by arrival order, and the assembled
//! grid provably does not depend on that order.

use crate::colors::{color_spec, iteration_to_color, Rgb};
use crate::complex::Complex;
use crate::kernel::{escape_count, stable, FractalSpec, Julia};
use crate::scalar::{in_raw_range, sat, tdiv, tdiv_wide, Scalar};
use vstd::arithmetic::div_mod::{
    lemma_div_is_ordered, lemma_div_multiples_vanish, lemma_div_pos_is_pos,
    lemma_fundamental_div_mod_converse,
};
use vstd::arithmetic::mul::{lemma_mul_inequality, lemma_mul_is_distributive_add_other_way,
    lemma_mul_nonnegative};
use vstd::prelude::*;

verus! {

/// Why a render request or a column assembly is refused.
#[derive(Clone, Copy, PartialEq, Eq, Structural, Debug)]
pub enum RenderError {
    /// Zero-area bounds, a zero pixel dimension or a zero iteration budget.
    InvalidRequest,
    /// The collected column results do not fill every column exactly once.
    Incomplete,
}

/// Canonical half-width `2.1333` of the fully zoomed-out view; with the
/// half-height below it matches a 16:9 pixel aspect.
pub const X_HALF_RAW: i64 = 2_133_300_000;

/// Canonical half-height `1.2` of the fully zoomed-out view.
pub const Y_HALF_RAW: i64 = 1_200_000_000;

/// The linear pixel-to-plane mapping: pixel `i` of an axis of `n` pixels
/// spanning `[min, min + span]` maps to `min + (i / (n - 1)) * span`.  A
/// single-pixel axis is degenerate and maps to `min`.
pub open spec fn lerp_v(min: int, span: int, i: int, n: int) -> int {
    if n <= 1 {
        min
    } else {
        sat(min + tdiv(i * span, n - 1))
    }
}

/// The plane point of pixel `(x, y)` in a grid of `w` by `h` pixels over
/// the bounds `(x_min, x_max, y_min, y_max)`.
pub open spec fn plane_point(
    b: (int, int, int, int),
    w: int,
    h: int,
    x: int,
    y: int,
) -> (int, int) {
    (lerp_v(b.0, b.1 - b.0, x, w), lerp_v(b.2, b.3 - b.2, y, h))
}

/// The escape count of pixel `(x, y)` of a request.
pub open spec fn pixel_count(
    fs: FractalSpec,
    b: (int, int, int, int),
    w: int,
    h: int,
    depth: int,
    x: int,
    y: int,
) -> nat {
    escape_count(fs, plane_point(b, w, h, x, y), depth as nat)
}

/// The color of pixel `(x, y)` of a request.
pub open spec fn pixel_color(
    fs: FractalSpec,
    b: (int, int, int, int),
    w: int,
    h: int,
    depth: int,
    x: int,
    y: int,
) -> Rgb {
    color_spec(pixel_count(fs, b, w, h, depth, x, y) as int, depth)
}

/// A request the engine accepts: positive-area bounds, at least one pixel
/// on each axis, a positive iteration budget.
pub open spec fn valid_request(b: (int, int, int, int), w: int, h: int, depth: int) -> bool {
    b.0 < b.1 && b.2 < b.3 && w > 0 && h > 0 && depth > 0
}

/// The view of the four bounds scalars.
pub open spec fn bounds_view(
    x_min: Scalar,
    x_max: Scalar,
    y_min: Scalar,
    y_max: Scalar,
) -> (int, int, int, int) {
    (x_min@, x_max@, y_min@, y_max@)
}

/// The shared pixel-to-plane conversion of the render engine and the
/// viewport.
pub fn lerp(min: Scalar, max: Scalar, i: u32, n: u32) -> (r: Scalar)
    ensures
        r@ == lerp_v(min@, max@ - min@, i as int, n as int),
{
    if n <= 1 {
        min
    } else {
        let min_r: i64 = min.raw();
        let max_r: i64 = max.raw();
        let span: i128 = max_r as i128 - min_r as i128;
        assert(-79_228_162_514_264_337_593_543_950_336i128 < (i as i128) * span
            < 79_228_162_514_264_337_593_543_950_336i128) by (nonlinear_arith)
            requires
                0 <= (i as i128) < 0x1_0000_0000i128,
                -0x1_0000_0000_0000_0000i128 < span < 0x1_0000_0000_0000_0000i128,
        ;
        let num: i128 = (i as i128) * span;
        let q: i128 = tdiv_wide(num, (n - 1) as i128);
        Scalar::from_wide(min_r as i128 + q)
    }
}

/// The conversion lands inside its axis bounds.
pub proof fn lemma_lerp_in_bounds(min: int, max: int, i: int, n: int)
    requires
        in_raw_range(min),
        in_raw_range(max),
        min <= max,
        0 <= i < n,
    ensures
        min <= lerp_v(min, max - min, i, n) <= max,
{
    if n > 1 {
        let span = max - min;
        lemma_mul_nonnegative(i, span);
        lemma_div_pos_is_pos(i * span, n - 1);
        lemma_mul_inequality(i, n - 1, span);
        lemma_div_is_ordered(i * span, (n - 1) * span, n - 1);
        lemma_div_multiples_vanish(span, n - 1);
        assert((n - 1) * span == span * (n - 1)) by (nonlinear_arith);
        assert(tdiv(i * span, n - 1) == i * span / (n - 1));
    }
}

/// Escape counts of one pixel column, top to bottom.
pub fn render_column(
    fs: &FractalSpec,
    x_min: Scalar,
    x_max: Scalar,
    y_min: Scalar,
    y_max: Scalar,
    x_range: u32,
    y_range: u32,
    tries: u32,
    x: u32,
) -> (r: Vec<u32>)
    requires
        fs.wf(),
    ensures
        r@.len() == y_range as int,
        forall|y: int|
            0 <= y < y_range as int ==> r@[y] as nat == pixel_count(
                *fs,
                bounds_view(x_min, x_max, y_min, y_max),
                x_range as int,
                y_range as int,
                tries as int,
                x as int,
                y,
            ) && r@[y] <= tries,
{
    let cx: Scalar = lerp(x_min, x_max, x, x_range);
    let mut col: Vec<u32> = Vec::new();
    let mut y: u32 = 0;
    while y < y_range
        invariant
            fs.wf(),
            y <= y_range,
            cx@ == lerp_v(x_min@, x_max@ - x_min@, x as int, x_range as int),
            col@.len() == y as int,
            forall|yy: int|
                0 <= yy < y as int ==> col@[yy] as nat == pixel_count(
                    *fs,
                    bounds_view(x_min, x_max, y_min, y_max),
                    x_range as int,
                    y_range as int,
                    tries as int,
                    x as int,
                    yy,
                ) && col@[yy] <= tries,
        decreases y_range - y,
    {
        let cy: Scalar = lerp(y_min, y_max, y, y_range);
        let count: u32 = stable(fs, Complex::new(cx, cy), tries);
        col.push(count);
        y = y + 1;
    }
    col
}

/// Render a request into a row-major grid of escape counts: entry
/// `y * width + x` is the escape count of pixel `(x, y)`, and every entry
/// lies in `[0, tries]`.  An invalid request is refused before any pixel
/// is evaluated.
pub fn render(
    fs: &FractalSpec,
    x_min: Scalar,
    x_max: Scalar,
    y_min: Scalar,
    y_max: Scalar,
    x_range: u32,
    y_range: u32,
    tries: u32,
) -> (r: Result<Vec<u32>, RenderError>)
    requires
        fs.wf(),
        (x_range as int) * (y_range as int) <= usize::MAX as int,
    ensures
        (r is Ok) <==> valid_request(
            bounds_view(x_min, x_max, y_min, y_max),
            x_range as int,
            y_range as int,
            tries as int,
        ),
        (match r {
            Ok(g) => {
                &&& g@.len() == (x_range as int) * (y_range as int)
                &&& forall|x: int, y: int|
                    0 <= x < x_range as int && 0 <= y < y_range as int ==> g@[y * (
                    x_range as int) + x] as nat == pixel_count(
                        *fs,
                        bounds_view(x_min, x_max, y_min, y_max),
                        x_range as int,
                        y_range as int,
                        tries as int,
                        x,
                        y,
                    ) && g@[y * (x_range as int) + x] <= tries
            },
            Err(e) => e == RenderError::InvalidRequest,
        }),
{
    if !(x_min.lt(x_max) && y_min.lt(y_max) && x_range > 0 && y_range > 0 && tries > 0) {
        return Err(RenderError::InvalidRequest);
    }
    let ghost b = bounds_view(x_min, x_max, y_min, y_max);
    let mut grid: Vec<u32> = Vec::new();
    let mut y: u32 = 0;
    while y < y_range
        invariant
            fs.wf(),
            b == bounds_view(x_min, x_max, y_min, y_max),
            y <= y_range,
            (x_range as int) * (y_range as int) <= usize::MAX as int,
            grid@.len() == (y as int) * (x_range as int),
            forall|xx: int, yy: int|
                0 <= xx < x_range as int && 0 <= yy < y as int ==> grid@[yy * (x_range as int)
                    + xx] as nat == pixel_count(
                    *fs,
                    b,
                    x_range as int,
                    y_range as int,
                    tries as int,
                    xx,
                    yy,
                ) && grid@[yy * (x_range as int) + xx] <= tries,
        decreases y_range - y,
    {
        let mut x: u32 = 0;
        while x < x_range
            invariant
                fs.wf(),
                b == bounds_view(x_min, x_max, y_min, y_max),
                y < y_range,
                x <= x_range,
                (x_range as int) * (y_range as int) <= usize::MAX as int,
                grid@.len() == (y as int) * (x_range as int) + x as int,
                forall|xx: int, yy: int|
                    0 <= xx < x_range as int && 0 <= yy < y as int ==> grid@[yy * (x_range as int)
                        + xx] as nat == pixel_count(
                        *fs,
                        b,
                        x_range as int,
                        y_range as int,
                        tries as int,
                        xx,
                        yy,
                    ) && grid@[yy * (x_range as int) + xx] <= tries,
                forall|xx: int|
                    0 <= xx < x as int ==> grid@[(y as int) * (x_range as int) + xx] as nat
                        == pixel_count(
                        *fs,
                        b,
                        x_range as int,
                        y_range as int,
                        tries as int,
                        xx,
                        y as int,
                    ) && grid@[(y as int) * (x_range as int) + xx] <= tries,
            decreases x_range - x,
        {
            proof {
                // the next slot index stays within the grid capacity
                assert((y as int) * (x_range as int) + (x_range as int) <= (y_range as int) * (
                x_range as int)) by (nonlinear_arith)
                    requires
                        (y as int) < (y_range as int),
                        (x_range as int) > 0,
                ;
            }
            let cx: Scalar = lerp(x_min, x_max, x, x_range);
            let cy: Scalar = lerp(y_min, y_max, y, y_range);
            let count: u32 = stable(fs, Complex::new(cx, cy), tries);
            grid.push(count);
            proof {
                assert(grid@[(y as int) * (x_range as int) + (x as int)] == count);
                assert(count as nat == pixel_count(
                    *fs,
                    b,
                    x_range as int,
                    y_range as int,
                    tries as int,
                    x as int,
                    y as int,
                ));
            }
            proof {
                // the slots of earlier rows lie strictly below the row
                // being filled
                let w = x_range as int;
                assert forall|yy: int| 0 <= yy < y as int implies #[trigger] (yy * w) + w <= (
                y as int) * w by {
                    lemma_mul_inequality(yy + 1, y as int, w);
                    lemma_mul_is_distributive_add_other_way(w, yy, 1);
                };
            }
            x = x + 1;
        }
        proof {
            let w = x_range as int;
            lemma_mul_is_distributive_add_other_way(w, y as int, 1);
            assert forall|yy: int| 0 <= yy <= y as int implies #[trigger] (yy * w) + w <= (
            y as int + 1) * w by {
                lemma_mul_inequality(yy + 1, y as int + 1, w);
                lemma_mul_is_distributive_add_other_way(w, yy, 1);
            };
        }
        y = y + 1;
    }
    proof {
        assert((y_range as int) * (x_range as int) == (x_range as int) * (y_range as int))
            by (nonlinear_arith);
    }
    Ok(grid)
}

/// One keyed column result is in range and one entry per row.
pub open spec fn part_ok(p: (u32, Vec<u32>), w: int, h: int) -> bool {
    (p.0 as int) < w && p.1@.len() == h
}

/// Some result in the collection carries column `x`.
pub open spec fn has_column(ps: Seq<(u32, Vec<u32>)>, x: int) -> bool {
    exists|k: int| 0 <= k < ps.len() && (#[trigger] ps[k].0) as int == x
}

/// A collection of keyed column results fills every column exactly once.
pub open spec fn covers(ps: Seq<(u32, Vec<u32>)>, w: int, h: int) -> bool {
    &&& forall|k: int| 0 <= k < ps.len() ==> part_ok(#[trigger] ps[k], w, h)
    &&& forall|x: int| 0 <= x < w ==> #[trigger] has_column(ps, x)
    &&& forall|k1: int, k2: int| 0 <= k1 < k2 < ps.len() ==> ps[k1].0 != ps[k2].0
}

/// The position of the result that carries column `x`.
pub open spec fn part_for(ps: Seq<(u32, Vec<u32>)>, x: int) -> int {
    choose|k: int| 0 <= k < ps.len() && (ps[k].0 as int) == x
}

/// The delivered data of column `x`.
pub open spec fn column_data(ps: Seq<(u32, Vec<u32>)>, x: int) -> Seq<u32> {
    ps[part_for(ps, x)].1@
}

/// Distinct pixel coordinates occupy distinct row-major slots.
proof fn lemma_row_major_distinct(w: int, y1: int, x1: int, y2: int, x2: int) by (nonlinear_arith)
    requires
        w > 0,
        0 <= x1 < w,
        0 <= x2 < w,
        0 <= y1,
        0 <= y2,
        y1 != y2 || x1 != x2,
    ensures
        y1 * w + x1 != y2 * w + x2,
{
}

/// Assemble keyed column results into a row-major grid.  Each result's
/// entries land in the slots of its own pixel coordinates, so the grid is
/// independent of the order in which results arrive; a collection that
/// does not deliver every column exactly once, complete, is refused.
pub fn assemble(parts: &Vec<(u32, Vec<u32>)>, x_range: u32, y_range: u32) -> (r: Result<
    Vec<u32>,
    RenderError,
>)
    requires
        (x_range as int) * (y_range as int) <= usize::MAX as int,
    ensures
        (r is Ok) <==> covers(parts@, x_range as int, y_range as int),
        (match r {
            Ok(g) => {
                &&& g@.len() == (x_range as int) * (y_range as int)
                &&& forall|x: int, y: int|
                    0 <= x < x_range as int && 0 <= y < y_range as int ==> g@[y * (x_range as int)
                        + x] == column_data(parts@, x)[y]
            },
            Err(e) => e == RenderError::Incomplete,
        }),
{
    let w: usize = x_range as usize;
    let h: usize = y_range as usize;
    proof {
        assert((x_range as int) * (y_range as int) == (w as int) * (h as int));
    }
    let total: usize = w * h;
    let mut grid: Vec<u32> = Vec::new();
    while grid.len() < total
        invariant
            grid@.len() <= total,
        decreases total - grid@.len(),
    {
        grid.push(0);
    }
    let mut filled: Vec<bool> = Vec::new();
    while filled.len() < w
        invariant
            filled@.len() <= w,
            forall|x: int| 0 <= x < filled@.len() ==> !filled@[x],
        decreases w - filled@.len(),
    {
        filled.push(false);
    }
    let mut k: usize = 0;
    while k < parts.len()
        invariant
            k <= parts@.len(),
            w == x_range as int,
            h == y_range as int,
            total == (w as int) * (h as int),
            grid@.len() == total,
            filled@.len() == w,
            forall|kk: int| 0 <= kk < k ==> part_ok(#[trigger] parts@[kk], w as int, h as int),
            forall|k1: int, k2: int| 0 <= k1 < k2 < k as int ==> parts@[k1].0 != parts@[k2].0,
            forall|x: int|
                0 <= x < w ==> ((#[trigger] filled@[x]) <==> exists|kk: int|
                    0 <= kk < k && (#[trigger] parts@[kk].0) as int == x),
            forall|kk: int, y: int|
                0 <= kk < k && 0 <= y < h ==> grid@[y * (w as int) + parts@[kk].0] == parts@[kk].1@[y],
        decreases parts@.len() - k,
    {
        let key: u32 = parts[k].0;
        if key as usize >= w {
            return Err(RenderError::Incomplete);
        }
        if parts[k].1.len() != h {
            return Err(RenderError::Incomplete);
        }
        if filled[key as usize] {
            // a second result for one column: the collection is refused
            return Err(RenderError::Incomplete);
        }
        filled[key as usize] = true;
        let mut y: usize = 0;
        while y < h
            invariant
                y <= h,
                k < parts@.len(),
                w == x_range as int,
                h == y_range as int,
                total == (w as int) * (h as int),
                grid@.len() == total,
                filled@.len() == w,
                key == parts@[k as int].0,
                (key as int) < w as int,
                parts@[k as int].1@.len() == h,
                forall|kk: int| 0 <= kk < k ==> part_ok(#[trigger] parts@[kk], w as int, h as int),
                forall|k1: int, k2: int| 0 <= k1 < k2 < k as int ==> parts@[k1].0 != parts@[k2].0,
                forall|kk: int| 0 <= kk < k ==> (#[trigger] parts@[kk].0) != key,
                forall|x: int|
                    0 <= x < w ==> ((#[trigger] filled@[x]) <==> (x == key as int || exists|kk: int|
                        0 <= kk < k && (#[trigger] parts@[kk].0) as int == x)),
                forall|kk: int, yy: int|
                    0 <= kk < k && 0 <= yy < h ==> grid@[yy * (w as int) + parts@[kk].0]
                        == parts@[kk].1@[yy],
                forall|yy: int|
                    0 <= yy < y ==> grid@[yy * (w as int) + key] == parts@[k as int].1@[yy],
            decreases h - y,
        {
            proof {
                assert((y as int) * (w as int) + (key as int) < (h as int) * (w as int))
                    by (nonlinear_arith)
                    requires
                        0 <= (y as int) < (h as int),
                        0 <= (key as int) < (w as int),
                ;
                assert((w as int) * (h as int) == (h as int) * (w as int)) by (nonlinear_arith);
            }
            let idx: usize = y * w + key as usize;
            grid[idx] = parts[k].1[y];
            proof {
                let wi = w as int;
                let hi = h as int;
                assert forall|kk: int, yy: int| #![trigger parts@[kk].1@[yy]]
                    0 <= kk < k && 0 <= yy < hi implies (yy * wi + parts@[kk].0) != (y as int) * wi
                    + key && 0 <= yy * wi + parts@[kk].0 < total by {
                    lemma_row_major_distinct(
                        wi,
                        yy,
                        parts@[kk].0 as int,
                        y as int,
                        key as int,
                    );
                    assert(0 <= yy * wi && yy * wi + (parts@[kk].0 as int) < hi * wi)
                        by (nonlinear_arith)
                        requires
                            0 <= yy < hi,
                            0 <= (parts@[kk].0 as int) < wi,
                    ;
                    assert(wi * hi == hi * wi) by (nonlinear_arith);
                };
                assert forall|yy: int| 0 <= yy < y implies #[trigger] (yy * wi) + key != (
                y as int) * wi + key && 0 <= yy * wi + key < total by {
                    lemma_row_major_distinct(wi, yy, key as int, y as int, key as int);
                    assert(0 <= yy * wi && yy * wi + (key as int) < hi * wi) by (nonlinear_arith)
                        requires
                            0 <= yy < hi,
                            0 <= (key as int) < wi,
                    ;
                    assert(wi * hi == hi * wi) by (nonlinear_arith);
                };
            }
            y = y + 1;
        }
        k = k + 1;
    }
    let mut x: usize = 0;
    while x < w
        invariant
            x <= w,
            w == x_range as int,
            filled@.len() == w,
            forall|xx: int|
                0 <= xx < w ==> ((#[trigger] filled@[xx]) <==> exists|kk: int|
                    0 <= kk < parts@.len() && (#[trigger] parts@[kk].0) as int == xx),
            forall|xx: int| 0 <= xx < x ==> filled@[xx],
        decreases w - x,
    {
        if !filled[x] {
            // a column was never delivered
            proof {
                assert(!has_column(parts@, x as int));
            }
            return Err(RenderError::Incomplete);
        }
        x = x + 1;
    }
    proof {
        let wi = x_range as int;
        let hi = y_range as int;
        assert forall|xx: int| 0 <= xx < wi implies #[trigger] has_column(parts@, xx) by {
            assert(filled@[xx]);
        };
        assert(covers(parts@, wi, hi));
        assert forall|x: int, y: int| 0 <= x < wi && 0 <= y < hi implies grid@[y * wi + x]
            == column_data(parts@, x)[y] by {
            assert(has_column(parts@, x));
            let kk = part_for(parts@, x);
            assert(0 <= kk < parts@.len() && (parts@[kk].0 as int) == x);
            assert(grid@[y * wi + parts@[kk].0] == parts@[kk].1@[y]);
        };
    }
    Ok(grid)
}

/// Pixel `(x, y)` is within a positive grid, so its row-major slot is in
/// range.
proof fn lemma_row_major_in_range(w: int, h: int, x: int, y: int) by (nonlinear_arith)
    requires
        w > 0,
        h > 0,
        0 <= x < w,
        0 <= y < h,
    ensures
        0 <= y * w + x < w * h,
{
}

/// Map a grid of escape counts to colors, entry by entry.
pub fn colorize(grid: &Vec<u32>, depth: u32) -> (r: Vec<Rgb>)
    ensures
        r@.len() == grid@.len(),
        forall|idx: int|
            0 <= idx < grid@.len() ==> r@[idx] == color_spec(grid@[idx] as int, depth as int),
{
    let mut out: Vec<Rgb> = Vec::new();
    let mut i: usize = 0;
    while i < grid.len()
        invariant
            i <= grid@.len(),
            out@.len() == i as int,
            forall|idx: int|
                0 <= idx < i as int ==> out@[idx] == color_spec(grid@[idx] as int, depth as int),
        decreases grid@.len() - i,
    {
        out.push(iteration_to_color(grid[i], depth));
        i = i + 1;
    }
    out
}

/// Pack colors into a flat buffer of RGB8 byte triples, in order.
pub fn rgb_bytes(pixels: &Vec<Rgb>) -> (r: Vec<u8>)
    requires
        3 * pixels@.len() <= usize::MAX as int,
    ensures
        r@.len() == 3 * pixels@.len(),
        forall|idx: int|
            0 <= idx < pixels@.len() ==> r@[3 * idx] == pixels@[idx].r && r@[3 * idx + 1]
                == pixels@[idx].g && r@[3 * idx + 2] == pixels@[idx].b,
{
    let mut out: Vec<u8> = Vec::new();
    let mut i: usize = 0;
    while i < pixels.len()
        invariant
            i <= pixels@.len(),
            3 * pixels@.len() <= usize::MAX as int,
            out@.len() == 3 * i as int,
            forall|idx: int|
                0 <= idx < i as int ==> out@[3 * idx] == pixels@[idx].r && out@[3 * idx + 1]
                    == pixels@[idx].g && out@[3 * idx + 2] == pixels@[idx].b,
        decreases pixels@.len() - i,
    {
        let c: Rgb = pixels[i];
        out.push(c.r);
        out.push(c.g);
        out.push(c.b);
        i = i + 1;
    }
    out
}

/// Render a request into a row-major grid of pixel colors.
pub fn render_colored(
    fs: &FractalSpec,
    x_min: Scalar,
    x_max: Scalar,
    y_min: Scalar,
    y_max: Scalar,
    x_range: u32,
    y_range: u32,
    tries: u32,
) -> (r: Result<Vec<Rgb>, RenderError>)
    requires
        fs.wf(),
        (x_range as int) * (y_range as int) <= usize::MAX as int,
    ensures
        (r is Ok) <==> valid_request(
            bounds_view(x_min, x_max, y_min, y_max),
            x_range as int,
            y_range as int,
            tries as int,
        ),
        (match r {
            Ok(g) => {
                &&& g@.len() == (x_range as int) * (y_range as int)
                &&& forall|x: int, y: int|
                    0 <= x < x_range as int && 0 <= y < y_range as int ==> g@[y * (x_range as int)
                        + x] == pixel_color(
                        *fs,
                        bounds_view(x_min, x_max, y_min, y_max),
                        x_range as int,
                        y_range as int,
                        tries as int,
                        x,
                        y,
                    )
            },
            Err(e) => e == RenderError::InvalidRequest,
        }),
{
    match render(fs, x_min, x_max, y_min, y_max, x_range, y_range, tries) {
        Ok(grid) => {
            let colored: Vec<Rgb> = colorize(&grid, tries);
            proof {
                let wi = x_range as int;
                let hi = y_range as int;
                assert forall|x: int, y: int| 0 <= x < wi && 0 <= y < hi implies colored@[y * wi
                    + x] == pixel_color(
                    *fs,
                    bounds_view(x_min, x_max, y_min, y_max),
                    wi,
                    hi,
                    tries as int,
                    x,
                    y,
                ) by {
                    lemma_row_major_in_range(wi, hi, x, y);
                };
            }
            Ok(colored)
        },
        Err(e) => Err(e),
    }
}

/// The three bytes of pixel `(x, y)` in a packed buffer hold its color.
pub open spec fn pixel_bytes_ok(
    bytes: Seq<u8>,
    fs: FractalSpec,
    b: (int, int, int, int),
    w: int,
    h: int,
    depth: int,
    x: int,
    y: int,
) -> bool {
    let c = pixel_color(fs, b, w, h, depth, x, y);
    &&& bytes[3 * (y * w + x)] == c.r
    &&& bytes[3 * (y * w + x) + 1] == c.g
    &&& bytes[3 * (y * w + x) + 2] == c.b
}

/// Render a request into a packed row-major buffer of RGB8 byte triples,
/// the raw pixel layout an image sink accepts.
pub fn raw_render(
    fs: &FractalSpec,
    x_min: Scalar,
    x_max: Scalar,
    y_min: Scalar,
    y_max: Scalar,
    x_range: u32,
    y_range: u32,
    tries: u32,
) -> (r: Result<Vec<u8>, RenderError>)
    requires
        fs.wf(),
        3 * (x_range as int) * (y_range as int) <= usize::MAX as int,
    ensures
        (r is Ok) <==> valid_request(
            bounds_view(x_min, x_max, y_min, y_max),
            x_range as int,
            y_range as int,
            tries as int,
        ),
        (match r {
            Ok(bytes) => {
                &&& bytes@.len() == 3 * (x_range as int) * (y_range as int)
                &&& forall|x: int, y: int|
                    0 <= x < x_range as int && 0 <= y < y_range as int ==> #[trigger] pixel_bytes_ok(
                        bytes@,
                        *fs,
                        bounds_view(x_min, x_max, y_min, y_max),
                        x_range as int,
                        y_range as int,
                        tries as int,
                        x,
                        y,
                    )
            },
            Err(e) => e == RenderError::InvalidRequest,
        }),
{
    proof {
        assert((x_range as int) * (y_range as int) >= 0) by (nonlinear_arith);
        assert(3 * (x_range as int) * (y_range as int) == 3 * ((x_range as int) * (
        y_range as int))) by (nonlinear_arith);
    }
    match render_colored(fs, x_min, x_max, y_min, y_max, x_range, y_range, tries) {
        Ok(pixels) => {
            let bytes: Vec<u8> = rgb_bytes(&pixels);
            proof {
                let wi = x_range as int;
                let hi = y_range as int;
                assert forall|x: int, y: int| 0 <= x < wi && 0 <= y < hi implies #[trigger] pixel_bytes_ok(
                    bytes@,
                    *fs,
                    bounds_view(x_min, x_max, y_min, y_max),
                    wi,
                    hi,
                    tries as int,
                    x,
                    y,
                ) by {
                    lemma_row_major_in_range(wi, hi, x, y);
                };
            }
            Ok(bytes)
        },
        Err(e) => Err(e),
    }
}

/// The canonical fully zoomed-out bounds.
pub open spec fn canonical_bounds() -> (int, int, int, int) {
    (-(X_HALF_RAW as int), X_HALF_RAW as int, -(Y_HALF_RAW as int), Y_HALF_RAW as int)
}

/// The canonical bounds as scalars: `[-2.1333, 2.1333] x [-1.2, 1.2]`.
fn canonical_scalars() -> (r: (Scalar, Scalar, Scalar, Scalar))
    ensures
        bounds_view(r.0, r.1, r.2, r.3) == canonical_bounds(),
{
    let xh: Scalar = Scalar::from_raw(X_HALF_RAW);
    let yh: Scalar = Scalar::from_raw(Y_HALF_RAW);
    (xh.neg(), xh, yh.neg(), yh)
}

/// The raw RGB8 pixels of a quadratic Julia render over a plane region.
pub fn raw_julia(
    julia: Julia,
    x_min: Scalar,
    x_max: Scalar,
    y_min: Scalar,
    y_max: Scalar,
    x_range: u32,
    y_range: u32,
    tries: u32,
) -> (r: Result<Vec<u8>, RenderError>)
    requires
        3 * (x_range as int) * (y_range as int) <= usize::MAX as int,
    ensures
        (r is Ok) <==> valid_request(
            bounds_view(x_min, x_max, y_min, y_max),
            x_range as int,
            y_range as int,
            tries as int,
        ),
        (match r {
            Ok(bytes) => {
                &&& bytes@.len() == 3 * (x_range as int) * (y_range as int)
                &&& forall|x: int, y: int|
                    0 <= x < x_range as int && 0 <= y < y_range as int ==> #[trigger] pixel_bytes_ok(
                        bytes@,
                        FractalSpec::Julia { constant: julia, power: 2 },
                        bounds_view(x_min, x_max, y_min, y_max),
                        x_range as int,
                        y_range as int,
                        tries as int,
                        x,
                        y,
                    )
            },
            Err(e) => e == RenderError::InvalidRequest,
        }),
{
    let fs = FractalSpec::Julia { constant: julia, power: 2 };
    raw_render(&fs, x_min, x_max, y_min, y_max, x_range, y_range, tries)
}

/// The raw RGB8 pixels of a quadratic Mandelbrot render over a plane
/// region.
pub fn fine_mandelbrot(
    x_min: Scalar,
    x_max: Scalar,
    y_min: Scalar,
    y_max: Scalar,
    x_range: u32,
    y_range: u32,
    tries: u32,
) -> (r: Result<Vec<u8>, RenderError>)
    requires
        3 * (x_range as int) * (y_range as int) <= usize::MAX as int,
    ensures
        (r is Ok) <==> valid_request(
            bounds_view(x_min, x_max, y_min, y_max),
            x_range as int,
            y_range as int,
            tries as int,
        ),
        (match r {
            Ok(bytes) => {
                &&& bytes@.len() == 3 * (x_range as int) * (y_range as int)
                &&& forall|x: int, y: int|
                    0 <= x < x_range as int && 0 <= y < y_range as int ==> #[trigger] pixel_bytes_ok(
                        bytes@,
                        FractalSpec::Mandelbrot { power: 2 },
                        bounds_view(x_min, x_max, y_min, y_max),
                        x_range as int,
                        y_range as int,
                        tries as int,
                        x,
                        y,
                    )
            },
            Err(e) => e == RenderError::InvalidRequest,
        }),
{
    let fs = FractalSpec::Mandelbrot { power: 2 };
    raw_render(&fs, x_min, x_max, y_min, y_max, x_range, y_range, tries)
}

/// The raw RGB8 pixels of a Julia render at the canonical fully
/// zoomed-out bounds, on a 16:9 grid of `16 * scale` by `9 * scale`
/// pixels with the constant `(jx, jy)`.
pub fn raw_single_julia(jx: Scalar, jy: Scalar, scale: u32, tries: u32) -> (r: Result<
    Vec<u8>,
    RenderError,
>)
    requires
        scale <= 0x0fff_ffff,
        432 * (scale as int) * (scale as int) <= usize::MAX as int,
    ensures
        (r is Ok) <==> (scale >= 1 && tries >= 1),
        (match r {
            Ok(bytes) => {
                &&& bytes@.len() == 3 * (16 * scale as int) * (9 * scale as int)
                &&& forall|x: int, y: int|
                    0 <= x < 16 * scale as int && 0 <= y < 9 * scale as int
                        ==> #[trigger] pixel_bytes_ok(
                        bytes@,
                        FractalSpec::Julia { constant: Complex::spec_new(jx@, jy@), power: 2 },
                        canonical_bounds(),
                        16 * scale as int,
                        9 * scale as int,
                        tries as int,
                        x,
                        y,
                    )
            },
            Err(e) => e == RenderError::InvalidRequest,
        }),
{
    let jul: Julia = Complex::new(jx, jy);
    let (x0, x1, y0, y1): (Scalar, Scalar, Scalar, Scalar) = canonical_scalars();
    proof {
        assert(3 * ((16 * scale) as int) * ((9 * scale) as int) == 432 * (scale as int) * (
        scale as int)) by (nonlinear_arith);
    }
    raw_julia(jul, x0, x1, y0, y1, 16 * scale, 9 * scale, tries)
}

/// The raw RGB8 pixels of a Mandelbrot render at the canonical fully
/// zoomed-out bounds, on a 16:9 grid of `16 * scale` by `9 * scale`
/// pixels.
pub fn main_mandelbrot(scale: u32, tries: u32) -> (r: Result<Vec<u8>, RenderError>)
    requires
        scale <= 0x0fff_ffff,
        432 * (scale as int) * (scale as int) <= usize::MAX as int,
    ensures
        (r is Ok) <==> (scale >= 1 && tries >= 1),
        (match r {
            Ok(bytes) => {
                &&& bytes@.len() == 3 * (16 * scale as int) * (9 * scale as int)
                &&& forall|x: int, y: int|
                    0 <= x < 16 * scale as int && 0 <= y < 9 * scale as int
                        ==> #[trigger] pixel_bytes_ok(
                        bytes@,
                        FractalSpec::Mandelbrot { power: 2 },
                        canonical_bounds(),
                        16 * scale as int,
                        9 * scale as int,
                        tries as int,
                        x,
                        y,
                    )
            },
            Err(e) => e == RenderError::InvalidRequest,
        }),
{
    let (x0, x1, y0, y1): (Scalar, Scalar, Scalar, Scalar) = canonical_scalars();
    proof {
        assert(3 * ((16 * scale) as int) * ((9 * scale) as int) == 432 * (scale as int) * (
        scale as int)) by (nonlinear_arith);
    }
    fine_mandelbrot(x0, x1, y0, y1, 16 * scale, 9 * scale, tries)
}

/// A complete collection whose results carry the per-pixel escape counts
/// of a request assembles into exactly the grid that `render` produces
/// for that request, whatever order the results arrived in.
pub proof fn lemma_assembly_renders_request(
    ps: Seq<(u32, Vec<u32>)>,
    fs: FractalSpec,
    b: (int, int, int, int),
    w: int,
    h: int,
    depth: int,
)
    requires
        covers(ps, w, h),
        forall|k: int, y: int| #![trigger ps[k].1@[y]]
            0 <= k < ps.len() && 0 <= y < h ==> ps[k].1@[y] as nat == pixel_count(
                fs,
                b,
                w,
                h,
                depth,
                ps[k].0 as int,
                y,
            ),
    ensures
        forall|x: int, y: int|
            0 <= x < w && 0 <= y < h ==> #[trigger] column_data(ps, x)[y] as nat == pixel_count(
                fs,
                b,
                w,
                h,
                depth,
                x,
                y,
            ),
{
    assert forall|x: int, y: int| 0 <= x < w && 0 <= y < h implies #[trigger] column_data(
        ps,
        x,
    )[y] as nat == pixel_count(fs, b, w, h, depth, x, y) by {
        assert(has_column(ps, x));
        let k = part_for(ps, x);
        assert(0 <= k < ps.len() && (ps[k].0 as int) == x);
        assert(ps[k].1@[y] as nat == pixel_count(fs, b, w, h, depth, ps[k].0 as int, y));
    };
}

/// Final grid contents do not depend on the order in which column results
/// arrive: two complete collections of the same results assemble to the
/// same columns.
pub proof fn lemma_assembly_order_independent(
    ps1: Seq<(u32, Vec<u32>)>,
    ps2: Seq<(u32, Vec<u32>)>,
    w: int,
    h: int,
)
    requires
        covers(ps1, w, h),
        covers(ps2, w, h),
        ps1.to_multiset() == ps2.to_multiset(),
    ensures
        forall|x: int| 0 <= x < w ==> column_data(ps1, x) == column_data(ps2, x),
{
    ps1.to_multiset_ensures();
    ps2.to_multiset_ensures();
    assert forall|x: int| 0 <= x < w implies column_data(ps1, x) == column_data(ps2, x) by {
        assert(has_column(ps1, x));
        assert(has_column(ps2, x));
        let k1 = part_for(ps1, x);
        assert(0 <= k1 < ps1.len() && (ps1[k1].0 as int) == x);
        let e = ps1[k1];
        assert(ps1.contains(e));
        assert(ps1.to_multiset().count(e) > 0);
        assert(ps2.to_multiset().count(e) > 0);
        assert(ps2.contains(e));
        let k = choose|k: int| 0 <= k < ps2.len() && ps2[k] == e;
        let k2 = part_for(ps2, x);
        assert(0 <= k2 < ps2.len() && (ps2[k2].0 as int) == x);
        if k2 != k {
            assert(ps2[k2].0 == ps2[k].0);
        }
        assert(ps2[k2] == e);
    };
}

} // verus!
