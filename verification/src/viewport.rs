//! The viewport / zoom state machine.
//!
//! A [`PlotWindow`] is an immutable snapshot of pixel dimensions, plane
//! bounds with their cached spans, and the active Julia constant.  Every
//! transition — zooming on a pixel point, or picking a new Julia constant
//! from one — returns a new, independent snapshot and never mutates the
//! old one.  The pixel-to-plane conversion is the same linear mapping the
//! render engine uses, shared through one function, so what the viewport
//! reports and what gets rendered cannot drift apart.
//!
//! The zoom convention: a factor below one zooms in and the new bounds
//! are clamped to stay fully contained in the old ones; a factor of one
//! or more grows the view outward with no containment clamp.

use crate::complex::Complex;
use crate::kernel::{FractalSpec, Julia};
use crate::render::{
    canonical_bounds, fine_mandelbrot, lemma_lerp_in_bounds, lerp, lerp_v, pixel_bytes_ok,
    raw_julia, valid_request, RenderError, X_HALF_RAW, Y_HALF_RAW,
};
use crate::scalar::{in_raw_range, sat, tdiv, Scalar, MAX_RAW, SCALE};
use vstd::arithmetic::div_mod::{lemma_div_by_self, lemma_div_is_ordered, lemma_div_pos_is_pos};
use vstd::arithmetic::mul::lemma_mul_nonnegative;
use vstd::prelude::*;

verus! {

/// Why a zoom transition cannot produce a new viewport.
#[derive(Clone, Copy, PartialEq, Eq, Structural, Debug)]
pub enum ViewportError {
    /// Zooming in shrank a span below one raw unit of resolution.
    SpanUnderflow,
    /// Zooming out pushed a bound past the representable raw range.
    SpanOverflow,
}

/// An immutable viewport snapshot: pixel dimensions, plane bounds with
/// their cached spans, and the active Julia constant.
#[derive(Clone, Copy, Debug)]
pub struct PlotWindow {
    pub pixel_dim: (u32, u32),
    pub x_min: Scalar,
    pub x_max: Scalar,
    pub x_dif: Scalar,
    pub y_min: Scalar,
    pub y_max: Scalar,
    pub y_dif: Scalar,
    pub julia: Julia,
}

/// The clamped axis transition of a zoom-in: center the new span on the
/// converted point, then shift it back inside the old bounds wherever it
/// undershoots or overshoots, preserving the span.
pub open spec fn clamp_axis(min: int, max: int, center: int, nd: int) -> (int, int) {
    let lo = center - nd / 2;
    let hi = lo + nd;
    if lo < min {
        (min, min + nd)
    } else if hi > max {
        (max - nd, max)
    } else {
        (lo, hi)
    }
}

/// The unclamped axis transition of a zoom-out: center the new span on
/// the converted point.
pub open spec fn free_axis(center: int, nd: int) -> (int, int) {
    (center - nd / 2, center - nd / 2 + nd)
}

impl PlotWindow {
    /// Well-formed: at least one pixel on each axis, positive-area
    /// bounds, and cached spans that are exactly the bound differences.
    pub open spec fn wf(self) -> bool {
        &&& self.pixel_dim.0 >= 1
        &&& self.pixel_dim.1 >= 1
        &&& self.x_min@ < self.x_max@
        &&& self.y_min@ < self.y_max@
        &&& self.x_dif@ == self.x_max@ - self.x_min@
        &&& self.y_dif@ == self.y_max@ - self.y_min@
    }

    /// The plane point a pixel point converts to, under the shared
    /// linear mapping.
    pub open spec fn plane_of(self, p: (u32, u32)) -> (int, int) {
        (
            lerp_v(self.x_min@, self.x_max@ - self.x_min@, p.0 as int, self.pixel_dim.0 as int),
            lerp_v(self.y_min@, self.y_max@ - self.y_min@, p.1 as int, self.pixel_dim.1 as int),
        )
    }

    /// The new x span of a zoom: the old span scaled by the factor.
    pub open spec fn zoom_span_x(self, factor: int) -> int {
        sat(tdiv(self.x_dif@ * factor, SCALE as int))
    }

    /// The new y span of a zoom.
    pub open spec fn zoom_span_y(self, factor: int) -> int {
        sat(tdiv(self.y_dif@ * factor, SCALE as int))
    }

    /// A zoom-in shrank a span below one raw unit.
    pub open spec fn zoom_underflows(self, factor: int) -> bool {
        factor < SCALE as int && (self.zoom_span_x(factor) == 0 || self.zoom_span_y(factor) == 0)
    }

    /// A zoom-out pushed a bound out of the representable range.
    pub open spec fn zoom_overflows(self, p: (u32, u32), factor: int) -> bool {
        let c = self.plane_of(p);
        let fx = free_axis(c.0, self.zoom_span_x(factor));
        let fy = free_axis(c.1, self.zoom_span_y(factor));
        factor >= SCALE as int && !(in_raw_range(fx.0) && in_raw_range(fx.1) && in_raw_range(fy.0)
            && in_raw_range(fy.1))
    }

    /// The canonical fully zoomed-out viewport, with the default Julia
    /// constant `0.25 + 0i`.
    pub fn new(pixel_dim: (u32, u32)) -> (r: PlotWindow)
        requires
            pixel_dim.0 >= 1,
            pixel_dim.1 >= 1,
        ensures
            r.wf(),
            r.pixel_dim == pixel_dim,
            (r.x_min@, r.x_max@, r.y_min@, r.y_max@) == canonical_bounds(),
            r.julia@ == (250_000_000int, 0int),
    {
        let xh: Scalar = Scalar::from_raw(X_HALF_RAW);
        let yh: Scalar = Scalar::from_raw(Y_HALF_RAW);
        let x_min: Scalar = xh.neg();
        let y_min: Scalar = yh.neg();
        PlotWindow {
            pixel_dim,
            x_min,
            x_max: xh,
            x_dif: xh.sub(x_min),
            y_min,
            y_max: yh,
            y_dif: yh.sub(y_min),
            julia: Complex::new(Scalar::from_raw(250_000_000), Scalar::from_raw(0)),
        }
    }

    /// The plane bounds `(x_min, x_max, y_min, y_max)`.
    pub fn bounds(&self) -> (r: (Scalar, Scalar, Scalar, Scalar))
        ensures
            r == (self.x_min, self.x_max, self.y_min, self.y_max),
    {
        (self.x_min, self.x_max, self.y_min, self.y_max)
    }

    /// A new viewport with the same bounds whose Julia constant is the
    /// plane point under the given pixel point.
    pub fn set_julia(&self, p: (u32, u32)) -> (r: PlotWindow)
        requires
            self.wf(),
            p.0 < self.pixel_dim.0,
            p.1 < self.pixel_dim.1,
        ensures
            r.wf(),
            r == (PlotWindow { julia: r.julia, ..*self }),
            r.julia@ == self.plane_of(p),
    {
        let jx: Scalar = lerp(self.x_min, self.x_max, p.0, self.pixel_dim.0);
        let jy: Scalar = lerp(self.y_min, self.y_max, p.1, self.pixel_dim.1);
        PlotWindow { julia: Complex::new(jx, jy), ..*self }
    }

    /// Zoom on a pixel point.  The new spans are the old spans scaled by
    /// the factor; the new bounds center on the converted plane point.
    /// Zooming in (factor below one) clamps the new bounds to stay fully
    /// contained in this viewport's bounds, on each axis independently;
    /// zooming out applies no containment clamp.  The transition fails
    /// exactly when a zoom-in span collapses to zero or a zoom-out bound
    /// leaves the representable range.
    pub fn zoom(&self, p: (u32, u32), factor: Scalar) -> (r: Result<PlotWindow, ViewportError>)
        requires
            self.wf(),
            p.0 < self.pixel_dim.0,
            p.1 < self.pixel_dim.1,
            factor@ > 0,
        ensures
            (r is Err) <==> (self.zoom_underflows(factor@) || self.zoom_overflows(p, factor@)),
            (match r {
                Ok(w) => {
                    &&& w.wf()
                    &&& w.pixel_dim == self.pixel_dim
                    &&& w.julia == self.julia
                    &&& w.x_dif@ == self.zoom_span_x(factor@)
                    &&& w.y_dif@ == self.zoom_span_y(factor@)
                    &&& factor@ < SCALE as int ==> (w.x_min@, w.x_max@) == clamp_axis(
                        self.x_min@,
                        self.x_max@,
                        self.plane_of(p).0,
                        self.zoom_span_x(factor@),
                    ) && (w.y_min@, w.y_max@) == clamp_axis(
                        self.y_min@,
                        self.y_max@,
                        self.plane_of(p).1,
                        self.zoom_span_y(factor@),
                    )
                    &&& factor@ >= SCALE as int ==> (w.x_min@, w.x_max@) == free_axis(
                        self.plane_of(p).0,
                        self.zoom_span_x(factor@),
                    ) && (w.y_min@, w.y_max@) == free_axis(
                        self.plane_of(p).1,
                        self.zoom_span_y(factor@),
                    )
                    &&& factor@ < SCALE as int ==> self.x_min@ <= w.x_min@ && w.x_max@
                        <= self.x_max@ && self.y_min@ <= w.y_min@ && w.y_max@ <= self.y_max@
                },
                Err(e) => {
                    &&& self.zoom_underflows(factor@) ==> e == ViewportError::SpanUnderflow
                    &&& self.zoom_overflows(p, factor@) ==> e == ViewportError::SpanOverflow
                },
            }),
    {
        let xm: i64 = self.x_min.raw();
        let xx: i64 = self.x_max.raw();
        let ym: i64 = self.y_min.raw();
        let yx: i64 = self.y_max.raw();
        let xd: i64 = self.x_dif.raw();
        let yd: i64 = self.y_dif.raw();
        let cx: Scalar = lerp(self.x_min, self.x_max, p.0, self.pixel_dim.0);
        let cy: Scalar = lerp(self.y_min, self.y_max, p.1, self.pixel_dim.1);
        proof {
            lemma_lerp_in_bounds(xm as int, xx as int, p.0 as int, self.pixel_dim.0 as int);
            lemma_lerp_in_bounds(ym as int, yx as int, p.1 as int, self.pixel_dim.1 as int);
        }
        let ndx: Scalar = self.x_dif.mul(factor);
        let ndy: Scalar = self.y_dif.mul(factor);
        if factor.lt(Scalar::one()) {
            proof {
                lemma_span_shrinks(self.x_dif@, factor@);
                lemma_span_shrinks(self.y_dif@, factor@);
            }
            if ndx.raw() == 0 || ndy.raw() == 0 {
                return Err(ViewportError::SpanUnderflow);
            }
            let (nxm, nxx): (Scalar, Scalar) = zoom_axis_in(self.x_min, self.x_max, cx, ndx);
            let (nym, nyx): (Scalar, Scalar) = zoom_axis_in(self.y_min, self.y_max, cy, ndy);
            Ok(
                PlotWindow {
                    pixel_dim: self.pixel_dim,
                    x_min: nxm,
                    x_max: nxx,
                    x_dif: ndx,
                    y_min: nym,
                    y_max: nyx,
                    y_dif: ndy,
                    julia: self.julia,
                },
            )
        } else {
            proof {
                lemma_span_grows(self.x_dif@, factor@);
                lemma_span_grows(self.y_dif@, factor@);
            }
            let rx: Option<(Scalar, Scalar)> = zoom_axis_out(cx, ndx);
            let ry: Option<(Scalar, Scalar)> = zoom_axis_out(cy, ndy);
            match (rx, ry) {
                (Some((nxm, nxx)), Some((nym, nyx))) => Ok(
                    PlotWindow {
                        pixel_dim: self.pixel_dim,
                        x_min: nxm,
                        x_max: nxx,
                        x_dif: ndx,
                        y_min: nym,
                        y_max: nyx,
                        y_dif: ndy,
                        julia: self.julia,
                    },
                ),
                _ => Err(ViewportError::SpanOverflow),
            }
        }
    }

    /// The raw RGB8 pixels of a Mandelbrot render of this viewport.
    pub fn load_mandelbrot(&self, tries: u32) -> (r: Result<Vec<u8>, RenderError>)
        requires
            self.wf(),
            3 * (self.pixel_dim.0 as int) * (self.pixel_dim.1 as int) <= usize::MAX as int,
        ensures
            (r is Ok) <==> tries >= 1,
            (match r {
                Ok(bytes) => {
                    &&& bytes@.len() == 3 * (self.pixel_dim.0 as int) * (self.pixel_dim.1 as int)
                    &&& forall|x: int, y: int|
                        0 <= x < self.pixel_dim.0 as int && 0 <= y < self.pixel_dim.1 as int
                            ==> #[trigger] pixel_bytes_ok(
                            bytes@,
                            FractalSpec::Mandelbrot { power: 2 },
                            (self.x_min@, self.x_max@, self.y_min@, self.y_max@),
                            self.pixel_dim.0 as int,
                            self.pixel_dim.1 as int,
                            tries as int,
                            x,
                            y,
                        )
                },
                Err(e) => e == RenderError::InvalidRequest,
            }),
    {
        fine_mandelbrot(
            self.x_min,
            self.x_max,
            self.y_min,
            self.y_max,
            self.pixel_dim.0,
            self.pixel_dim.1,
            tries,
        )
    }

    /// The raw RGB8 pixels of a Julia render of this viewport with its
    /// active constant.
    pub fn load_julia(&self, tries: u32) -> (r: Result<Vec<u8>, RenderError>)
        requires
            self.wf(),
            3 * (self.pixel_dim.0 as int) * (self.pixel_dim.1 as int) <= usize::MAX as int,
        ensures
            (r is Ok) <==> tries >= 1,
            (match r {
                Ok(bytes) => {
                    &&& bytes@.len() == 3 * (self.pixel_dim.0 as int) * (self.pixel_dim.1 as int)
                    &&& forall|x: int, y: int|
                        0 <= x < self.pixel_dim.0 as int && 0 <= y < self.pixel_dim.1 as int
                            ==> #[trigger] pixel_bytes_ok(
                            bytes@,
                            FractalSpec::Julia { constant: self.julia, power: 2 },
                            (self.x_min@, self.x_max@, self.y_min@, self.y_max@),
                            self.pixel_dim.0 as int,
                            self.pixel_dim.1 as int,
                            tries as int,
                            x,
                            y,
                        )
                },
                Err(e) => e == RenderError::InvalidRequest,
            }),
    {
        raw_julia(
            self.julia,
            self.x_min,
            self.x_max,
            self.y_min,
            self.y_max,
            self.pixel_dim.0,
            self.pixel_dim.1,
            tries,
        )
    }
}

/// Zooming in scales a span strictly down.
proof fn lemma_span_shrinks(dif: int, factor: int)
    requires
        1 <= dif <= MAX_RAW as int,
        0 < factor < SCALE as int,
    ensures
        0 <= sat(tdiv(dif * factor, SCALE as int)) < dif,
{
    lemma_mul_nonnegative(dif, factor);
    lemma_div_pos_is_pos(dif * factor, SCALE as int);
    assert(dif * factor <= dif * ((SCALE as int) - 1)) by (nonlinear_arith)
        requires
            factor <= (SCALE as int) - 1,
            dif >= 1,
    ;
    assert(dif * ((SCALE as int) - 1) == dif * (SCALE as int) - dif) by (nonlinear_arith);
    lemma_div_is_ordered(dif * factor, dif * (SCALE as int) - dif, SCALE as int);
    assert((dif * (SCALE as int) - dif) / (SCALE as int) < dif) by {
        vstd::arithmetic::div_mod::lemma_div_multiples_vanish(dif, SCALE as int);
        assert(dif * (SCALE as int) == (SCALE as int) * dif) by (nonlinear_arith);
        vstd::arithmetic::div_mod::lemma_div_minus_one(dif * (SCALE as int) - dif + 1, 1);
        assert((dif * (SCALE as int) - dif) <= (SCALE as int) * dif - 1);
        lemma_div_is_ordered(dif * (SCALE as int) - dif, (SCALE as int) * dif - 1, SCALE as int);
        vstd::arithmetic::div_mod::lemma_div_is_strictly_smaller(
            (SCALE as int) * dif,
            SCALE as int,
        );
        assert(((SCALE as int) * dif - 1) / (SCALE as int) < dif);
    };
}

/// Zooming out scales a span up, and never to nothing.
proof fn lemma_span_grows(dif: int, factor: int)
    requires
        1 <= dif <= MAX_RAW as int,
        factor >= SCALE as int,
    ensures
        1 <= sat(tdiv(dif * factor, SCALE as int)),
{
    assert(dif * factor >= SCALE as int) by (nonlinear_arith)
        requires
            dif >= 1,
            factor >= SCALE as int,
    ;
    lemma_div_by_self(SCALE as int);
    lemma_div_is_ordered(SCALE as int, dif * factor, SCALE as int);
    lemma_mul_nonnegative(dif, factor);
}

/// The clamped zoom-in transition of one axis: the result carries the
/// requested span and stays inside the old bounds.
fn zoom_axis_in(min: Scalar, max: Scalar, center: Scalar, nd: Scalar) -> (r: (Scalar, Scalar))
    requires
        min@ <= center@ <= max@,
        0 < nd@ < max@ - min@,
    ensures
        (r.0@, r.1@) == clamp_axis(min@, max@, center@, nd@),
        min@ <= r.0@,
        r.1@ <= max@,
        r.1@ - r.0@ == nd@,
{
    let min_r: i64 = min.raw();
    let max_r: i64 = max.raw();
    let nd_r: i64 = nd.raw();
    let half: i64 = ((nd_r as u64) / 2) as i64;
    let lo: i128 = center.raw() as i128 - half as i128;
    let hi: i128 = lo + nd_r as i128;
    if lo < min_r as i128 {
        (min, Scalar::from_wide(min_r as i128 + nd_r as i128))
    } else if hi > max_r as i128 {
        (Scalar::from_wide(max_r as i128 - nd_r as i128), max)
    } else {
        (Scalar::from_wide(lo), Scalar::from_wide(hi))
    }
}

/// The unclamped zoom-out transition of one axis; refused when a bound
/// leaves the representable range.
fn zoom_axis_out(center: Scalar, nd: Scalar) -> (r: Option<(Scalar, Scalar)>)
    requires
        nd@ > 0,
    ensures
        (r is Some) <==> (in_raw_range(free_axis(center@, nd@).0) && in_raw_range(
            free_axis(center@, nd@).1,
        )),
        (match r {
            Some(b) => (b.0@, b.1@) == free_axis(center@, nd@),
            None => true,
        }),
{
    let nd_r: i64 = nd.raw();
    let half: i64 = ((nd_r as u64) / 2) as i64;
    let lo: i128 = center.raw() as i128 - half as i128;
    let hi: i128 = lo + nd_r as i128;
    if lo < -(MAX_RAW as i128) || hi > MAX_RAW as i128 {
        None
    } else {
        Some((Scalar::from_wide(lo), Scalar::from_wide(hi)))
    }
}

} // verus!
