//! The iteration-to-color mapper.
//!
//! An escape count is mapped to a hue on the color wheel and converted to
//! RGB with fixed saturation `0.6` and value `1.0`.  The hue enters the
//! conversion only through its position within one of six sectors of the
//! wheel, so the whole conversion is exact decimal fixed-point arithmetic:
//! with the hue `(ratio + 0.6) * 2pi`, the sector index is just
//! `floor(6 * (ratio + 0.6) mod 6)` and pi cancels out.  Counts are
//! reduced cyclically modulo a fixed period of `100`, giving repeating
//! color bands independent of the iteration budget; a count equal to the
//! budget means the probe never escaped and paints the interior black.

use crate::scalar::Scalar;
use vstd::prelude::*;

verus! {

/// An 8-bit RGB color.
#[derive(Clone, Copy, PartialEq, Eq, Structural, Debug)]
pub struct Rgb {
    pub r: u8,
    pub g: u8,
    pub b: u8,
}

/// The cyclic color period: counts repeat their band color every 100.
pub const STD_DEPTH: u32 = 100;

/// A raw channel intensity in `[0, SCALE]` as a byte: `floor(x * 256 / SCALE)`
/// capped at 255 (full intensity maps to 255).
pub open spec fn chan_byte(x: int) -> int {
    if x * 256 / 1_000_000_000 > 255 {
        255
    } else {
        x * 256 / 1_000_000_000
    }
}

/// The hue position scaled to sixths of the wheel: `6 * (ratio + 0.6)`,
/// wrapped once back below six.
pub open spec fn hue_frac(ratio: int) -> int {
    let h = 6 * ratio + 3_600_000_000;
    if h >= 6_000_000_000 {
        h - 6_000_000_000
    } else {
        h
    }
}

/// The fixed saturation `0.6` applied to a fractional position.
pub open spec fn sv_scaled(f: int) -> int {
    600_000_000 * f / 1_000_000_000
}

/// An RGB value from three raw channel intensities.
pub open spec fn rgb_of(r: int, g: int, b: int) -> Rgb {
    Rgb { r: chan_byte(r) as u8, g: chan_byte(g) as u8, b: chan_byte(b) as u8 }
}

/// HSV-to-RGB conversion of a hue ratio in `[0, 1)` at saturation `0.6`
/// and value `1.0`, with the classic six-sector layout.
pub open spec fn ratio_color_spec(ratio: int) -> Rgb {
    let h = hue_frac(ratio);
    let s = h / 1_000_000_000;
    let f = h % 1_000_000_000;
    let v = 1_000_000_000int;
    let p = 400_000_000int;
    let q = 1_000_000_000 - sv_scaled(f);
    let t = 1_000_000_000 - sv_scaled(1_000_000_000 - f);
    if s == 0 {
        rgb_of(v, t, p)
    } else if s == 1 {
        rgb_of(q, v, p)
    } else if s == 2 {
        rgb_of(p, v, t)
    } else if s == 3 {
        rgb_of(p, q, v)
    } else if s == 4 {
        rgb_of(t, p, v)
    } else {
        rgb_of(v, p, q)
    }
}

/// The interior color: probes that never escape paint black.
pub open spec fn interior_color() -> Rgb {
    Rgb { r: 0, g: 0, b: 0 }
}

/// The cyclic hue ratio of an escape count: `(count mod 100) / 100`.
pub open spec fn cyclic_ratio(count: int) -> int {
    (count % 100) * 10_000_000
}

/// The color of a pixel result: black at the full budget, else the cyclic
/// band color of the count.
pub open spec fn color_spec(count: int, depth: int) -> Rgb {
    if count == depth {
        interior_color()
    } else {
        ratio_color_spec(cyclic_ratio(count))
    }
}

/// A raw channel intensity as a byte.
fn chan(x: u64) -> (r: u8)
    requires
        x <= 1_000_000_000,
    ensures
        r as int == chan_byte(x as int),
{
    let c: u64 = x * 256 / 1_000_000_000;
    if c > 255 {
        255
    } else {
        c as u8
    }
}

/// Hue-ratio-to-RGB conversion.  The ratio must already be normalized
/// into `[0, 1)`: an out-of-range ratio is a programming error at the
/// caller, not a runtime condition this mapper recovers from.
pub fn ratio_to_color(ratio: Scalar) -> (r: Rgb)
    requires
        0 <= ratio@ < 1_000_000_000,
    ensures
        r == ratio_color_spec(ratio@),
{
    let raw: u64 = ratio.raw() as u64;
    let h6: u64 = {
        let h: u64 = 6 * raw + 3_600_000_000;
        if h >= 6_000_000_000 {
            h - 6_000_000_000
        } else {
            h
        }
    };
    let s: u64 = h6 / 1_000_000_000;
    let f: u64 = h6 % 1_000_000_000;
    let v: u64 = 1_000_000_000;
    let p: u64 = 400_000_000;
    let q: u64 = 1_000_000_000 - 600_000_000 * f / 1_000_000_000;
    let t: u64 = 1_000_000_000 - 600_000_000 * (1_000_000_000 - f) / 1_000_000_000;
    if s == 0 {
        Rgb { r: chan(v), g: chan(t), b: chan(p) }
    } else if s == 1 {
        Rgb { r: chan(q), g: chan(v), b: chan(p) }
    } else if s == 2 {
        Rgb { r: chan(p), g: chan(v), b: chan(t) }
    } else if s == 3 {
        Rgb { r: chan(p), g: chan(q), b: chan(v) }
    } else if s == 4 {
        Rgb { r: chan(t), g: chan(p), b: chan(v) }
    } else {
        Rgb { r: chan(v), g: chan(p), b: chan(q) }
    }
}

/// The cyclic band color of an escape count.
pub fn color_builder(i: u32) -> (r: Rgb)
    ensures
        r == ratio_color_spec(cyclic_ratio(i as int)),
{
    let m: u32 = i % STD_DEPTH;
    let ratio: Scalar = Scalar::from_raw((m as i64) * 10_000_000);
    ratio_to_color(ratio)
}

/// The color of one pixel result under an iteration budget: black when
/// the probe never escaped, else its cyclic band color.
pub fn iteration_to_color(count: u32, depth: u32) -> (r: Rgb)
    ensures
        r == color_spec(count as int, depth as int),
{
    if count == depth {
        Rgb { r: 0, g: 0, b: 0 }
    } else {
        color_builder(count)
    }
}

/// At the full budget the mapper paints the interior color, whatever the
/// budget is.
pub proof fn lemma_interior_black(depth: int)
    ensures
        color_spec(depth, depth) == interior_color(),
{
}

/// Band colors are cyclic: two escaped counts in the same residue class
/// modulo the period get the same color, independent of either budget.
pub proof fn lemma_color_cyclic(c1: int, d1: int, c2: int, d2: int)
    requires
        c1 % 100 == c2 % 100,
        c1 != d1,
        c2 != d2,
    ensures
        color_spec(c1, d1) == color_spec(c2, d2),
{
}

} // verus!
