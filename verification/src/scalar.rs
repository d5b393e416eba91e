//! Exact decimal fixed-point scalars.
//!
//! A [`Scalar`] stores an `i64` count of raw units and denotes the rational
//! `raw / SCALE`.  With `SCALE = 10^9` every decimal literal of at most nine
//! fractional digits is represented exactly, so arithmetic contracts can be
//! stated as exact integer formulas: each operation computes a wide exact
//! intermediate, truncates one scaled division toward zero, and saturates
//! into the symmetric range `[-MAX_RAW, MAX_RAW]` instead of overflowing.

use vstd::math::abs;
use vstd::prelude::*;

verus! {

/// Raw units per one: a scalar with raw value `r` denotes `r / SCALE`.
pub const SCALE: i64 = 1_000_000_000;

/// Largest raw magnitude a scalar may hold.  The range is symmetric
/// (`i64::MIN` is never stored) so that negation is total.
pub const MAX_RAW: i64 = 0x7fff_ffff_ffff_ffff;

/// Saturation into the representable raw range.
pub open spec fn sat(x: int) -> int {
    if x > MAX_RAW as int {
        MAX_RAW as int
    } else if x < -(MAX_RAW as int) {
        -(MAX_RAW as int)
    } else {
        x
    }
}

/// Division truncated toward zero, the rounding of `/` on machine integers.
pub open spec fn tdiv(x: int, d: int) -> int {
    if (x >= 0) == (d >= 0) {
        abs(x) as int / abs(d) as int
    } else {
        -(abs(x) as int / abs(d) as int)
    }
}

/// A decimal fixed-point number: `raw / SCALE`.
#[derive(Clone, Copy, PartialEq, Eq, Structural, Debug)]
pub struct Scalar {
    raw: i64,
}

impl View for Scalar {
    type V = int;

    /// A scalar is viewed as its raw unit count, an integer in
    /// `[-MAX_RAW, MAX_RAW]`; it denotes the rational `self@ / SCALE`.
    closed spec fn view(&self) -> int {
        self.raw as int
    }
}

impl Scalar {
    /// The raw range is symmetric: `i64::MIN` is never stored.
    #[verifier::type_invariant]
    closed spec fn wf(self) -> bool {
        self.raw != i64::MIN
    }

    /// The scalar with the given raw view: the spec-level constructor.
    pub closed spec fn spec_from_raw(raw: int) -> Scalar {
        Scalar { raw: raw as i64 }
    }
}

/// Every scalar is the spec-level construction of its own view.
pub proof fn lemma_spec_from_raw_id(s: Scalar)
    ensures
        s == Scalar::spec_from_raw(s@),
{
}

/// The raw unit counts a scalar can hold.
pub open spec fn in_raw_range(x: int) -> bool {
    -(MAX_RAW as int) <= x <= MAX_RAW as int
}

/// Saturate a wide intermediate into the raw range.
fn clamp_wide(x: i128) -> (r: i64)
    ensures
        r as int == sat(x as int),
{
    if x > MAX_RAW as i128 {
        MAX_RAW
    } else if x < -(MAX_RAW as i128) {
        -MAX_RAW
    } else {
        x as i64
    }
}

/// Truncated division on wide intermediates, via unsigned magnitudes.
pub(crate) fn tdiv_wide(x: i128, d: i128) -> (r: i128)
    requires
        d != 0,
        x > i128::MIN,
        d > i128::MIN,
    ensures
        r == tdiv(x as int, d as int),
{
    let neg: bool = (x < 0) != (d < 0);
    let xa: u128 = if x < 0 {
        (-x) as u128
    } else {
        x as u128
    };
    let da: u128 = if d < 0 {
        (-d) as u128
    } else {
        d as u128
    };
    let q: u128 = xa / da;
    assert(q <= xa) by {
        vstd::arithmetic::div_mod::lemma_div_is_ordered_by_denominator(xa as int, 1, da as int);
    };
    if neg {
        -(q as i128)
    } else {
        q as i128
    }
}

impl Scalar {
    /// The scalar holding exactly `raw / SCALE`; the one raw count that the
    /// symmetric range excludes is pulled up to `-MAX_RAW`.
    pub fn from_raw(raw: i64) -> (r: Scalar)
        ensures
            r@ == sat(raw as int),
    {
        if raw == i64::MIN {
            Scalar { raw: -MAX_RAW }
        } else {
            Scalar { raw }
        }
    }

    /// The scalar holding exactly the integer `n`.
    pub fn from_units(n: i32) -> (r: Scalar)
        ensures
            r@ == n as int * SCALE as int,
    {
        Scalar { raw: (n as i64) * SCALE }
    }

    /// The scalar holding exactly one.
    pub fn one() -> (r: Scalar)
        ensures
            r@ == SCALE as int,
    {
        Scalar { raw: SCALE }
    }

    /// The raw unit count.  Also certifies that the view lies in the
    /// symmetric raw range, which holds of every scalar.
    pub fn raw(&self) -> (r: i64)
        ensures
            r as int == self@,
            in_raw_range(self@),
    {
        proof {
            use_type_invariant(self);
        }
        self.raw
    }

    /// Exact negation; total because the raw range is symmetric.
    pub fn neg(self) -> (r: Scalar)
        ensures
            r@ == -self@,
    {
        proof {
            use_type_invariant(self);
        }
        Scalar { raw: -self.raw }
    }

    /// Saturating addition.
    pub fn add(self, other: Scalar) -> (r: Scalar)
        ensures
            r@ == sat(self@ + other@),
    {
        let wide: i128 = self.raw as i128 + other.raw as i128;
        Scalar { raw: clamp_wide(wide) }
    }

    /// Saturating subtraction.
    pub fn sub(self, other: Scalar) -> (r: Scalar)
        ensures
            r@ == sat(self@ - other@),
    {
        let wide: i128 = self.raw as i128 - other.raw as i128;
        Scalar { raw: clamp_wide(wide) }
    }

    /// Multiplication: the exact product, truncated toward zero at the ninth
    /// fractional digit, then saturated.
    pub fn mul(self, other: Scalar) -> (r: Scalar)
        ensures
            r@ == sat(tdiv(self@ * other@, SCALE as int)),
    {
        let a: i128 = self.raw as i128;
        let b: i128 = other.raw as i128;
        assert(-0x4000_0000_0000_0000_0000_0000_0000_0000i128 <= a * b
            <= 0x4000_0000_0000_0000_0000_0000_0000_0000i128) by (nonlinear_arith)
            requires
                -0x8000_0000_0000_0000i128 <= a <= 0x7fff_ffff_ffff_ffffi128,
                -0x8000_0000_0000_0000i128 <= b <= 0x7fff_ffff_ffff_ffffi128,
        ;
        let wide: i128 = a * b;
        let scaled: i128 = tdiv_wide(wide, SCALE as i128);
        Scalar { raw: clamp_wide(scaled) }
    }

    /// Division: the exact quotient, truncated toward zero at the ninth
    /// fractional digit, then saturated.
    pub fn div(self, other: Scalar) -> (r: Scalar)
        requires
            other@ != 0,
        ensures
            r@ == sat(tdiv(self@ * SCALE as int, other@)),
    {
        let a: i128 = self.raw as i128;
        assert(-0x4000_0000_0000_0000_0000_0000_0000_0000i128 <= a * (SCALE as i128)
            <= 0x4000_0000_0000_0000_0000_0000_0000_0000i128) by (nonlinear_arith)
            requires
                -0x8000_0000_0000_0000i128 <= a <= 0x7fff_ffff_ffff_ffffi128,
        ;
        let wide: i128 = a * (SCALE as i128);
        let scaled: i128 = tdiv_wide(wide, other.raw as i128);
        Scalar { raw: clamp_wide(scaled) }
    }

    /// Strict order on the denoted rationals.
    pub fn lt(self, other: Scalar) -> (r: bool)
        ensures
            r == (self@ < other@),
    {
        self.raw < other.raw
    }

    /// Crate-internal: a scalar from a wide raw intermediate, saturating.
    pub(crate) fn from_wide(w: i128) -> (r: Scalar)
        ensures
            r@ == sat(w as int),
    {
        Scalar { raw: clamp_wide(w) }
    }

    /// Crate-internal: a wide product scaled down by `SCALE`, truncating,
    /// then saturating.
    pub(crate) fn from_scaled_wide(w: i128) -> (r: Scalar)
        requires
            w > i128::MIN,
        ensures
            r@ == sat(tdiv(w as int, SCALE as int)),
    {
        Scalar { raw: clamp_wide(tdiv_wide(w, SCALE as i128)) }
    }
}

} // verus!
