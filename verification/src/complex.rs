//! Complex numbers over decimal fixed-point scalars.
//!
//! Every operation returns a new value; the contracts state each component
//! as an exact integer formula over the raw unit counts.  Division by a
//! divisor of zero magnitude is a reportable error, never a silent garbage
//! value, and the conjugate-based formula is closed form: it never recurses.

use crate::scalar::{in_raw_range, sat, tdiv, Scalar, MAX_RAW, SCALE};
use vstd::arithmetic::div_mod::{
    lemma_div_denominator, lemma_div_multiples_vanish, lemma_div_of0, lemma_div_pos_is_pos,
    lemma_fundamental_div_mod, lemma_hoist_over_denominator, lemma_mod_bound,
};
use vstd::arithmetic::mul::{
    lemma_mul_basics, lemma_mul_inequality, lemma_mul_nonnegative, lemma_mul_unary_negation,
};
use vstd::math::abs;
use vstd::prelude::*;

verus! {

/// Why a complex division cannot be carried out.
#[derive(Clone, Copy, PartialEq, Eq, Structural, Debug)]
pub enum ArithError {
    /// The divisor has zero magnitude.
    DegenerateDivision,
}

/// A complex number with decimal fixed-point components.
#[derive(Clone, Copy, PartialEq, Eq, Structural, Debug)]
pub struct Complex {
    real: Scalar,
    imag: Scalar,
}

impl View for Complex {
    type V = (int, int);

    /// A complex number is viewed as the pair of raw unit counts of its
    /// real and imaginary components.
    closed spec fn view(&self) -> (int, int) {
        (self.real@, self.imag@)
    }
}

/// Both components lie in the representable raw range; true of every value.
pub open spec fn rep_ok(a: (int, int)) -> bool {
    in_raw_range(a.0) && in_raw_range(a.1)
}

/// The view of the complex number one.
pub open spec fn c_one() -> (int, int) {
    (SCALE as int, 0int)
}

/// Componentwise saturating addition.
pub open spec fn cadd(a: (int, int), b: (int, int)) -> (int, int) {
    (sat(a.0 + b.0), sat(a.1 + b.1))
}

/// Componentwise saturating subtraction.
pub open spec fn csub(a: (int, int), b: (int, int)) -> (int, int) {
    (sat(a.0 - b.0), sat(a.1 - b.1))
}

/// Exact negation.
pub open spec fn cneg(a: (int, int)) -> (int, int) {
    (-a.0, -a.1)
}

/// Exact conjugation.
pub open spec fn ccon(a: (int, int)) -> (int, int) {
    (a.0, -a.1)
}

/// Complex product: exact wide products, one truncated scaled division per
/// component, then saturation.
pub open spec fn cmul(a: (int, int), b: (int, int)) -> (int, int) {
    (
        sat(tdiv(a.0 * b.0 - a.1 * b.1, SCALE as int)),
        sat(tdiv(a.1 * b.0 + a.0 * b.1, SCALE as int)),
    )
}

/// Integer power by repeated multiplication; the zeroth power is one.
pub open spec fn cpow(a: (int, int), n: nat) -> (int, int)
    decreases n,
{
    if n == 0 {
        c_one()
    } else {
        cmul(cpow(a, (n - 1) as nat), a)
    }
}

/// Complex quotient by the conjugate formula `(a * con(b)) / (b * con(b))`:
/// the numerator components and the real denominator `|b|^2` are exact wide
/// integers, and each component is one truncated scaled division, saturated.
pub open spec fn cdiv(a: (int, int), b: (int, int)) -> (int, int) {
    let d = b.0 * b.0 + b.1 * b.1;
    (
        sat(tdiv((a.0 * b.0 + a.1 * b.1) * SCALE as int, d)),
        sat(tdiv((a.1 * b.0 - a.0 * b.1) * SCALE as int, d)),
    )
}

/// The floor of the square root of a natural number.
pub open spec fn floor_sqrt(n: nat) -> nat
    decreases n,
{
    if n == 0 {
        0
    } else {
        let s = floor_sqrt((n - 1) as nat);
        if (s + 1) * (s + 1) <= n {
            s + 1
        } else {
            s
        }
    }
}

/// `floor_sqrt` is the integer square root: it is the unique `r` with
/// `r^2 <= n < (r+1)^2`.
pub proof fn lemma_floor_sqrt_bounds(n: nat)
    ensures
        floor_sqrt(n) * floor_sqrt(n) <= n,
        n < (floor_sqrt(n) + 1) * (floor_sqrt(n) + 1),
    decreases n,
{
    if n == 0 {
        assert(floor_sqrt(0) == 0);
        assert((floor_sqrt(0) + 1) * (floor_sqrt(0) + 1) == 1nat) by (nonlinear_arith)
            requires
                floor_sqrt(0) == 0,
        ;
    } else {
        lemma_floor_sqrt_bounds((n - 1) as nat);
        let s = floor_sqrt((n - 1) as nat);
        if (s + 1) * (s + 1) <= n {
            assert(floor_sqrt(n) == s + 1);
            assert(n < (s + 2) * (s + 2)) by (nonlinear_arith)
                requires
                    (n - 1) < (s + 1) * (s + 1),
                    (s + 1) * (s + 1) <= n,
            ;
            assert((floor_sqrt(n) + 1) * (floor_sqrt(n) + 1) == (s + 2) * (s + 2));
        } else {
            assert(floor_sqrt(n) == s);
            assert(n < (s + 1) * (s + 1));
        }
    }
}

/// Any `r` with `r^2 <= n < (r+1)^2` equals `floor_sqrt(n)`.
pub proof fn lemma_floor_sqrt_unique(n: nat, r: nat)
    requires
        r * r <= n,
        n < (r + 1) * (r + 1),
    ensures
        r == floor_sqrt(n),
{
    let f = floor_sqrt(n);
    lemma_floor_sqrt_bounds(n);
    if r < f {
        assert((r + 1) * (r + 1) <= f * f) by (nonlinear_arith)
            requires
                r + 1 <= f,
        ;
    } else if r > f {
        assert((f + 1) * (f + 1) <= r * r) by (nonlinear_arith)
            requires
                f + 1 <= r,
        ;
    }
}

/// Bounds of a product of two raw unit counts from the symmetric range.
proof fn lemma_raw_product_bounds(x: int, y: int) by (nonlinear_arith)
    requires
        in_raw_range(x),
        in_raw_range(y),
    ensures
        -0x3fff_ffff_ffff_ffff_0000_0000_0000_0001 <= x * y
            <= 0x3fff_ffff_ffff_ffff_0000_0000_0000_0001,
{
}

/// The magnitude of a product is the product of the magnitudes.
proof fn lemma_abs_mul(x: int, y: int)
    ensures
        abs(x * y) == abs(x) * abs(y),
{
    if x >= 0 && y >= 0 {
        lemma_mul_nonnegative(x, y);
    } else if x < 0 && y >= 0 {
        lemma_mul_nonnegative(-x, y);
        lemma_mul_unary_negation(x, y);
    } else if x >= 0 && y < 0 {
        lemma_mul_nonnegative(x, -y);
        assert(x * (-y) == -(x * y)) by (nonlinear_arith);
    } else {
        lemma_mul_nonnegative(-x, -y);
        assert((-x) * (-y) == x * y) by (nonlinear_arith);
    }
}

/// A common nonzero factor of dividend and divisor cancels out of a
/// truncated division.
pub proof fn lemma_tdiv_mul_cancel(x: int, d: int, k: int)
    requires
        d != 0,
        k != 0,
    ensures
        tdiv(x * k, d * k) == tdiv(x, d),
{
    lemma_abs_mul(x, k);
    lemma_abs_mul(d, k);
    let xa = abs(x) as int;
    let da = abs(d) as int;
    let ka = abs(k) as int;
    assert((xa * ka) / (da * ka) == xa / da) by {
        lemma_div_multiples_vanish(xa, ka);
        lemma_div_denominator(xa * ka, ka, da);
        assert(xa * ka == ka * xa) by (nonlinear_arith);
        assert(da * ka == ka * da) by (nonlinear_arith);
    };
    if x == 0 {
        // a zero dividend gives a zero quotient on both sides
        lemma_mul_basics(k);
        assert(da * ka > 0) by (nonlinear_arith)
            requires
                da > 0,
                ka > 0,
        ;
        lemma_div_of0(da);
        lemma_div_of0(da * ka);
    } else if k > 0 {
        // a positive factor leaves both signs unchanged
        assert((x * k >= 0) == (x >= 0)) by (nonlinear_arith)
            requires
                k > 0,
        ;
        assert((d * k >= 0) == (d >= 0)) by (nonlinear_arith)
            requires
                k > 0,
        ;
    } else {
        // a negative factor flips both signs, so their agreement is kept
        assert((x * k >= 0) == (x <= 0)) by (nonlinear_arith)
            requires
                k < 0,
                x != 0,
        ;
        assert((d * k >= 0) == (d <= 0)) by (nonlinear_arith)
            requires
                k < 0,
                d != 0,
        ;
    }
}

/// Largest raw magnitude a division's divisor components may have; the wide
/// intermediates of the conjugate formula then stay exact.
pub const DIV_LIMIT: i64 = 100_000_000_000_000;

/// The square of a raw unit count is nonnegative and fits the wide range.
pub proof fn lemma_square_bounds(x: int) by (nonlinear_arith)
    requires
        in_raw_range(x),
    ensures
        0 <= x * x <= 0x3fff_ffff_ffff_ffff_0000_0000_0000_0001,
{
}

/// A numerator term of the conjugate formula stays well inside `i128`.
proof fn lemma_wide_numerator_bounds(x: int, y: int) by (nonlinear_arith)
    requires
        in_raw_range(x),
        -(DIV_LIMIT as int) <= y <= DIV_LIMIT as int,
    ensures
        -0x8000_0000_0000_0000_0000_0000_0000_0000 < 2 * (x * y),
        2 * (x * y) < 0x8000_0000_0000_0000_0000_0000_0000_0000,
{
}

/// The conjugate denominator `|b|^2` is positive for a nonzero imaginary
/// part and bounded by twice the squared divisor limit.
proof fn lemma_denominator_bounds(b0: int, b1: int) by (nonlinear_arith)
    requires
        -(DIV_LIMIT as int) <= b0 <= DIV_LIMIT as int,
        -(DIV_LIMIT as int) <= b1 <= DIV_LIMIT as int,
        b1 != 0,
    ensures
        0 <= b0 * b0 <= 10_000_000_000_000_000_000_000_000_000,
        0 <= b1 * b1 <= 10_000_000_000_000_000_000_000_000_000,
        0 < b0 * b0 + b1 * b1 <= 20_000_000_000_000_000_000_000_000_000,
{
}

/// `sat(tdiv(n * SCALE, d))` for a positive divisor, computed on magnitudes
/// in two steps so that no intermediate overflows.
fn scaled_signed(n: i128, d: i128) -> (r: Scalar)
    requires
        0 < d <= 20_000_000_000_000_000_000_000_000_000i128,
        n > i128::MIN,
    ensures
        r@ == sat(tdiv(n as int * SCALE as int, d as int)),
{
    let neg: bool = n < 0;
    let na: u128 = if n < 0 {
        (-n) as u128
    } else {
        n as u128
    };
    let da: u128 = d as u128;
    let qa: u128 = na / da;
    let ra: u128 = na % da;
    proof {
        lemma_fundamental_div_mod(na as int, da as int);
        lemma_abs_mul(n as int, SCALE as int);
        // the scaled magnitude splits at the first division
        lemma_hoist_over_denominator(
            ra as int * SCALE as int,
            (qa as int) * (SCALE as int),
            da as nat,
        );
        assert((na as int) * (SCALE as int) == (ra as int) * (SCALE as int) + ((qa as int) * (
        SCALE as int)) * (da as int)) by (nonlinear_arith)
            requires
                na as int == (qa as int) * (da as int) + (ra as int),
        ;
        lemma_div_pos_is_pos((ra as int) * (SCALE as int), da as int);
        if n >= 0 {
            lemma_mul_nonnegative(n as int, SCALE as int);
        } else {
            assert((n as int) * (SCALE as int) < 0) by (nonlinear_arith)
                requires
                    (n as int) < 0,
            ;
        }
    }
    if qa > MAX_RAW as u128 {
        if neg {
            Scalar::from_raw(-MAX_RAW)
        } else {
            Scalar::from_raw(MAX_RAW)
        }
    } else {
        let frac: u128 = ra * (SCALE as u128) / da;
        let mag: u128 = qa * (SCALE as u128) + frac;
        if mag > MAX_RAW as u128 {
            if neg {
                Scalar::from_raw(-MAX_RAW)
            } else {
                Scalar::from_raw(MAX_RAW)
            }
        } else {
            let m: i64 = mag as i64;
            if neg {
                Scalar::from_raw(-m)
            } else {
                Scalar::from_raw(m)
            }
        }
    }
}

/// The integer square root, by binary search on the raw magnitude.
fn isqrt(n: u128) -> (r: u128)
    ensures
        r as nat == floor_sqrt(n as nat),
{
    let mut lo: u128 = 0;
    let mut hi: u128 = 0x1_0000_0000_0000_0000;
    while lo + 1 < hi
        invariant
            lo < hi <= 0x1_0000_0000_0000_0000u128,
            (lo as int) * (lo as int) <= n as int,
            (hi as int) * (hi as int) > n as int,
        decreases hi - lo,
    {
        let mid: u128 = lo + (hi - lo) / 2;
        assert(mid * mid <= 0xffff_ffff_ffff_fffe_0000_0000_0000_0001u128) by (nonlinear_arith)
            requires
                mid <= 0xffff_ffff_ffff_ffffu128,
        ;
        let sq: u128 = mid * mid;
        if sq <= n {
            lo = mid;
        } else {
            hi = mid;
        }
    }
    proof {
        lemma_floor_sqrt_unique(n as nat, lo as nat);
    }
    lo
}

impl Complex {
    /// The complex number with the given raw component views: the
    /// spec-level constructor.
    pub closed spec fn spec_new(re: int, im: int) -> Complex {
        Complex { real: Scalar::spec_from_raw(re), imag: Scalar::spec_from_raw(im) }
    }

    /// The complex number with the given components.
    pub fn new(re: Scalar, im: Scalar) -> (r: Complex)
        ensures
            r@ == (re@, im@),
            r == Complex::spec_new(re@, im@),
    {
        proof {
            crate::scalar::lemma_spec_from_raw_id(re);
            crate::scalar::lemma_spec_from_raw_id(im);
        }
        Complex { real: re, imag: im }
    }

    /// The real component.
    pub fn re(&self) -> (r: Scalar)
        ensures
            r@ == self@.0,
    {
        self.real
    }

    /// The imaginary component.
    pub fn im(&self) -> (r: Scalar)
        ensures
            r@ == self@.1,
    {
        self.imag
    }

    /// The complex number zero.
    pub fn null() -> (r: Complex)
        ensures
            r@ == (0int, 0int),
    {
        Complex { real: Scalar::from_raw(0), imag: Scalar::from_raw(0) }
    }

    /// The complex conjugate.
    pub fn con(&self) -> (r: Complex)
        ensures
            r@ == ccon(self@),
    {
        Complex { real: self.real, imag: self.imag.neg() }
    }

    /// Componentwise negation.
    pub fn neg(self) -> (r: Complex)
        ensures
            r@ == cneg(self@),
    {
        Complex { real: self.real.neg(), imag: self.imag.neg() }
    }

    /// Componentwise saturating addition.
    pub fn add(self, other: Complex) -> (r: Complex)
        ensures
            r@ == cadd(self@, other@),
    {
        Complex { real: self.real.add(other.real), imag: self.imag.add(other.imag) }
    }

    /// In-place saturating addition.
    pub fn add_assign(&mut self, other: Complex)
        ensures
            final(self)@ == cadd(old(self)@, other@),
    {
        *self = self.add(other);
    }

    /// Componentwise saturating subtraction.
    pub fn sub(self, other: Complex) -> (r: Complex)
        ensures
            r@ == csub(self@, other@),
    {
        Complex { real: self.real.sub(other.real), imag: self.imag.sub(other.imag) }
    }

    /// In-place saturating subtraction.
    pub fn sub_assign(&mut self, other: Complex)
        ensures
            final(self)@ == csub(old(self)@, other@),
    {
        *self = self.sub(other);
    }

    /// Complex multiplication: wide exact intermediates, one truncated
    /// scaled division per component, then saturation.
    pub fn mul(self, other: Complex) -> (r: Complex)
        ensures
            r@ == cmul(self@, other@),
    {
        let ar: i64 = self.real.raw();
        let ai: i64 = self.imag.raw();
        let br: i64 = other.real.raw();
        let bi: i64 = other.imag.raw();
        proof {
            lemma_raw_product_bounds(ar as int, br as int);
            lemma_raw_product_bounds(ai as int, bi as int);
            lemma_raw_product_bounds(ai as int, br as int);
            lemma_raw_product_bounds(ar as int, bi as int);
        }
        let wre: i128 = (ar as i128) * (br as i128) - (ai as i128) * (bi as i128);
        let wim: i128 = (ai as i128) * (br as i128) + (ar as i128) * (bi as i128);
        Complex { real: Scalar::from_scaled_wide(wre), imag: Scalar::from_scaled_wide(wim) }
    }

    /// Complex division.  A divisor of zero magnitude is a reportable
    /// error.  A divisor with zero imaginary part divides each component
    /// directly on the real axis; any other divisor goes through the
    /// closed-form conjugate formula `(a * con(b)) / (b * con(b))`, whose
    /// denominator is the exact wide integer `|b|^2` — there is no
    /// recursive call.  Both branches meet the single spec `cdiv`.
    pub fn div(self, other: Complex) -> (r: Result<Complex, ArithError>)
        requires
            abs(other@.0) <= DIV_LIMIT as int,
            abs(other@.1) <= DIV_LIMIT as int,
        ensures
            (r is Err) <==> (other@.0 == 0 && other@.1 == 0),
            (match r {
                Ok(c) => c@ == cdiv(self@, other@),
                Err(e) => e == ArithError::DegenerateDivision,
            }),
    {
        let bi: i64 = other.imag.raw();
        if bi == 0 {
            let br: i64 = other.real.raw();
            if br == 0 {
                Err(ArithError::DegenerateDivision)
            } else {
                let q_re: Scalar = self.real.div(other.real);
                let q_im: Scalar = self.imag.div(other.real);
                proof {
                    let a0 = self@.0;
                    let a1 = self@.1;
                    let b0 = other@.0;
                    assert((a0 * b0 + a1 * 0) * (SCALE as int) == (a0 * (SCALE as int)) * b0)
                        by (nonlinear_arith);
                    assert((a1 * b0 - a0 * 0) * (SCALE as int) == (a1 * (SCALE as int)) * b0)
                        by (nonlinear_arith);
                    lemma_tdiv_mul_cancel(a0 * (SCALE as int), b0, b0);
                    lemma_tdiv_mul_cancel(a1 * (SCALE as int), b0, b0);
                }
                Ok(Complex { real: q_re, imag: q_im })
            }
        } else {
            let ar: i64 = self.real.raw();
            let ai: i64 = self.imag.raw();
            let br: i64 = other.real.raw();
            proof {
                assert(-(DIV_LIMIT as int) <= br as int <= DIV_LIMIT as int);
                assert(-(DIV_LIMIT as int) <= bi as int <= DIV_LIMIT as int);
                lemma_wide_numerator_bounds(ar as int, br as int);
                lemma_wide_numerator_bounds(ai as int, bi as int);
                lemma_wide_numerator_bounds(ai as int, br as int);
                lemma_wide_numerator_bounds(ar as int, bi as int);
                lemma_denominator_bounds(br as int, bi as int);
            }
            let nre: i128 = (ar as i128) * (br as i128) + (ai as i128) * (bi as i128);
            let nim: i128 = (ai as i128) * (br as i128) - (ar as i128) * (bi as i128);
            let dw: i128 = (br as i128) * (br as i128) + (bi as i128) * (bi as i128);
            Ok(Complex { real: scaled_signed(nre, dw), imag: scaled_signed(nim, dw) })
        }
    }

    /// The Euclidean distance from the origin: the integer square root of
    /// the exact raw `|self|^2`, saturated.  Exact whenever the true
    /// magnitude has at most nine fractional digits.
    pub fn dist_from_origin(&self) -> (r: Scalar)
        ensures
            r@ == sat(floor_sqrt((self@.0 * self@.0 + self@.1 * self@.1) as nat) as int),
    {
        let ar: i64 = self.real.raw();
        let ai: i64 = self.imag.raw();
        proof {
            lemma_raw_product_bounds(ar as int, ar as int);
            lemma_raw_product_bounds(ai as int, ai as int);
            assert((ar as int) * (ar as int) >= 0) by (nonlinear_arith);
            assert((ai as int) * (ai as int) >= 0) by (nonlinear_arith);
        }
        let p1: u128 = ((ar as i128) * (ar as i128)) as u128;
        let p2: u128 = ((ai as i128) * (ai as i128)) as u128;
        let sum: u128 = p1 + p2;
        let root: u128 = isqrt(sum);
        if root > MAX_RAW as u128 {
            Scalar::from_raw(MAX_RAW)
        } else {
            Scalar::from_raw(root as i64)
        }
    }

    /// Integer power by repeated multiplication; the zeroth power is one.
    pub fn powi(self, exponent: u32) -> (r: Complex)
        ensures
            r@ == cpow(self@, exponent as nat),
    {
        if exponent == 0 {
            Complex { real: Scalar::one(), imag: Scalar::from_raw(0) }
        } else {
            let ar: i64 = self.real.raw();
            let ai: i64 = self.imag.raw();
            proof {
                lemma_cpow_one(self@);
            }
            let mut z: Complex = self;
            let mut i: u32 = 1;
            while i < exponent
                invariant
                    1 <= i <= exponent,
                    z@ == cpow(self@, i as nat),
                decreases exponent - i,
            {
                z = z.mul(self);
                i = i + 1;
            }
            z
        }
    }
}

/// The integer-power laws: the zeroth power is one, the first power is
/// the value itself, and every later power is the previous power times
/// the base.
pub proof fn lemma_integer_power(a: (int, int), n: nat)
    requires
        rep_ok(a),
        n >= 1,
    ensures
        cpow(a, 0) == c_one(),
        cpow(a, 1) == a,
        cpow(a, n) == cmul(cpow(a, (n - 1) as nat), a),
{
    lemma_cpow_one(a);
}

/// The first power of a representable value is the value itself.
pub proof fn lemma_cpow_one(a: (int, int))
    requires
        rep_ok(a),
    ensures
        cpow(a, 1) == a,
{
    assert(cpow(a, 0) == c_one());
    assert(cpow(a, 1) == cmul(c_one(), a));
    assert((SCALE as int) * a.0 - 0 * a.1 == a.0 * (SCALE as int)) by (nonlinear_arith);
    assert(0 * a.0 + (SCALE as int) * a.1 == a.1 * (SCALE as int)) by (nonlinear_arith);
    lemma_tdiv_scale_exact(a.0);
    lemma_tdiv_scale_exact(a.1);
}

/// The remainder a truncated division leaves is smaller in magnitude
/// than the divisor.
pub proof fn lemma_tdiv_remainder(x: int, d: int)
    requires
        d > 0,
    ensures
        -d < x - tdiv(x, d) * d < d,
{
    if x >= 0 {
        lemma_fundamental_div_mod(x, d);
        lemma_mod_bound(x, d);
        assert(d * (x / d) == (x / d) * d) by (nonlinear_arith);
    } else {
        lemma_fundamental_div_mod(-x, d);
        lemma_mod_bound(-x, d);
        assert(d * ((-x) / d) == ((-x) / d) * d) by (nonlinear_arith);
        assert((-((-x) / d)) * d == -(((-x) / d) * d)) by (nonlinear_arith);
    }
}

/// A linear combination of two scaled truncated quotients lands within
/// the combined coefficient magnitude of the scaled exact target.
proof fn lemma_combo_close(
    q0: int,
    q1: int,
    nre: int,
    nim: int,
    r0: int,
    r1: int,
    e1: int,
    e2: int,
    t: int,
    d: int,
)
    requires
        d > 0,
        q0 * d == nre * (SCALE as int) - r0,
        abs(r0) < d,
        q1 * d == nim * (SCALE as int) - r1,
        abs(r1) < d,
        e1 * nre + e2 * nim == t * d,
        abs(e1) + abs(e2) >= 1,
    ensures
        abs((e1 * q0 + e2 * q1) - (SCALE as int) * t) < abs(e1) + abs(e2),
{
    let s = SCALE as int;
    let u = e1 * q0 + e2 * q1;
    let delta = u - s * t;
    assert((e1 * q0 + e2 * q1) * d == e1 * (q0 * d) + e2 * (q1 * d)) by (nonlinear_arith);
    assert(e1 * (nre * s - r0) == (e1 * nre) * s - e1 * r0) by (nonlinear_arith);
    assert(e2 * (nim * s - r1) == (e2 * nim) * s - e2 * r1) by (nonlinear_arith);
    assert((e1 * nre) * s + (e2 * nim) * s == (e1 * nre + e2 * nim) * s) by (nonlinear_arith);
    assert((t * d) * s == (s * t) * d) by (nonlinear_arith);
    assert(((e1 * q0 + e2 * q1) - s * t) * d == (e1 * q0 + e2 * q1) * d - (s * t) * d)
        by (nonlinear_arith);
    assert(delta * d == -(e1 * r0) - (e2 * r1));
    lemma_abs_mul(delta, d);
    lemma_abs_mul(e1, r0);
    lemma_abs_mul(e2, r1);
    lemma_mul_inequality(abs(r0) as int, d - 1, abs(e1) as int);
    lemma_mul_inequality(abs(r1) as int, d - 1, abs(e2) as int);
    assert(abs(e1) as int * (abs(r0) as int) == abs(r0) as int * (abs(e1) as int))
        by (nonlinear_arith);
    assert(abs(e2) as int * (abs(r1) as int) == abs(r1) as int * (abs(e2) as int))
        by (nonlinear_arith);
    assert((d - 1) * (abs(e1) as int) + (d - 1) * (abs(e2) as int) == (d - 1) * ((abs(e1)
        + abs(e2)) as int)) by (nonlinear_arith);
    let ee = (abs(e1) + abs(e2)) as int;
    assert((d - 1) * ee < d * ee) by (nonlinear_arith)
        requires
            ee >= 1,
    ;
    assert(abs(delta) as int * d <= (d - 1) * ee);
    assert((abs(delta) as int) < ee) by (nonlinear_arith)
        requires
            (abs(delta) as int) * d < d * ee,
            d > 0,
    ;
}

/// Truncating the scaled division of a value near a multiple of `SCALE`
/// lands within one unit plus the scaled slack of the multiplier.
proof fn lemma_near_multiple_tdiv(u: int, t: int, bnd: int)
    requires
        bnd >= 1,
        abs(u - (SCALE as int) * t) < bnd,
    ensures
        abs(tdiv(u, SCALE as int) - t) <= bnd / (SCALE as int) + 1,
{
    let s = SCALE as int;
    lemma_tdiv_remainder(u, s);
    let m = tdiv(u, s);
    let r2 = u - m * s;
    let delta = u - s * t;
    assert((m - t) * s == m * s - t * s) by (nonlinear_arith);
    assert(t * s == s * t) by (nonlinear_arith);
    assert(m * s == u - r2);
    assert((m - t) * s == delta - r2);
    let x = abs(m - t) as int;
    lemma_abs_mul(m - t, s);
    assert(x * s == abs(delta - r2));
    if x >= bnd / s + 2 {
        lemma_fundamental_div_mod(bnd, s);
        lemma_mod_bound(bnd, s);
        assert(x * s >= (bnd / s + 2) * s) by (nonlinear_arith)
            requires
                x >= bnd / s + 2,
                s > 0,
        ;
        assert((bnd / s + 2) * s == s * (bnd / s) + 2 * s) by (nonlinear_arith);
        assert(x * s >= bnd + s + 1);
        assert(false);
    }
}

/// Round-trip of division and multiplication: dividing a representable
/// value by a moderate non-null divisor and multiplying the quotient
/// back recovers the value to within the divisor's combined component
/// magnitude scaled down by `SCALE`, plus two raw units — the
/// fixed-point reading of "equal within tolerance".  The hypotheses keep
/// every intermediate inside the saturating range.
pub proof fn lemma_div_mul_round_trip(a: (int, int), b: (int, int))
    requires
        abs(a.0) <= 1_000_000_000_000_000_000,
        abs(a.1) <= 1_000_000_000_000_000_000,
        !(b.0 == 0 && b.1 == 0),
        abs(b.0) <= DIV_LIMIT as int,
        abs(b.1) <= DIV_LIMIT as int,
        in_raw_range(tdiv((a.0 * b.0 + a.1 * b.1) * (SCALE as int), b.0 * b.0 + b.1 * b.1)),
        in_raw_range(tdiv((a.1 * b.0 - a.0 * b.1) * (SCALE as int), b.0 * b.0 + b.1 * b.1)),
    ensures
        abs(cmul(cdiv(a, b), b).0 - a.0) <= ((abs(b.0) + abs(b.1)) as int) / (SCALE as int) + 2,
        abs(cmul(cdiv(a, b), b).1 - a.1) <= ((abs(b.0) + abs(b.1)) as int) / (SCALE as int) + 2,
{
    let s = SCALE as int;
    let d = b.0 * b.0 + b.1 * b.1;
    let nre = a.0 * b.0 + a.1 * b.1;
    let nim = a.1 * b.0 - a.0 * b.1;
    assert(b.0 * b.0 + b.1 * b.1 >= 1) by (nonlinear_arith)
        requires
            !(b.0 == 0 && b.1 == 0),
    ;
    let q0 = tdiv(nre * s, d);
    let q1 = tdiv(nim * s, d);
    lemma_tdiv_remainder(nre * s, d);
    lemma_tdiv_remainder(nim * s, d);
    let r0 = nre * s - q0 * d;
    let r1 = nim * s - q1 * d;
    assert(cdiv(a, b) == (q0, q1));
    // the conjugate numerators reconstruct each component exactly
    assert((a.0 * b.0 + a.1 * b.1) * b.0 + (-b.1) * (a.1 * b.0 - a.0 * b.1) == a.0 * (b.0 * b.0
        + b.1 * b.1)) by (nonlinear_arith);
    assert((a.1 * b.0 - a.0 * b.1) * b.0 + b.1 * (a.0 * b.0 + a.1 * b.1) == a.1 * (b.0 * b.0 + b.1
        * b.1)) by (nonlinear_arith);
    assert(b.0 * nre + (-b.1) * nim == a.0 * d) by (nonlinear_arith)
        requires
            nre * b.0 + (-b.1) * nim == a.0 * d,
    ;
    lemma_combo_close(q0, q1, nre, nim, r0, r1, b.0, -b.1, a.0, d);
    assert(b.1 * nre + b.0 * nim == a.1 * d) by (nonlinear_arith)
        requires
            nim * b.0 + b.1 * nre == a.1 * d,
    ;
    lemma_combo_close(q0, q1, nre, nim, r0, r1, b.1, b.0, a.1, d);
    let bb = (abs(b.0) + abs(b.1)) as int;
    let u = b.0 * q0 + (-b.1) * q1;
    let v = b.1 * q0 + b.0 * q1;
    if bb >= 1 {
        lemma_near_multiple_tdiv(u, a.0, bb);
        lemma_near_multiple_tdiv(v, a.1, bb);
    }
    // the multiplication's wide intermediates match u and v
    assert(q0 * b.0 - q1 * b.1 == b.0 * q0 + (-b.1) * q1) by (nonlinear_arith);
    assert(q1 * b.0 + q0 * b.1 == b.1 * q0 + b.0 * q1) by (nonlinear_arith);
    // nothing saturates: the reconstructed components stay well inside
    // the raw range
    lemma_fundamental_div_mod(bb, s);
    lemma_mod_bound(bb, s);
    assert(bb / s <= bb) by (nonlinear_arith)
        requires
            bb >= 0,
            s > 1,
            bb == s * (bb / s) + bb % s,
            0 <= bb % s,
    ;
    assert(in_raw_range(tdiv(u, s)));
    assert(in_raw_range(tdiv(v, s)));
    assert(cmul((q0, q1), b).0 == tdiv(u, s));
    assert(cmul((q0, q1), b).1 == tdiv(v, s));
}

/// Dividing an exact multiple of `SCALE` back down is exact.
proof fn lemma_tdiv_scale_exact(x: int)
    ensures
        tdiv(x * SCALE as int, SCALE as int) == x,
{
    lemma_abs_mul(x, SCALE as int);
    lemma_div_multiples_vanish(abs(x) as int, SCALE as int);
    assert(abs(x) * (SCALE as int) == (SCALE as int) * abs(x)) by (nonlinear_arith);
    if x >= 0 {
        lemma_mul_nonnegative(x, SCALE as int);
    } else {
        assert(x * (SCALE as int) < 0) by (nonlinear_arith)
            requires
                x < 0,
        ;
    }
}

} // verus!
