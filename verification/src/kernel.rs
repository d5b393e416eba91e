//! The escape-time kernel.
//!
//! Given a fractal variant, a probe point and an iteration budget, the
//! kernel iterates `z := z^power + c` and reports the first 0-based index
//! at which the updated value leaves the escape radius two, or the budget
//! itself when the point never escapes.  The escape test compares the
//! exact squared raw magnitude against the squared radius, so it is the
//! exact predicate `|z| > 2` with no square root involved.  Arithmetic
//! on extreme divergence saturates instead of panicking, and a saturated
//! value still sits far outside the radius, so it is classified as
//! escaped — a magnitude too large to represent means the escape already
//! happened.

use crate::complex::{cadd, cpow, Complex};
use crate::scalar::Scalar;
use vstd::prelude::*;

verus! {

/// A fractal variant.  Julia iterates with a fixed constant and starts at
/// the probe point; Mandelbrot takes the probe point as its constant and
/// starts at the origin.  The power is two for the classic quadratic
/// family and meaningful from one upward (power one degenerates into a
/// linear recurrence that simply never escapes inside the radius).
/// Multi-term polynomial variants stay an unimplemented extension point:
/// their escape criterion and starting-value convention are not settled.
#[derive(Clone, Copy, PartialEq, Eq, Structural, Debug)]
pub enum FractalSpec {
    Julia { constant: Complex, power: u32 },
    Mandelbrot { power: u32 },
}

impl FractalSpec {
    /// The iteration power.
    pub open spec fn spec_power(self) -> u32 {
        match self {
            FractalSpec::Julia { power, .. } => power,
            FractalSpec::Mandelbrot { power } => power,
        }
    }

    /// A well-formed variant iterates with a positive power.
    pub open spec fn wf(self) -> bool {
        self.spec_power() >= 1
    }

    /// The iteration power.
    pub fn power(&self) -> (r: u32)
        ensures
            r == self.spec_power(),
    {
        match self {
            FractalSpec::Julia { power, .. } => *power,
            FractalSpec::Mandelbrot { power } => *power,
        }
    }
}

/// The additive constant of the iteration: the fixed Julia constant, or
/// the probe point itself for Mandelbrot.
pub open spec fn iter_constant(fs: FractalSpec, start: (int, int)) -> (int, int) {
    match fs {
        FractalSpec::Julia { constant, .. } => constant@,
        FractalSpec::Mandelbrot { .. } => start,
    }
}

/// Where the iteration starts: the probe point for Julia, the origin for
/// Mandelbrot.
pub open spec fn orbit_start(fs: FractalSpec, start: (int, int)) -> (int, int) {
    match fs {
        FractalSpec::Julia { .. } => start,
        FractalSpec::Mandelbrot { .. } => (0int, 0int),
    }
}

/// The orbit of the iteration: `n` applications of `z^power + c` to the
/// starting value.
pub open spec fn orbit(fs: FractalSpec, start: (int, int), n: nat) -> (int, int)
    decreases n,
{
    if n == 0 {
        orbit_start(fs, start)
    } else {
        cadd(
            cpow(orbit(fs, start, (n - 1) as nat), fs.spec_power() as nat),
            iter_constant(fs, start),
        )
    }
}

/// The escape predicate `|z| > 2`, stated exactly on the squared raw
/// magnitude: `(2 * SCALE)^2 = 4 * 10^18` raw units squared.
pub open spec fn escapes(z: (int, int)) -> bool {
    z.0 * z.0 + z.1 * z.1 > 4_000_000_000_000_000_000
}

/// The first index `>= i` whose updated orbit value escapes, or `tries`.
pub open spec fn escape_count_from(fs: FractalSpec, start: (int, int), i: nat, tries: nat) -> nat
    decreases tries - i,
{
    if i >= tries {
        tries
    } else if escapes(orbit(fs, start, i + 1)) {
        i
    } else {
        escape_count_from(fs, start, i + 1, tries)
    }
}

/// The escape count of a probe: the first 0-based iteration index whose
/// updated value escapes, or `tries` when none of the first `tries`
/// updates does.
pub open spec fn escape_count(fs: FractalSpec, start: (int, int), tries: nat) -> nat {
    escape_count_from(fs, start, 0, tries)
}

proof fn lemma_escape_count_from_characterizes(
    fs: FractalSpec,
    start: (int, int),
    i: nat,
    tries: nat,
)
    requires
        i <= tries,
    ensures
        i <= escape_count_from(fs, start, i, tries) <= tries,
        forall|j: nat|
            i + 1 <= j <= escape_count_from(fs, start, i, tries) ==> !escapes(orbit(fs, start, j)),
        escape_count_from(fs, start, i, tries) < tries ==> escapes(
            orbit(fs, start, escape_count_from(fs, start, i, tries) + 1),
        ),
    decreases tries - i,
{
    if i >= tries {
    } else if escapes(orbit(fs, start, i + 1)) {
    } else {
        lemma_escape_count_from_characterizes(fs, start, i + 1, tries);
    }
}

/// The escape count is exact: it never exceeds the budget, every update
/// up to it stays inside the radius, and when it is below the budget the
/// very next update escapes.
pub proof fn lemma_escape_count_characterizes(fs: FractalSpec, start: (int, int), tries: nat)
    ensures
        escape_count(fs, start, tries) <= tries,
        forall|j: nat|
            1 <= j <= escape_count(fs, start, tries) ==> !escapes(orbit(fs, start, j)),
        escape_count(fs, start, tries) < tries ==> escapes(
            orbit(fs, start, escape_count(fs, start, tries) + 1),
        ),
{
    lemma_escape_count_from_characterizes(fs, start, 0, tries);
}

/// The exact escape test on the squared raw magnitude.
fn step_escapes(z: &Complex) -> (r: bool)
    ensures
        r == escapes(z@),
{
    let zr: i64 = z.re().raw();
    let zi: i64 = z.im().raw();
    proof {
        crate::complex::lemma_square_bounds(zr as int);
        crate::complex::lemma_square_bounds(zi as int);
    }
    let p1: i128 = (zr as i128) * (zr as i128);
    let p2: i128 = (zi as i128) * (zi as i128);
    p1 + p2 > 4_000_000_000_000_000_000i128
}

/// Escape-time evaluation of one probe point under a fractal variant.
pub fn stable(fs: &FractalSpec, start: Complex, tries: u32) -> (r: u32)
    requires
        fs.wf(),
    ensures
        r as nat == escape_count(*fs, start@, tries as nat),
        r <= tries,
{
    let p: u32 = fs.power();
    let c: Complex = match fs {
        FractalSpec::Julia { constant, .. } => *constant,
        FractalSpec::Mandelbrot { .. } => start,
    };
    let mut z: Complex = match fs {
        FractalSpec::Julia { .. } => start,
        FractalSpec::Mandelbrot { .. } => Complex::null(),
    };
    let mut i: u32 = 0;
    while i < tries
        invariant
            i <= tries,
            z@ == orbit(*fs, start@, i as nat),
            p == fs.spec_power(),
            c@ == iter_constant(*fs, start@),
            escape_count(*fs, start@, tries as nat) == escape_count_from(
                *fs,
                start@,
                i as nat,
                tries as nat,
            ),
        decreases tries - i,
    {
        z = z.powi(p).add(c);
        proof {
            assert(z@ == orbit(*fs, start@, (i + 1) as nat));
        }
        if step_escapes(&z) {
            return i;
        }
        i = i + 1;
    }
    tries
}

/// A Julia constant: in the classic quadratic family a complex constant
/// by itself names a Julia set.
pub type Julia = Complex;

impl Complex {
    /// Escape count of the quadratic Julia iteration with this value as
    /// the fixed constant, probed at `start`.
    pub fn stable(self, start: Complex, tries: u32) -> (r: u32)
        ensures
            r as nat == escape_count(
                FractalSpec::Julia { constant: self, power: 2 },
                start@,
                tries as nat,
            ),
            r <= tries,
    {
        let fs = FractalSpec::Julia { constant: self, power: 2 };
        stable(&fs, start, tries)
    }

    /// Escape count of the quadratic Julia iteration, probed at the plane
    /// point `(x, y)`.
    pub fn stable_cords(self, x: Scalar, y: Scalar, tries: u32) -> (r: u32)
        ensures
            r as nat == escape_count(
                FractalSpec::Julia { constant: self, power: 2 },
                (x@, y@),
                tries as nat,
            ),
            r <= tries,
    {
        self.stable(Complex::new(x, y), tries)
    }
}

/// Escape count of the quadratic Mandelbrot iteration at the plane point
/// `(cx, cy)`.
pub fn mandelbrot(cx: Scalar, cy: Scalar, tries: u32) -> (r: u32)
    ensures
        r as nat == escape_count(FractalSpec::Mandelbrot { power: 2 }, (cx@, cy@), tries as nat),
        r <= tries,
{
    let fs = FractalSpec::Mandelbrot { power: 2 };
    stable(&fs, Complex::new(cx, cy), tries)
}

} // verus!
