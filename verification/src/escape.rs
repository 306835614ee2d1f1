//! The escape-time evaluator: does the orbit of 0 under z -> z*z + c leave
//! the disk of radius two within a bounded number of iterations?

use vstd::prelude::*;

use crate::complex::Cx;
use crate::fixed::{
    lemma_ab_le_sq, lemma_div_le, lemma_mul_le, lemma_square_mag, tdiv, Fx, COORD_MAG_MAX, SCALE,
};

verus! {

/// Real part of one iteration step: z*z + c, in raw fixed-point units with
/// each partial product rounded toward zero.
pub open spec fn step_re(zr: int, zi: int, cr: int) -> int {
    (zr * zr) / (SCALE as int) - (zi * zi) / (SCALE as int) + cr
}

/// Imaginary part of one iteration step.
pub open spec fn step_im(zr: int, zi: int, ci: int) -> int {
    tdiv(zr * zi, SCALE as int) + tdiv(zr * zi, SCALE as int) + ci
}

/// The orbit of the origin under z -> z*z + c, after `n` steps.
pub open spec fn orbit(cr: int, ci: int, n: int) -> (int, int)
    decreases n,
{
    if n <= 0 {
        (0, 0)
    } else {
        let z = orbit(cr, ci, n - 1);
        (step_re(z.0, z.1, cr), step_im(z.0, z.1, ci))
    }
}

/// The squared magnitude of a point, in raw units squared: a value v is
/// held as v * SCALE, so |z|^2 > 4 is exactly zr*zr + zi*zi > 4 * SCALE^2.
pub open spec fn norm_sqr(zr: int, zi: int) -> int {
    zr * zr + zi * zi
}

/// The orbit leaves the disk of radius two exactly at iteration `i`: after
/// the step of iteration `i` the squared magnitude exceeds four. The
/// comparison is exact: no rounding enters it.
pub open spec fn escapes_at(cr: int, ci: int, i: int) -> bool {
    norm_sqr(orbit(cr, ci, i + 1).0, orbit(cr, ci, i + 1).1) > 4 * (SCALE as int) * (SCALE as int)
}

/// Does the squared magnitude exceed four?
fn norm_gt_four(re: Fx, im: Fx) -> (r: bool)
    requires
        re.mag <= 100_000_000_000_000,
        im.mag <= 100_000_000_000_000,
    ensures
        r == (norm_sqr(re.val(), im.val()) > 4 * (SCALE as int) * (SCALE as int)),
{
    proof {
        lemma_square_mag(re);
        lemma_square_mag(im);
        lemma_mul_le(re.mag as int, re.mag as int, 100_000_000_000_000, 100_000_000_000_000);
        lemma_mul_le(im.mag as int, im.mag as int, 100_000_000_000_000, 100_000_000_000_000);
    }
    let mr = re.mag as u128;
    let mi = im.mag as u128;
    mr * mr + mi * mi > 4 * (SCALE as u128) * (SCALE as u128)
}

/// Approximated Mandelbrot containment test.
///
/// `limit` caps the number of iterations used to decide whether the set
/// contains `c`. `Some(i)` means the orbit of the origin escaped the disk
/// of radius two at iteration `i` (the first such iteration, `i < limit`);
/// `None` means no iteration up to the limit escaped, so `c` is treated as
/// a member of the set.
pub fn approx_mandelbrot_test(c: Cx, limit: u32) -> (r: Option<u32>)
    requires
        c.wf(),
        c.bounded(4 * COORD_MAG_MAX as int),
    ensures
        match r {
            Some(i) => 0 <= i < limit && escapes_at(c.re.val(), c.im.val(), i as int) && (forall|
                j: int,
            |
                0 <= j < i ==> !escapes_at(c.re.val(), c.im.val(), j)),
            None => forall|j: int| 0 <= j < limit ==> !escapes_at(c.re.val(), c.im.val(), j),
        },
{
    let ghost cr = c.re.val();
    let ghost ci = c.im.val();
    let ghost bound: int = 4 * (SCALE as int) * (SCALE as int);
    let mut zr = Fx::zero();
    let mut zi = Fx::zero();
    let mut i: u32 = 0;
    while i < limit
        invariant
            c.wf(),
            c.bounded(4 * COORD_MAG_MAX as int),
            cr == c.re.val(),
            ci == c.im.val(),
            bound == 4 * (SCALE as int) * (SCALE as int),
            i <= limit,
            zr.wf(),
            zi.wf(),
            (zr.val(), zi.val()) == orbit(cr, ci, i as int),
            zr.val() * zr.val() + zi.val() * zi.val() <= bound,
            forall|j: int| 0 <= j < i ==> !escapes_at(cr, ci, j),
        decreases limit - i,
    {
        proof {
            lemma_square_mag(zr);
            lemma_square_mag(zi);
            lemma_ab_le_sq(zr.mag as int, zi.mag as int);
            lemma_div_le(zr.mag as int * zr.mag as int, SCALE as int);
            lemma_div_le(zi.mag as int * zi.mag as int, SCALE as int);
            lemma_div_le(zr.mag as int * zi.mag as int, SCALE as int);
        }
        let t_rr = zr.times(zr);
        let t_ii = zi.times(zi);
        let t_ri = zr.times(zi);
        let new_re = t_rr.minus(t_ii).plus(c.re);
        let new_im = t_ri.plus(t_ri).plus(c.im);
        proof {
            assert(t_rr.val() == (zr.val() * zr.val()) / (SCALE as int));
            assert(t_ii.val() == (zi.val() * zi.val()) / (SCALE as int));
            assert(new_re.val() == step_re(zr.val(), zi.val(), cr));
            assert(new_im.val() == step_im(zr.val(), zi.val(), ci));
            assert(orbit(cr, ci, i as int + 1) == (new_re.val(), new_im.val()));
        }
        if norm_gt_four(new_re, new_im) {
            assert(escapes_at(cr, ci, i as int));
            return Some(i);
        }
        proof {
            assert(!escapes_at(cr, ci, i as int));
        }
        zr = new_re;
        zi = new_im;
        i = i + 1;
    }
    None
}

/// The orbit of the origin with parameter zero never moves: every iterate
/// is the origin itself.
pub proof fn lemma_orbit_of_origin(n: int)
    ensures
        orbit(0, 0, n) == (0int, 0int),
    decreases n,
{
    if n > 0 {
        lemma_orbit_of_origin(n - 1);
    }
}

/// The parameter c = 0 is in the set: no iteration ever escapes, so the
/// evaluator reports "no escape" for every positive limit.
pub proof fn lemma_origin_never_escapes(i: int)
    ensures
        !escapes_at(0, 0, i),
{
    lemma_orbit_of_origin(i + 1);
}

/// A parameter outside the disk of radius two escapes at once: the first
/// iterate is c itself, so the evaluator reports escape at iteration zero
/// exactly when c's squared magnitude exceeds four.
pub proof fn lemma_far_point_escapes_at_zero(cr: int, ci: int)
    ensures
        escapes_at(cr, ci, 0) <==> cr * cr + ci * ci > 4 * (SCALE as int) * (SCALE as int),
{
    assert(orbit(cr, ci, 0) == (0int, 0int));
    assert(orbit(cr, ci, 1) == (cr, ci));
}

} // verus!
