//! The coordinate mapper: from a pixel position in a bounded raster to the
//! corresponding point of the complex window, by exact linear interpolation.

use vstd::prelude::*;

use crate::complex::Cx;
use crate::fixed::{tdiv, Fx, COORD_MAG_MAX};

verus! {

/// Real part of the point a pixel column maps to: the upper-left corner's
/// real part, advanced by `col / w` of the window's plane width.
pub open spec fn p2p_re(w: int, col: int, ul_re: int, lr_re: int) -> int {
    ul_re + tdiv((lr_re - ul_re) * col, w)
}

/// Imaginary part of the point a pixel row maps to: the upper-left corner's
/// imaginary part, lowered by `row / h` of the window's plane height; the
/// subtraction is deliberate, since rows grow downward while the imaginary
/// axis grows upward.
pub open spec fn p2p_im(h: int, row: int, ul_im: int, lr_im: int) -> int {
    ul_im - tdiv((ul_im - lr_im) * row, h)
}

/// Translate a pixel coordinate to the complex plane.
///
/// `bounds` is the raster size, `pixel` the (column, row) position; the
/// window runs from `upper_left` to `lower_right`. A position on the far
/// edge (`pixel.0 == bounds.0` or `pixel.1 == bounds.1`) is allowed and maps
/// to the window's own edge.
pub fn pixel_to_point(
    bounds: (usize, usize),
    pixel: (usize, usize),
    upper_left: Cx,
    lower_right: Cx,
) -> (r: Cx)
    requires
        1 <= bounds.0,
        1 <= bounds.1,
        pixel.0 <= bounds.0,
        pixel.1 <= bounds.1,
        upper_left.wf(),
        lower_right.wf(),
        upper_left.bounded(COORD_MAG_MAX as int),
        lower_right.bounded(COORD_MAG_MAX as int),
    ensures
        r.wf(),
        r.bounded(3 * COORD_MAG_MAX as int),
        r.re.val() == p2p_re(
            bounds.0 as int,
            pixel.0 as int,
            upper_left.re.val(),
            lower_right.re.val(),
        ),
        r.im.val() == p2p_im(
            bounds.1 as int,
            pixel.1 as int,
            upper_left.im.val(),
            lower_right.im.val(),
        ),
{
    let plane_w = lower_right.re.minus(upper_left.re);
    let plane_h = upper_left.im.minus(lower_right.im);
    let re = upper_left.re.plus(plane_w.scaled(pixel.0 as u64, bounds.0 as u64));
    let im = upper_left.im.minus(plane_h.scaled(pixel.1 as u64, bounds.1 as u64));
    Cx { re, im }
}

} // verus!
