//! Validation of the textual render parameters, and the full request
//! pipeline from parameter strings to encoded image bytes.
//!
//! All recoverable failures are parameter-validation failures, surfaced
//! before any rendering starts; degenerate geometry — a zero raster
//! dimension or a window of zero plane width or height — is rejected here
//! rather than allowed to reach the numeric core.

use vstd::prelude::*;
use vstd::string::StringSliceAdditionalSpecFns;

use crate::complex::Cx;
use crate::fixed::{lemma_mul_le, Fx, COORD_MAG_MAX};
use crate::parse::{fx_pair_left, fx_pair_ok, fx_pair_right, pair_spec, parse_complex, parse_pair};
use crate::png::{png_of, render_png};
use crate::render::render_spec;

verus! {

/// Everything a render call needs: positive raster bounds and a
/// non-degenerate complex window.
#[derive(Clone, Copy, PartialEq, Eq, Structural, Debug)]
pub struct RenderParams {
    pub width: usize,
    pub height: usize,
    pub upper_left: Cx,
    pub lower_right: Cx,
}

/// Why a set of parameter strings was rejected.
#[derive(Clone, Copy, PartialEq, Eq, Structural, Debug)]
pub enum ParamError {
    /// The bounds string is not `<width>x<height>`, or a dimension is zero.
    BadBounds,
    /// The raster would not be addressable: a dimension beyond the
    /// encoder's range, or a buffer larger than memory can index.
    BoundsTooLarge,
    /// The upper-left corner is not `<real>,<imaginary>`.
    BadUpperLeft,
    /// The lower-right corner is not `<real>,<imaginary>`.
    BadLowerRight,
    /// The window has zero plane width or zero plane height.
    EmptyWindow,
}

/// The bounds string parses as `<width>x<height>` with both positive.
pub open spec fn bounds_valid(b: Seq<u8>) -> bool {
    match pair_spec(b, 120) {
        Some(p) => p.0 >= 1 && p.1 >= 1,
        None => false,
    }
}

/// The parsed raster fits the machine: each dimension fits the encoder's
/// 32-bit range and the buffer length fits a usize.
pub open spec fn bounds_fit(b: Seq<u8>) -> bool {
    match pair_spec(b, 120) {
        Some(p) => p.0 <= u32::MAX && p.1 <= u32::MAX && p.0 * p.1 <= usize::MAX,
        None => false,
    }
}

pub open spec fn bounds_w(b: Seq<u8>) -> int {
    match pair_spec(b, 120) {
        Some(p) => p.0 as int,
        None => 0,
    }
}

pub open spec fn bounds_h(b: Seq<u8>) -> int {
    match pair_spec(b, 120) {
        Some(p) => p.1 as int,
        None => 0,
    }
}

/// The window spans a nonzero extent on both axes.
pub open spec fn window_nonempty(u: Seq<u8>, l: Seq<u8>) -> bool {
    fx_pair_left(u, 44) != fx_pair_left(l, 44) && fx_pair_right(u, 44) != fx_pair_right(l, 44)
}

/// The canonical fixed-point value with a given raw value.
pub open spec fn fx_of_val(v: int) -> Fx {
    Fx {
        neg: v < 0,
        mag: (if v < 0 {
            -v
        } else {
            v
        }) as u64,
    }
}

/// The canonical complex point with the given raw parts.
pub open spec fn cx_of(re: int, im: int) -> Cx {
    Cx { re: fx_of_val(re), im: fx_of_val(im) }
}

/// All three parameter strings are acceptable.
pub open spec fn params_valid(b: Seq<u8>, u: Seq<u8>, l: Seq<u8>) -> bool {
    bounds_valid(b) && bounds_fit(b) && fx_pair_ok(u, 44) && fx_pair_ok(l, 44) && window_nonempty(
        u,
        l,
    )
}

/// Parse and validate the three parameter strings: `bounds` as
/// `<width>x<height>`, the two corners as `<real>,<imaginary>`.
///
/// Each rejection names the first failing parameter, in the order bounds,
/// size, upper-left, lower-right, window shape.
pub fn build_params(bounds: &str, upper_left: &str, lower_right: &str) -> (r: Result<
    RenderParams,
    ParamError,
>)
    ensures
        ({
            let bb = bounds.spec_bytes();
            let ub = upper_left.spec_bytes();
            let lb = lower_right.spec_bytes();
            match r {
                Ok(p) => params_valid(bb, ub, lb) && p.width as int == bounds_w(bb) && p.height
                    as int == bounds_h(bb) && p.upper_left == cx_of(
                    fx_pair_left(ub, 44),
                    fx_pair_right(ub, 44),
                ) && p.lower_right == cx_of(fx_pair_left(lb, 44), fx_pair_right(lb, 44))
                    && p.upper_left.wf() && p.lower_right.wf() && p.upper_left.bounded(
                    COORD_MAG_MAX as int,
                ) && p.lower_right.bounded(COORD_MAG_MAX as int),
                Err(ParamError::BadBounds) => !bounds_valid(bb),
                Err(ParamError::BoundsTooLarge) => bounds_valid(bb) && !bounds_fit(bb),
                Err(ParamError::BadUpperLeft) => bounds_valid(bb) && bounds_fit(bb) && !fx_pair_ok(
                    ub,
                    44,
                ),
                Err(ParamError::BadLowerRight) => bounds_valid(bb) && bounds_fit(bb) && fx_pair_ok(
                    ub,
                    44,
                ) && !fx_pair_ok(lb, 44),
                Err(ParamError::EmptyWindow) => bounds_valid(bb) && bounds_fit(bb) && fx_pair_ok(
                    ub,
                    44,
                ) && fx_pair_ok(lb, 44) && !window_nonempty(ub, lb),
            }
        }),
{
    let (w, h) = match parse_pair(bounds, 120) {
        None => {
            return Err(ParamError::BadBounds);
        },
        Some(p) => p,
    };
    if w == 0 || h == 0 {
        return Err(ParamError::BadBounds);
    }
    if w > u32::MAX as u64 || h > u32::MAX as u64 {
        return Err(ParamError::BoundsTooLarge);
    }
    proof {
        lemma_mul_le(w as int, h as int, u64::MAX as int, u64::MAX as int);
    }
    if (w as u128) * (h as u128) > usize::MAX as u128 {
        return Err(ParamError::BoundsTooLarge);
    }
    let ul = match parse_complex(upper_left) {
        None => {
            return Err(ParamError::BadUpperLeft);
        },
        Some(c) => c,
    };
    let lr = match parse_complex(lower_right) {
        None => {
            return Err(ParamError::BadLowerRight);
        },
        Some(c) => c,
    };
    if ul.re == lr.re || ul.im == lr.im {
        return Err(ParamError::EmptyWindow);
    }
    Ok(RenderParams { width: w as usize, height: h as usize, upper_left: ul, lower_right: lr })
}

/// The whole request pipeline: parse and validate the parameter strings,
/// render the raster with the given worker count, and serialize the
/// buffer as a PNG. Valid parameters always yield `Ok`, and its bytes are
/// pinned: the encoder's stream for exactly the rendering that the
/// parameters describe.
pub fn handle_render(bounds: &str, upper_left: &str, lower_right: &str, workers: usize) -> (r:
    Result<Vec<u8>, ParamError>)
    requires
        1 <= workers,
    ensures
        ({
            let bb = bounds.spec_bytes();
            let ub = upper_left.spec_bytes();
            let lb = lower_right.spec_bytes();
            match r {
                Ok(bytes) => params_valid(bb, ub, lb) && bytes@ == png_of(
                    bounds_w(bb) as u32,
                    bounds_h(bb) as u32,
                    render_spec(
                        bounds_w(bb),
                        bounds_h(bb),
                        cx_of(fx_pair_left(ub, 44), fx_pair_right(ub, 44)),
                        cx_of(fx_pair_left(lb, 44), fx_pair_right(lb, 44)),
                    ),
                ),
                Err(ParamError::BadBounds) => !bounds_valid(bb),
                Err(ParamError::BoundsTooLarge) => bounds_valid(bb) && !bounds_fit(bb),
                Err(ParamError::BadUpperLeft) => bounds_valid(bb) && bounds_fit(bb) && !fx_pair_ok(
                    ub,
                    44,
                ),
                Err(ParamError::BadLowerRight) => bounds_valid(bb) && bounds_fit(bb) && fx_pair_ok(
                    ub,
                    44,
                ) && !fx_pair_ok(lb, 44),
                Err(ParamError::EmptyWindow) => bounds_valid(bb) && bounds_fit(bb) && fx_pair_ok(
                    ub,
                    44,
                ) && fx_pair_ok(lb, 44) && !window_nonempty(ub, lb),
            }
        }),
{
    let p = match build_params(bounds, upper_left, lower_right) {
        Err(e) => {
            return Err(e);
        },
        Ok(p) => p,
    };
    Ok(render_png((p.width, p.height), p.upper_left, p.lower_right, workers))
}

} // verus!
