//! The pixel-buffer renderer: every pixel's grayscale intensity is the
//! escape time of its complex point, and the buffer as a whole equals a
//! single mathematical function of the raster bounds and the window —
//! however the rows were split into bands.

use vstd::prelude::*;

use crate::bands::{band_layout, plan_bands, Band};
use crate::complex::Cx;
use crate::escape::{approx_mandelbrot_test, escapes_at};
use crate::fixed::{lemma_mul_le, COORD_MAG_MAX};
use crate::mapper::{p2p_im, p2p_re, pixel_to_point};

verus! {

/// The iteration cap used for rendering, chosen so escape counts fit one
/// byte.
pub const ITER_LIMIT: u32 = 255;

/// The first iteration below `n` at which the orbit of `c` escapes, if any.
pub open spec fn first_escape(cr: int, ci: int, n: int) -> Option<int>
    decreases n,
{
    if n <= 0 {
        None
    } else {
        match first_escape(cr, ci, n - 1) {
            Some(i) => Some(i),
            None => if escapes_at(cr, ci, n - 1) {
                Some(n - 1)
            } else {
                None
            },
        }
    }
}

/// Grayscale intensity of one complex point: points inside the set are
/// darkest (0); a point that escapes at iteration i has intensity 255 - i,
/// so faster-escaping points are brighter.
pub open spec fn shade(cr: int, ci: int) -> u8 {
    match first_escape(cr, ci, (ITER_LIMIT as int)) {
        None => 0,
        Some(i) => (255 - i) as u8,
    }
}

/// Intensity of the pixel at (col, row) of a `w` by `h` raster showing the
/// window from `upper_left` to `lower_right`.
pub open spec fn pixel_shade(w: int, h: int, upper_left: Cx, lower_right: Cx, col: int, row: int) -> u8 {
    shade(
        p2p_re(w, col, upper_left.re.val(), lower_right.re.val()),
        p2p_im(h, row, upper_left.im.val(), lower_right.im.val()),
    )
}

/// The whole rendered buffer, row-major: one byte per pixel.
pub open spec fn render_spec(w: int, h: int, upper_left: Cx, lower_right: Cx) -> Seq<u8> {
    Seq::new((w * h) as nat, |idx: int| pixel_shade(w, h, upper_left, lower_right, idx % w, idx / w))
}

/// If no iteration below `n` escapes, there is no first escape below `n`.
proof fn lemma_first_escape_none(cr: int, ci: int, n: int)
    requires
        forall|j: int| 0 <= j < n ==> !escapes_at(cr, ci, j),
    ensures
        first_escape(cr, ci, n) == None::<int>,
    decreases n,
{
    if n > 0 {
        lemma_first_escape_none(cr, ci, n - 1);
    }
}

/// The first escape below `n` is exactly the iteration at which the orbit
/// first escapes.
proof fn lemma_first_escape_some(cr: int, ci: int, n: int, i: int)
    requires
        0 <= i < n,
        escapes_at(cr, ci, i),
        forall|j: int| 0 <= j < i ==> !escapes_at(cr, ci, j),
    ensures
        first_escape(cr, ci, n) == Some(i),
    decreases n,
{
    if n - 1 > i {
        lemma_first_escape_some(cr, ci, n - 1, i);
    } else {
        lemma_first_escape_none(cr, ci, n - 1);
    }
}

/// Intensity of one pixel, computed through the coordinate mapper and the
/// escape-time evaluator.
fn pixel_value(bounds: (usize, usize), pixel: (usize, usize), upper_left: Cx, lower_right: Cx) -> (v:
    u8)
    requires
        1 <= bounds.0,
        1 <= bounds.1,
        pixel.0 < bounds.0,
        pixel.1 < bounds.1,
        upper_left.wf(),
        lower_right.wf(),
        upper_left.bounded((COORD_MAG_MAX as int)),
        lower_right.bounded((COORD_MAG_MAX as int)),
    ensures
        v == pixel_shade(
            (bounds.0 as int),
            (bounds.1 as int),
            upper_left,
            lower_right,
            (pixel.0 as int),
            (pixel.1 as int),
        ),
{
    let point = pixel_to_point(bounds, pixel, upper_left, lower_right);
    let ghost cr = point.re.val();
    let ghost ci = point.im.val();
    match approx_mandelbrot_test(point, ITER_LIMIT) {
        None => {
            proof {
                lemma_first_escape_none(cr, ci, (ITER_LIMIT as int));
            }
            0
        },
        Some(n) => {
            proof {
                lemma_first_escape_some(cr, ci, (ITER_LIMIT as int), (n as int));
            }
            255 - (n as u8)
        },
    }
}

/// Render the pixel buffer: fill `pixels` (whose length must equal
/// width times height) with the intensity of every pixel of the raster.
pub fn render(pixels: &mut Vec<u8>, bounds: (usize, usize), upper_left: Cx, lower_right: Cx)
    requires
        old(pixels)@.len() == bounds.0 * bounds.1,
        1 <= bounds.0,
        1 <= bounds.1,
        upper_left.wf(),
        lower_right.wf(),
        upper_left.bounded((COORD_MAG_MAX as int)),
        lower_right.bounded((COORD_MAG_MAX as int)),
    ensures
        final(pixels)@ == render_spec((bounds.0 as int), (bounds.1 as int), upper_left, lower_right),
{
    let w = bounds.0;
    let h = bounds.1;
    let total = pixels.len();
    let mut row: usize = 0;
    while row < h
        invariant
            pixels@.len() == (w as int) * (h as int),
            total == pixels@.len(),
            w == bounds.0,
            h == bounds.1,
            1 <= w,
            1 <= h,
            row <= h,
            upper_left.wf(),
            lower_right.wf(),
            upper_left.bounded((COORD_MAG_MAX as int)),
            lower_right.bounded((COORD_MAG_MAX as int)),
            forall|idx: int|
                0 <= idx < (row as int) * (w as int) ==> #[trigger] pixels@[idx] == pixel_shade(
                    (w as int),
                    (h as int),
                    upper_left,
                    lower_right,
                    idx % ((w as int)),
                    idx / ((w as int)),
                ),
        decreases h - row,
    {
        let mut col: usize = 0;
        while col < w
            invariant
                pixels@.len() == (w as int) * (h as int),
                total == pixels@.len(),
                w == bounds.0,
                h == bounds.1,
                1 <= w,
                1 <= h,
                row < h,
                col <= w,
                upper_left.wf(),
                lower_right.wf(),
                upper_left.bounded((COORD_MAG_MAX as int)),
                lower_right.bounded((COORD_MAG_MAX as int)),
                forall|idx: int|
                    0 <= idx < (row as int) * (w as int) + (col as int) ==> #[trigger] pixels@[idx]
                        == pixel_shade(
                        (w as int),
                        (h as int),
                        upper_left,
                        lower_right,
                        idx % ((w as int)),
                        idx / ((w as int)),
                    ),
            decreases w - col,
        {
            proof {
                assert((row as int) * (w as int) + (col as int) < (w as int) * (h as int))
                    by (nonlinear_arith)
                    requires
                        0 <= (row as int) < (h as int),
                        0 <= (col as int) < (w as int),
                ;
            }
            let idx = row * w + col;
            let v = pixel_value(bounds, (col, row), upper_left, lower_right);
            pixels[idx] = v;
            proof {
                vstd::arithmetic::div_mod::lemma_fundamental_div_mod_converse_div(
                    (idx as int),
                    (w as int),
                    (row as int),
                    (col as int),
                );
                vstd::arithmetic::div_mod::lemma_fundamental_div_mod_converse_mod(
                    (idx as int),
                    (w as int),
                    (row as int),
                    (col as int),
                );
            }
            col = col + 1;
        }
        proof {
            assert((row as int) * (w as int) + (w as int) == ((row as int) + 1) * (w as int))
                by (nonlinear_arith);
        }
        row = row + 1;
    }
    proof {
        assert(pixels@ =~= render_spec((bounds.0 as int), (bounds.1 as int), upper_left, lower_right));
    }
}

/// Render one band's rows into a fresh buffer of its own.
///
/// The pixels are computed against the full raster bounds and the full
/// window — row `r` of the band is row `band.top + r` of the raster — so
/// the band's bytes equal the corresponding slice of the whole rendering,
/// and band boundaries align seamlessly.
pub fn render_band(bounds: (usize, usize), upper_left: Cx, lower_right: Cx, band: Band) -> (out:
    Vec<u8>)
    requires
        1 <= bounds.0,
        1 <= bounds.1,
        band.top + band.height <= bounds.1,
        (band.height as int) * (bounds.0 as int) <= usize::MAX,
        upper_left.wf(),
        lower_right.wf(),
        upper_left.bounded((COORD_MAG_MAX as int)),
        lower_right.bounded((COORD_MAG_MAX as int)),
    ensures
        out@.len() == (band.height as int) * (bounds.0 as int),
        forall|idx: int|
            0 <= idx < out@.len() ==> #[trigger] out@[idx] == pixel_shade(
                (bounds.0 as int),
                (bounds.1 as int),
                upper_left,
                lower_right,
                idx % ((bounds.0 as int)),
                band.top + idx / ((bounds.0 as int)),
            ),
{
    let w = bounds.0;
    let mut out: Vec<u8> = Vec::new();
    let mut r: usize = 0;
    while r < band.height
        invariant
            1 <= w,
            w == bounds.0,
            1 <= bounds.1,
            band.top + band.height <= bounds.1,
            (band.height as int) * (w as int) <= usize::MAX,
            r <= band.height,
            out@.len() == (r as int) * (w as int),
            upper_left.wf(),
            lower_right.wf(),
            upper_left.bounded((COORD_MAG_MAX as int)),
            lower_right.bounded((COORD_MAG_MAX as int)),
            forall|idx: int|
                0 <= idx < out@.len() ==> #[trigger] out@[idx] == pixel_shade(
                    (w as int),
                    (bounds.1 as int),
                    upper_left,
                    lower_right,
                    idx % ((w as int)),
                    band.top + idx / ((w as int)),
                ),
        decreases band.height - r,
    {
        let mut col: usize = 0;
        while col < w
            invariant
                1 <= w,
                w == bounds.0,
                1 <= bounds.1,
                band.top + band.height <= bounds.1,
                (band.height as int) * (w as int) <= usize::MAX,
                r < band.height,
                col <= w,
                out@.len() == (r as int) * (w as int) + (col as int),
                upper_left.wf(),
                lower_right.wf(),
                upper_left.bounded((COORD_MAG_MAX as int)),
                lower_right.bounded((COORD_MAG_MAX as int)),
                forall|idx: int|
                    0 <= idx < out@.len() ==> #[trigger] out@[idx] == pixel_shade(
                        (w as int),
                        (bounds.1 as int),
                        upper_left,
                        lower_right,
                        idx % ((w as int)),
                        band.top + idx / ((w as int)),
                    ),
            decreases w - col,
        {
            proof {
                assert((r as int) * (w as int) + (col as int) < (band.height as int) * (w as int))
                    by (nonlinear_arith)
                    requires
                        0 <= (r as int) < (band.height as int),
                        0 <= (col as int) < (w as int),
                ;
            }
            let v = pixel_value(bounds, (col, band.top + r), upper_left, lower_right);
            let ghost oldlen = out@.len() as int;
            out.push(v);
            proof {
                vstd::arithmetic::div_mod::lemma_fundamental_div_mod_converse_div(
                    oldlen,
                    (w as int),
                    (r as int),
                    (col as int),
                );
                vstd::arithmetic::div_mod::lemma_fundamental_div_mod_converse_mod(
                    oldlen,
                    (w as int),
                    (r as int),
                    (col as int),
                );
            }
            col = col + 1;
        }
        proof {
            assert((r as int) * (w as int) + (w as int) == ((r as int) + 1) * (w as int))
                by (nonlinear_arith);
        }
        r = r + 1;
    }
    out
}

/// Render the full raster band by band: split the rows into one band per
/// worker, render each band into its own buffer, and join the buffers in
/// row order. The result is the same single function of bounds and window
/// as `render`'s, whatever the worker count.
pub fn render_image(bounds: (usize, usize), upper_left: Cx, lower_right: Cx, workers: usize) -> (out:
    Vec<u8>)
    requires
        1 <= bounds.0,
        1 <= bounds.1,
        1 <= workers,
        (bounds.0 as int) * (bounds.1 as int) <= usize::MAX,
        upper_left.wf(),
        lower_right.wf(),
        upper_left.bounded((COORD_MAG_MAX as int)),
        lower_right.bounded((COORD_MAG_MAX as int)),
    ensures
        out@ == render_spec((bounds.0 as int), (bounds.1 as int), upper_left, lower_right),
        out@.len() == (bounds.0 as int) * (bounds.1 as int),
{
    let w = bounds.0;
    let h = bounds.1;
    let bands = plan_bands(h, workers);
    let mut out: Vec<u8> = Vec::new();
    let mut b: usize = 0;
    proof {
        assert((0int) * (w as int) == 0) by (nonlinear_arith);
    }
    while b < bands.len()
        invariant
            1 <= w,
            1 <= h,
            w == bounds.0,
            h == bounds.1,
            1 <= workers,
            (w as int) * (h as int) <= usize::MAX,
            band_layout(bands@, h as int, workers as int),
            forall|k: int|
                0 <= k < bands@.len() - 1 ==> (#[trigger] bands@[k]).top + bands@[k].height
                    == bands@[k + 1].top,
            b <= bands@.len(),
            out@.len() == (if b < bands@.len() {
                bands@[b as int].top as int
            } else {
                h as int
            }) * (w as int),
            upper_left.wf(),
            lower_right.wf(),
            upper_left.bounded((COORD_MAG_MAX as int)),
            lower_right.bounded((COORD_MAG_MAX as int)),
            forall|idx: int|
                0 <= idx < out@.len() ==> #[trigger] out@[idx] == pixel_shade(
                    (w as int),
                    (h as int),
                    upper_left,
                    lower_right,
                    idx % ((w as int)),
                    idx / ((w as int)),
                ),
        decreases bands@.len() - b,
    {
        let band = bands[b];
        proof {
            lemma_mul_le(band.height as int, w as int, h as int, w as int);
        }
        let mut bv = render_band(bounds, upper_left, lower_right, band);
        let ghost bvv = bv@;
        let ghost oldlen = out@.len() as int;
        let ghost top = band.top as int;
        let ghost wi = w as int;
        out.append(&mut bv);
        proof {
            assert((top + band.height as int) * wi == top * wi + (band.height as int) * wi)
                by (nonlinear_arith);
            assert forall|idx: int| 0 <= idx < out@.len() implies #[trigger] out@[idx]
                == pixel_shade(
                wi,
                (h as int),
                upper_left,
                lower_right,
                idx % wi,
                idx / wi,
            ) by {
                if idx >= oldlen {
                    let local = idx - oldlen;
                    vstd::arithmetic::div_mod::lemma_fundamental_div_mod(local, wi);
                    vstd::arithmetic::div_mod::lemma_mod_bound(local, wi);
                    let q = local / wi;
                    let r = local % wi;
                    assert(out@[idx] == bvv[local]);
                    assert(idx == (top + q) * wi + r) by (nonlinear_arith)
                        requires
                            idx == top * wi + local,
                            local == q * wi + r,
                    ;
                    vstd::arithmetic::div_mod::lemma_fundamental_div_mod_converse_div(
                        idx,
                        wi,
                        top + q,
                        r,
                    );
                    vstd::arithmetic::div_mod::lemma_fundamental_div_mod_converse_mod(
                        idx,
                        wi,
                        top + q,
                        r,
                    );
                }
            }
        }
        b = b + 1;
    }
    proof {
        assert((h as int) * (w as int) == (w as int) * (h as int)) by (nonlinear_arith);
        assert(out@ =~= render_spec((bounds.0 as int), (bounds.1 as int), upper_left, lower_right));
    }
    out
}

/// Determinism of rendering: the rendered buffer is one mathematical
/// function of the raster bounds and the window alone, so two renders with
/// identical bounds and window — however many workers each used — are
/// byte-identical.
pub proof fn lemma_render_deterministic(a: Seq<u8>, b: Seq<u8>, w: int, h: int, upper_left: Cx, lower_right: Cx)
    requires
        a == render_spec(w, h, upper_left, lower_right),
        b == render_spec(w, h, upper_left, lower_right),
    ensures
        a == b,
{
}

} // verus!
