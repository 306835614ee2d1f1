//! The band scheduler's partitioning: a raster of `h` rows is split into
//! contiguous horizontal bands, one unit of work per band. Bands cover the
//! rows exactly once — no gap, no overlap.

use vstd::prelude::*;

use crate::fixed::lemma_div_le;

verus! {

/// A maximal contiguous run of whole rows: `height` rows starting at row
/// `top` of the full raster.
#[derive(Clone, Copy, PartialEq, Eq, Structural, Debug)]
pub struct Band {
    pub top: usize,
    pub height: usize,
}

/// Nominal rows per band for `workers` bands over `h` rows: the exact
/// ceiling of `h / workers`.
pub open spec fn rows_per_band(h: int, workers: int) -> int {
    (h - 1) / workers + 1
}

/// Does a band own a given row of the raster?
pub open spec fn band_contains(b: Band, row: int) -> bool {
    b.top <= row < b.top + b.height
}

/// The shape of a band partition of `h` rows for `workers` workers: band
/// `k` starts at row `k * rows_per_band` and runs for the nominal count of
/// rows, except that the final band stops at row `h`.
pub open spec fn band_layout(bands: Seq<Band>, h: int, workers: int) -> bool {
    let rpb = rows_per_band(h, workers);
    &&& bands.len() >= 1
    &&& forall|k: int|
        0 <= k < bands.len() ==> {
            &&& (#[trigger] bands[k]).top == k * rpb
            &&& bands[k].height == if (k + 1) * rpb <= h {
                rpb
            } else {
                h - k * rpb
            }
            &&& 1 <= bands[k].height
            &&& bands[k].top + bands[k].height <= h
        }
    &&& bands[bands.len() - 1].top + bands[bands.len() - 1].height == h
}

/// Split `h` rows into at most `workers` contiguous bands of equal nominal
/// height, the final band possibly shorter.
pub fn plan_bands(h: usize, workers: usize) -> (r: Vec<Band>)
    requires
        1 <= h,
        1 <= workers,
    ensures
        band_layout(r@, h as int, workers as int),
        r@[0].top == 0,
        forall|k: int|
            0 <= k < r@.len() - 1 ==> (#[trigger] r@[k]).top + r@[k].height == r@[k + 1].top,
{
    let rpb = (h - 1) / workers + 1;
    let ghost gh = h as int;
    let ghost grpb: int = rpb as int;
    let mut bands: Vec<Band> = Vec::new();
    let mut top: usize = 0;
    proof {
        lemma_div_le(gh - 1, workers as int);
        assert(0 * grpb == 0) by (nonlinear_arith);
    }
    while top < h
        invariant
            1 <= rpb <= h,
            grpb == rpb as int,
            grpb == rows_per_band(gh, workers as int),
            gh == h as int,
            top <= h,
            bands@.len() == 0 ==> top == 0,
            top == h || top == bands@.len() * grpb,
            forall|k: int|
                0 <= k < bands@.len() ==> {
                    &&& (#[trigger] bands@[k]).top == k * grpb
                    &&& bands@[k].height == if (k + 1) * grpb <= gh {
                        grpb
                    } else {
                        gh - k * grpb
                    }
                    &&& 1 <= bands@[k].height
                    &&& bands@[k].top + bands@[k].height <= gh
                },
            bands@.len() >= 1 ==> bands@[bands@.len() - 1].top + bands@[bands@.len() - 1].height
                == top,
        decreases h - top,
    {
        let ghost n = bands@.len() as int;
        let height = if h - top >= rpb {
            rpb
        } else {
            h - top
        };
        proof {
            assert((n + 1) * grpb == n * grpb + grpb) by (nonlinear_arith);
        }
        bands.push(Band { top, height });
        top = top + height;
    }
    proof {
        let rpbi = rows_per_band(gh, workers as int);
        assert forall|k: int| 0 <= k < bands@.len() - 1 implies (#[trigger] bands@[k]).top
            + bands@[k].height == bands@[k + 1].top by {
            assert((k + 1) * rpbi == k * rpbi + rpbi) by (nonlinear_arith);
        }
        assert(bands@[0].top == 0 * rpbi);
    }
    bands
}

/// The bands of a partition cover every row of the raster exactly once:
/// each row of `[0, h)` lies in one band, and in only one.
pub proof fn lemma_bands_partition(bands: Seq<Band>, h: int, workers: int, row: int)
    requires
        1 <= h,
        1 <= workers,
        band_layout(bands, h, workers),
        0 <= row < h,
    ensures
        exists|k: int| 0 <= k < bands.len() && band_contains(#[trigger] bands[k], row),
        forall|k1: int, k2: int|
            (0 <= k1 < bands.len() && band_contains(#[trigger] bands[k1], row) && 0 <= k2
                < bands.len() && band_contains(#[trigger] bands[k2], row)) ==> k1 == k2,
{
    let rpb = rows_per_band(h, workers);
    let kw = row / rpb;
    vstd::arithmetic::div_mod::lemma_fundamental_div_mod(row, rpb);
    vstd::arithmetic::div_mod::lemma_mod_bound(row, rpb);
    lemma_div_le(row, rpb);
    // The candidate band index is in range: past the last band every row
    // index would be at least h.
    let last = bands.len() - 1;
    if kw > last {
        vstd::arithmetic::mul::lemma_mul_inequality(last + 1, kw, rpb);
        assert(bands[last].top + bands[last].height <= last * rpb + rpb);
        assert((last + 1) * rpb == last * rpb + rpb) by (nonlinear_arith);
        assert(row >= kw * rpb);
        assert(false);
    }
    assert((kw + 1) * rpb == kw * rpb + rpb) by (nonlinear_arith);
    assert(band_contains(bands[kw], row));
    // Uniqueness: a band containing the row determines the quotient.
    assert forall|k1: int|
        0 <= k1 < bands.len() && band_contains(#[trigger] bands[k1], row) implies k1 == kw by {
        assert((k1 + 1) * rpb == k1 * rpb + rpb) by (nonlinear_arith);
        assert(k1 * rpb <= row < k1 * rpb + rpb);
        vstd::arithmetic::div_mod::lemma_fundamental_div_mod_converse_div(
            row,
            rpb,
            k1,
            row - k1 * rpb,
        );
    }
}

} // verus!
