//! Bounding-box derivation: a box centered on the image that covers a
//! configured percentage of each dimension, computed with truncating
//! integer arithmetic.

use vstd::prelude::*;

verus! {

/// Side length of the covered box along one dimension: the dimension scaled
/// by the coverage percentage, truncated.
pub open spec fn box_side(dim: int, coverage: int) -> int {
    dim * coverage / 100
}

/// The box `(xmin, ymin, xmax, ymax)` of `calculate_bounding_box`: centered at
/// `(width / 2, height / 2)`, all divisions truncating.
pub open spec fn bbox_spec(width: int, height: int, coverage: int) -> (int, int, int, int) {
    let bw = box_side(width, coverage);
    let bh = box_side(height, coverage);
    let xmin = width / 2 - bw / 2;
    let ymin = height / 2 - bh / 2;
    (xmin, ymin, xmin + bw, ymin + bh)
}

/// The scaled side never exceeds the dimension while the coverage percentage
/// is at most 100.
proof fn lemma_box_side_le_dim(dim: int, coverage: int)
    requires
        0 <= dim,
        0 <= coverage <= 100,
    ensures
        0 <= box_side(dim, coverage) <= dim,
{
    assert(0 <= dim * coverage / 100 <= dim) by (nonlinear_arith)
        requires
            0 <= dim,
            0 <= coverage <= 100,
    ;
}

/// Derives the centered bounding box for an image of `width` by `height`
/// pixels covering `coverage_percent` percent of each dimension.
pub fn calculate_bounding_box(width: u32, height: u32, coverage_percent: u32) -> (r: (
    u32,
    u32,
    u32,
    u32,
))
    requires
        coverage_percent <= 100,
    ensures
        (r.0 as int, r.1 as int, r.2 as int, r.3 as int) == bbox_spec(
            width as int,
            height as int,
            coverage_percent as int,
        ),
{
    proof {
        lemma_box_side_le_dim(width as int, coverage_percent as int);
        lemma_box_side_le_dim(height as int, coverage_percent as int);
    }
    let w = ((width as u64) * (coverage_percent as u64) / 100) as u32;
    let h = ((height as u64) * (coverage_percent as u64) / 100) as u32;
    let xmin = width / 2 - w / 2;
    let ymin = height / 2 - h / 2;
    let xmax = xmin + w;
    let ymax = ymin + h;
    (xmin, ymin, xmax, ymax)
}

/// For any image at least two pixels wide and high and any coverage percentage
/// up to 100, the box lies inside the image, its corners are ordered, and it
/// is centered within one unit of rounding in each direction.
pub proof fn lemma_bbox_within_image(width: int, height: int, coverage: int)
    requires
        2 <= width,
        2 <= height,
        0 <= coverage <= 100,
    ensures
        ({
            let (xmin, ymin, xmax, ymax) = bbox_spec(width, height, coverage);
            &&& 0 <= xmin <= xmax <= width
            &&& 0 <= ymin <= ymax <= height
            &&& -1 <= xmin - (width - xmax) <= 1
            &&& -1 <= ymin - (height - ymax) <= 1
        }),
{
    lemma_box_side_le_dim(width, coverage);
    lemma_box_side_le_dim(height, coverage);
}

/// Full coverage of an image with even dimensions yields exactly the whole
/// image: `bbox_spec(w, h, 100) == (0, 0, w, h)`.
pub proof fn lemma_bbox_full_coverage(width: int, height: int)
    requires
        0 <= width,
        0 <= height,
        width % 2 == 0,
        height % 2 == 0,
    ensures
        bbox_spec(width, height, 100) == (0int, 0int, width, height),
{
    assert(width * 100 / 100 == width) by (nonlinear_arith)
        requires
            0 <= width,
    ;
    assert(height * 100 / 100 == height) by (nonlinear_arith)
        requires
            0 <= height,
    ;
}

} // verus!
