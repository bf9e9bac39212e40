//! What holds of trimming: the bounding box is unique, cropping keeps every
//! pixel, and a trimmed raster cannot be trimmed any further.

use vstd::prelude::*;
use crate::raster::byte_index;
use crate::raster::lemma_byte_index_bounds;
use crate::raster::lemma_byte_index_decompose;
use crate::raster::lemma_byte_index_recover;
use crate::raster::BoundingBox;
use crate::trim::any_visible;
use crate::trim::crop;
use crate::trim::is_bounding_box;
use crate::trim::is_trimmed;
use crate::trim::visible;

verus! {

/// The least index at or below `k` at which `p` holds.
proof fn least_index(p: spec_fn(int) -> bool, k: int) -> (m: int)
    requires
        0 <= k,
        p(k),
    ensures
        0 <= m <= k,
        p(m),
        forall|j: int| 0 <= j < m ==> !#[trigger] p(j),
    decreases k,
{
    if exists|j: int| 0 <= j < k && #[trigger] p(j) {
        let j = choose|j: int| 0 <= j < k && #[trigger] p(j);
        least_index(p, j)
    } else {
        k
    }
}

/// The greatest index from `k` up to, but not including, `n` at which `p`
/// holds.
proof fn greatest_index(p: spec_fn(int) -> bool, k: int, n: int) -> (m: int)
    requires
        0 <= k < n,
        p(k),
    ensures
        k <= m < n,
        p(m),
        forall|j: int| m < j < n ==> !#[trigger] p(j),
    decreases n - k,
{
    if exists|j: int| k < j < n && #[trigger] p(j) {
        let j = choose|j: int| k < j < n && #[trigger] p(j);
        greatest_index(p, j, n)
    } else {
        k
    }
}

/// Some pixel of column `x` is visible.
pub open spec fn column_visible(
    rgba: Seq<u8>,
    width: int,
    height: int,
    threshold: u8,
    x: int,
) -> bool {
    exists|y: int| 0 <= y < height && #[trigger] visible(rgba, width, x, y, threshold)
}

/// Some pixel of row `y` is visible.
pub open spec fn row_visible(rgba: Seq<u8>, width: int, height: int, threshold: u8, y: int) -> bool {
    exists|x: int| 0 <= x < width && #[trigger] visible(rgba, width, x, y, threshold)
}

/// A raster with a visible pixel has a bounding box of its visible pixels.
pub proof fn bounding_box_exists(rgba: Seq<u8>, width: int, height: int, threshold: u8) -> (b:
    BoundingBox)
    requires
        any_visible(rgba, width, height, threshold),
        width - 1 <= usize::MAX,
        height - 1 <= usize::MAX,
    ensures
        is_bounding_box(rgba, width, height, threshold, b),
{
    let (x0, y0) = choose|x: int, y: int|
        0 <= x < width && 0 <= y < height && #[trigger] visible(rgba, width, x, y, threshold);
    assert(visible(rgba, width, x0, y0, threshold));
    let in_column = |x: int| column_visible(rgba, width, height, threshold, x);
    let in_row = |y: int| row_visible(rgba, width, height, threshold, y);
    assert(in_column(x0));
    assert(in_row(y0));
    let min_x = least_index(in_column, x0);
    let max_x = greatest_index(in_column, x0, width);
    let min_y = least_index(in_row, y0);
    let max_y = greatest_index(in_row, y0, height);
    let b = BoundingBox {
        min_x: min_x as usize,
        min_y: min_y as usize,
        max_x: max_x as usize,
        max_y: max_y as usize,
    };
    assert forall|x: int, y: int|
        0 <= x < width && 0 <= y < height && #[trigger] visible(
            rgba,
            width,
            x,
            y,
            threshold,
        ) implies b.min_x <= x <= b.max_x && b.min_y <= y <= b.max_y by {
        assert(in_column(x));
        assert(in_row(y));
    }
    assert(in_column(min_x) && in_column(max_x) && in_row(min_y) && in_row(max_y));
    b
}

/// A raster has at most one bounding box of its visible pixels.
pub proof fn bounding_box_unique(
    rgba: Seq<u8>,
    width: int,
    height: int,
    threshold: u8,
    a: BoundingBox,
    b: BoundingBox,
)
    requires
        is_bounding_box(rgba, width, height, threshold, a),
        is_bounding_box(rgba, width, height, threshold, b),
    ensures
        a == b,
{
    let a_row_min = choose|y: int|
        0 <= y < height && #[trigger] visible(rgba, width, a.min_x as int, y, threshold);
    let a_row_max = choose|y: int|
        0 <= y < height && #[trigger] visible(rgba, width, a.max_x as int, y, threshold);
    let a_col_min = choose|x: int|
        0 <= x < width && #[trigger] visible(rgba, width, x, a.min_y as int, threshold);
    let a_col_max = choose|x: int|
        0 <= x < width && #[trigger] visible(rgba, width, x, a.max_y as int, threshold);
    let b_row_min = choose|y: int|
        0 <= y < height && #[trigger] visible(rgba, width, b.min_x as int, y, threshold);
    let b_row_max = choose|y: int|
        0 <= y < height && #[trigger] visible(rgba, width, b.max_x as int, y, threshold);
    let b_col_min = choose|x: int|
        0 <= x < width && #[trigger] visible(rgba, width, x, b.min_y as int, threshold);
    let b_col_max = choose|x: int|
        0 <= x < width && #[trigger] visible(rgba, width, x, b.max_y as int, threshold);
    assert(visible(rgba, width, a.min_x as int, a_row_min, threshold));
    assert(visible(rgba, width, a.max_x as int, a_row_max, threshold));
    assert(visible(rgba, width, a_col_min, a.min_y as int, threshold));
    assert(visible(rgba, width, a_col_max, a.max_y as int, threshold));
    assert(visible(rgba, width, b.min_x as int, b_row_min, threshold));
    assert(visible(rgba, width, b.max_x as int, b_row_max, threshold));
    assert(visible(rgba, width, b_col_min, b.min_y as int, threshold));
    assert(visible(rgba, width, b_col_max, b.max_y as int, threshold));
}

/// Every raster has a trimmed form.
pub proof fn trimmed_exists(rgba: Seq<u8>, width: int, height: int, threshold: u8) -> (out: (
    Seq<u8>,
    int,
    int,
))
    requires
        width - 1 <= usize::MAX,
        height - 1 <= usize::MAX,
    ensures
        is_trimmed(out, rgba, width, height, threshold),
{
    if any_visible(rgba, width, height, threshold) {
        let b = bounding_box_exists(rgba, width, height, threshold);
        (crop(rgba, width, b), b.spec_width(), b.spec_height())
    } else {
        (rgba, width, height)
    }
}

/// A raster has exactly one trimmed form.
pub proof fn trimmed_unique(
    rgba: Seq<u8>,
    width: int,
    height: int,
    threshold: u8,
    first: (Seq<u8>, int, int),
    second: (Seq<u8>, int, int),
)
    requires
        is_trimmed(first, rgba, width, height, threshold),
        is_trimmed(second, rgba, width, height, threshold),
    ensures
        first == second,
{
    if any_visible(rgba, width, height, threshold) {
        let a = choose|b: BoundingBox|
            #![trigger is_bounding_box(rgba, width, height, threshold, b)]
            is_bounding_box(rgba, width, height, threshold, b) && first == (
                crop(rgba, width, b),
                b.spec_width(),
                b.spec_height(),
            );
        let b = choose|b: BoundingBox|
            #![trigger is_bounding_box(rgba, width, height, threshold, b)]
            is_bounding_box(rgba, width, height, threshold, b) && second == (
                crop(rgba, width, b),
                b.spec_width(),
                b.spec_height(),
            );
        bounding_box_unique(rgba, width, height, threshold, a, b);
    }
}

/// Cropping copies pixels byte for byte: channel `c` of the pixel at
/// (`x`, `y`) of the cropped raster is channel `c` of the source pixel at
/// (`b.min_x + x`, `b.min_y + y`).
pub proof fn crop_keeps_pixels(rgba: Seq<u8>, width: int, b: BoundingBox, x: int, y: int, c: int)
    requires
        0 <= x < b.spec_width(),
        0 <= y < b.spec_height(),
        0 <= c < 4,
    ensures
        0 <= byte_index(x, y, c, b.spec_width()) < crop(rgba, width, b).len(),
        crop(rgba, width, b)[byte_index(x, y, c, b.spec_width())] == rgba[byte_index(
            b.min_x + x,
            b.min_y + y,
            c,
            width,
        )],
{
    lemma_byte_index_bounds(x, y, c, b.spec_width(), b.spec_height());
    lemma_byte_index_recover(x, y, c, b.spec_width());
}

/// A pixel of the cropped raster is visible exactly when the source pixel it
/// was copied from is.
pub proof fn crop_keeps_visibility(
    rgba: Seq<u8>,
    width: int,
    b: BoundingBox,
    x: int,
    y: int,
    threshold: u8,
)
    requires
        0 <= x < b.spec_width(),
        0 <= y < b.spec_height(),
    ensures
        visible(crop(rgba, width, b), b.spec_width(), x, y, threshold) == visible(
            rgba,
            width,
            b.min_x + x,
            b.min_y + y,
            threshold,
        ),
{
    crop_keeps_pixels(rgba, width, b, x, y, 3);
}

/// A raster with a visible pixel is trimmed to exactly the extent of its
/// visible pixels, and every byte of the result is the byte of the source
/// pixel it stands for.
pub proof fn trim_keeps_visible_region(
    rgba: Seq<u8>,
    width: int,
    height: int,
    threshold: u8,
    out: (Seq<u8>, int, int),
)
    requires
        any_visible(rgba, width, height, threshold),
        is_trimmed(out, rgba, width, height, threshold),
    ensures
        exists|b: BoundingBox|
            #![trigger is_bounding_box(rgba, width, height, threshold, b)]
            {
                &&& is_bounding_box(rgba, width, height, threshold, b)
                &&& out.1 == b.max_x - b.min_x + 1
                &&& out.2 == b.max_y - b.min_y + 1
                &&& out.0.len() == out.1 * out.2 * 4
                &&& forall|x: int, y: int, c: int|
                    0 <= x < out.1 && 0 <= y < out.2 && 0 <= c < 4 ==> #[trigger] out.0[byte_index(
                        x,
                        y,
                        c,
                        out.1,
                    )] == rgba[byte_index(b.min_x + x, b.min_y + y, c, width)]
            },
{
    let b = choose|b: BoundingBox|
        #![trigger is_bounding_box(rgba, width, height, threshold, b)]
        is_bounding_box(rgba, width, height, threshold, b) && out == (
            crop(rgba, width, b),
            b.spec_width(),
            b.spec_height(),
        );
    assert(b.spec_width() * b.spec_height() * 4 >= 0) by (nonlinear_arith)
        requires
            b.spec_width() > 0,
            b.spec_height() > 0,
    ;
    assert forall|x: int, y: int, c: int|
        0 <= x < out.1 && 0 <= y < out.2 && 0 <= c < 4 implies #[trigger] out.0[byte_index(
        x,
        y,
        c,
        out.1,
    )] == rgba[byte_index(b.min_x + x, b.min_y + y, c, width)] by {
        crop_keeps_pixels(rgba, width, b, x, y, c);
    }
}

/// Cropping a raster to its whole frame changes nothing.
pub proof fn crop_full_frame_is_identity(rgba: Seq<u8>, width: int, height: int)
    requires
        rgba.len() == width * height * 4,
        0 <= width - 1 <= usize::MAX,
        0 <= height - 1 <= usize::MAX,
    ensures
        crop(rgba, width, BoundingBox::full_frame(width, height)) == rgba,
{
    let full = BoundingBox::full_frame(width, height);
    let cropped = crop(rgba, width, full);
    assert(full.spec_width() == width && full.spec_height() == height);
    assert forall|i: int| 0 <= i < rgba.len() implies cropped[i] == rgba[i] by {
        lemma_byte_index_decompose(i, width, height);
    }
    assert(cropped =~= rgba);
}

/// After trimming, the visible pixels reach all four edges: the bounding box
/// of the cropped raster is its whole frame.
pub proof fn trimmed_box_is_full_frame(
    rgba: Seq<u8>,
    width: int,
    height: int,
    threshold: u8,
    b: BoundingBox,
)
    requires
        is_bounding_box(rgba, width, height, threshold, b),
    ensures
        is_bounding_box(
            crop(rgba, width, b),
            b.spec_width(),
            b.spec_height(),
            threshold,
            BoundingBox::full_frame(b.spec_width(), b.spec_height()),
        ),
{
    let new_width = b.spec_width();
    let new_height = b.spec_height();
    let cropped = crop(rgba, width, b);
    let full = BoundingBox::full_frame(new_width, new_height);
    let row_min = choose|y: int|
        0 <= y < height && #[trigger] visible(rgba, width, b.min_x as int, y, threshold);
    let row_max = choose|y: int|
        0 <= y < height && #[trigger] visible(rgba, width, b.max_x as int, y, threshold);
    let col_min = choose|x: int|
        0 <= x < width && #[trigger] visible(rgba, width, x, b.min_y as int, threshold);
    let col_max = choose|x: int|
        0 <= x < width && #[trigger] visible(rgba, width, x, b.max_y as int, threshold);
    assert(visible(rgba, width, b.min_x as int, row_min, threshold));
    assert(visible(rgba, width, b.max_x as int, row_max, threshold));
    assert(visible(rgba, width, col_min, b.min_y as int, threshold));
    assert(visible(rgba, width, col_max, b.max_y as int, threshold));
    crop_keeps_visibility(rgba, width, b, 0, row_min - b.min_y, threshold);
    crop_keeps_visibility(rgba, width, b, new_width - 1, row_max - b.min_y, threshold);
    crop_keeps_visibility(rgba, width, b, col_min - b.min_x, 0, threshold);
    crop_keeps_visibility(rgba, width, b, col_max - b.min_x, new_height - 1, threshold);
    assert(visible(cropped, new_width, full.min_x as int, row_min - b.min_y, threshold));
    assert(visible(cropped, new_width, full.max_x as int, row_max - b.min_y, threshold));
    assert(visible(cropped, new_width, col_min - b.min_x, full.min_y as int, threshold));
    assert(visible(cropped, new_width, col_max - b.min_x, full.max_y as int, threshold));
}

/// Trimming is idempotent: the trimmed form of a raster is its own trimmed
/// form, so a second pass with the same threshold shrinks nothing.
pub proof fn trim_idempotent(
    rgba: Seq<u8>,
    width: int,
    height: int,
    threshold: u8,
    out: (Seq<u8>, int, int),
)
    requires
        is_trimmed(out, rgba, width, height, threshold),
    ensures
        is_trimmed(out, out.0, out.1, out.2, threshold),
{
    if any_visible(rgba, width, height, threshold) {
        let b = choose|b: BoundingBox|
            #![trigger is_bounding_box(rgba, width, height, threshold, b)]
            is_bounding_box(rgba, width, height, threshold, b) && out == (
                crop(rgba, width, b),
                b.spec_width(),
                b.spec_height(),
            );
        let full = BoundingBox::full_frame(out.1, out.2);
        trimmed_box_is_full_frame(rgba, width, height, threshold, b);
        assert(b.spec_width() * b.spec_height() * 4 >= 0) by (nonlinear_arith)
            requires
                b.spec_width() > 0,
                b.spec_height() > 0,
        ;
        crop_full_frame_is_identity(out.0, out.1, out.2);
        assert(full.spec_width() == out.1 && full.spec_height() == out.2);
        let row = choose|y: int|
            0 <= y < out.2 && #[trigger] visible(out.0, out.1, full.min_x as int, y, threshold);
        assert(visible(out.0, out.1, 0, row, threshold));
        assert(any_visible(out.0, out.1, out.2, threshold));
        assert(is_bounding_box(out.0, out.1, out.2, threshold, full) && out == (
            crop(out.0, out.1, full),
            full.spec_width(),
            full.spec_height(),
        ));
    }
}

} // verus!
