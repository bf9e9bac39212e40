//! Removing the fully transparent border of an RGBA raster.

use vstd::prelude::*;
use vstd::slice::slice_to_vec;
use crate::raster::byte_index;
use crate::raster::lemma_byte_index_bounds;
use crate::raster::lemma_byte_index_recover;
use crate::raster::BoundingBox;
use crate::raster::RasterImage;

verus! {

/// A pixel is visible when its alpha channel strictly exceeds the threshold.
pub open spec fn visible(rgba: Seq<u8>, width: int, x: int, y: int, threshold: u8) -> bool {
    rgba[byte_index(x, y, 3, width)] > threshold
}

/// Some pixel of the raster is visible.
pub open spec fn any_visible(rgba: Seq<u8>, width: int, height: int, threshold: u8) -> bool {
    exists|x: int, y: int|
        0 <= x < width && 0 <= y < height && #[trigger] visible(rgba, width, x, y, threshold)
}

/// `b` is the smallest box that encloses every visible pixel: all of them lie
/// inside it, and each of its four edges holds one.
pub open spec fn is_bounding_box(
    rgba: Seq<u8>,
    width: int,
    height: int,
    threshold: u8,
    b: BoundingBox,
) -> bool {
    &&& b.within(width, height)
    &&& forall|x: int, y: int|
        0 <= x < width && 0 <= y < height && #[trigger] visible(rgba, width, x, y, threshold)
            ==> b.min_x <= x <= b.max_x && b.min_y <= y <= b.max_y
    &&& exists|y: int|
        0 <= y < height && #[trigger] visible(rgba, width, b.min_x as int, y, threshold)
    &&& exists|y: int|
        0 <= y < height && #[trigger] visible(rgba, width, b.max_x as int, y, threshold)
    &&& exists|x: int|
        0 <= x < width && #[trigger] visible(rgba, width, x, b.min_y as int, threshold)
    &&& exists|x: int|
        0 <= x < width && #[trigger] visible(rgba, width, x, b.max_y as int, threshold)
}

/// Where in the source buffer byte `i` of the cropped buffer comes from.
pub open spec fn crop_source_index(i: int, width: int, b: BoundingBox) -> int {
    let pixel = i / 4;
    byte_index(
        b.min_x + pixel % b.spec_width(),
        b.min_y + pixel / b.spec_width(),
        i % 4,
        width,
    )
}

/// The pixels of `rgba` that lie inside `b`, row by row.
pub open spec fn crop(rgba: Seq<u8>, width: int, b: BoundingBox) -> Seq<u8> {
    Seq::new(
        (b.spec_width() * b.spec_height() * 4) as nat,
        |i: int| rgba[crop_source_index(i, width, b)],
    )
}

/// `out` (buffer, width, height) is the raster cut down to the bounding box of
/// its visible pixels, or the raster itself when it has none.
pub open spec fn is_trimmed(
    out: (Seq<u8>, int, int),
    rgba: Seq<u8>,
    width: int,
    height: int,
    threshold: u8,
) -> bool {
    if any_visible(rgba, width, height, threshold) {
        exists|b: BoundingBox|
            #![trigger is_bounding_box(rgba, width, height, threshold, b)]
            is_bounding_box(rgba, width, height, threshold, b) && out == (
                crop(rgba, width, b),
                b.spec_width(),
                b.spec_height(),
            )
    } else {
        out == (rgba, width, height)
    }
}

/// Scans every pixel once and returns the bounding box of the visible ones,
/// or `None` when there is none.
pub fn find_bounding_box(rgba: &[u8], width: usize, height: usize, threshold: u8) -> (found:
    Option<BoundingBox>)
    requires
        rgba@.len() == width * height * 4,
    ensures
        found is Some <==> any_visible(rgba@, width as int, height as int, threshold),
        found is Some ==> is_bounding_box(
            rgba@,
            width as int,
            height as int,
            threshold,
            found.unwrap(),
        ),
{
    let mut min_x: usize = width;
    let mut min_y: usize = height;
    let mut max_x: usize = 0;
    let mut max_y: usize = 0;
    let mut seen = false;
    // Rows (for the x bounds) and columns (for the y bounds) at which a
    // visible pixel was met on each edge of the box.
    let ghost mut row_min_x: int = 0;
    let ghost mut row_max_x: int = 0;
    let ghost mut col_min_y: int = 0;
    let ghost mut col_max_y: int = 0;

    let total: usize = rgba.len();
    let mut y: usize = 0;
    while y < height
        invariant
            y <= height,
            rgba@.len() == width * height * 4,
            rgba@.len() == total,
            forall|px: int, py: int|
                0 <= px < width && 0 <= py < y && #[trigger] visible(
                    rgba@,
                    width as int,
                    px,
                    py,
                    threshold,
                ) ==> seen && min_x <= px <= max_x && min_y <= py <= max_y,
            !seen ==> min_x == width && min_y == height && max_x == 0 && max_y == 0,
            seen ==> {
                &&& min_x <= max_x < width
                &&& min_y <= max_y < height
                &&& 0 <= row_min_x < height && visible(rgba@, width as int, min_x as int, row_min_x, threshold)
                &&& 0 <= row_max_x < height && visible(rgba@, width as int, max_x as int, row_max_x, threshold)
                &&& 0 <= col_min_y < width && visible(rgba@, width as int, col_min_y, min_y as int, threshold)
                &&& 0 <= col_max_y < width && visible(rgba@, width as int, col_max_y, max_y as int, threshold)
            },
        decreases height - y,
    {
        let mut x: usize = 0;
        while x < width
            invariant
                x <= width,
                y < height,
                rgba@.len() == width * height * 4,
                rgba@.len() == total,
                forall|px: int, py: int|
                    0 <= px < width && 0 <= py < height && (py < y || (py == y && px < x))
                        && #[trigger] visible(rgba@, width as int, px, py, threshold) ==> seen
                        && min_x <= px <= max_x && min_y <= py <= max_y,
                !seen ==> min_x == width && min_y == height && max_x == 0 && max_y == 0,
                seen ==> {
                    &&& min_x <= max_x < width
                    &&& min_y <= max_y < height
                    &&& 0 <= row_min_x < height && visible(rgba@, width as int, min_x as int, row_min_x, threshold)
                    &&& 0 <= row_max_x < height && visible(rgba@, width as int, max_x as int, row_max_x, threshold)
                    &&& 0 <= col_min_y < width && visible(rgba@, width as int, col_min_y, min_y as int, threshold)
                    &&& 0 <= col_max_y < width && visible(rgba@, width as int, col_max_y, max_y as int, threshold)
                },
            decreases width - x,
        {
            proof {
                lemma_byte_index_bounds(x as int, y as int, 3, width as int, height as int);
            }
            let alpha = rgba[(y * width + x) * 4 + 3];
            if alpha > threshold {
                assert(visible(rgba@, width as int, x as int, y as int, threshold));
                seen = true;
                if x < min_x {
                    min_x = x;
                }
                if y < min_y {
                    min_y = y;
                }
                if x > max_x {
                    max_x = x;
                }
                if y > max_y {
                    max_y = y;
                }
                proof {
                    if min_x == x {
                        row_min_x = y as int;
                    }
                    if max_x == x {
                        row_max_x = y as int;
                    }
                    if min_y == y {
                        col_min_y = x as int;
                    }
                    if max_y == y {
                        col_max_y = x as int;
                    }
                }
            }
            x += 1;
        }
        y += 1;
    }
    if seen {
        let b = BoundingBox { min_x, min_y, max_x, max_y };
        assert(visible(rgba@, width as int, b.min_x as int, row_min_x, threshold));
        assert(visible(rgba@, width as int, b.max_x as int, row_max_x, threshold));
        assert(visible(rgba@, width as int, col_min_y, b.min_y as int, threshold));
        assert(visible(rgba@, width as int, col_max_y, b.max_y as int, threshold));
        Some(b)
    } else {
        None
    }
}

/// Copies the pixels inside `b` into a buffer of their own.
pub fn crop_region(rgba: &[u8], width: usize, height: usize, b: BoundingBox) -> (out: Vec<u8>)
    requires
        rgba@.len() == width * height * 4,
        b.within(width as int, height as int),
    ensures
        out@ == crop(rgba@, width as int, b),
{
    let new_width: usize = b.max_x - b.min_x + 1;
    let new_height: usize = b.max_y - b.min_y + 1;
    let total: usize = rgba.len();
    assert(0 <= new_width * new_height <= new_width * new_height * 4 <= total) by (nonlinear_arith)
        requires
            0 < new_width <= width,
            0 < new_height <= height,
            total == width * height * 4,
    ;
    let mut out: Vec<u8> = Vec::with_capacity(new_width * new_height * 4);

    let mut y: usize = 0;
    while y < new_height
        invariant
            y <= new_height,
            rgba@.len() == width * height * 4,
            rgba@.len() == total,
            b.within(width as int, height as int),
            new_width == b.spec_width(),
            new_height == b.spec_height(),
            out@.len() == y * new_width * 4,
            forall|i: int|
                0 <= i < out@.len() ==> out@[i] == rgba@[crop_source_index(i, width as int, b)],
        decreases new_height - y,
    {
        let mut x: usize = 0;
        while x < new_width
            invariant
                x <= new_width,
                y < new_height,
                rgba@.len() == width * height * 4,
                rgba@.len() == total,
                b.within(width as int, height as int),
                new_width == b.spec_width(),
                new_height == b.spec_height(),
                out@.len() == (y * new_width + x) * 4,
                forall|i: int|
                    0 <= i < out@.len() ==> out@[i] == rgba@[crop_source_index(
                        i,
                        width as int,
                        b,
                    )],
            decreases new_width - x,
        {
            proof {
                lemma_byte_index_bounds(
                    b.min_x + x,
                    b.min_y + y,
                    0,
                    width as int,
                    height as int,
                );
                lemma_byte_index_recover(x as int, y as int, 0, new_width as int);
                lemma_byte_index_recover(x as int, y as int, 1, new_width as int);
                lemma_byte_index_recover(x as int, y as int, 2, new_width as int);
                lemma_byte_index_recover(x as int, y as int, 3, new_width as int);
            }
            let src: usize = ((b.min_y + y) * width + (b.min_x + x)) * 4;
            out.push(rgba[src]);
            out.push(rgba[src + 1]);
            out.push(rgba[src + 2]);
            out.push(rgba[src + 3]);
            x += 1;
        }
        assert((y * new_width + new_width) * 4 == (y + 1) * new_width * 4) by (nonlinear_arith);
        y += 1;
    }
    assert(new_height * new_width * 4 == new_width * new_height * 4) by (nonlinear_arith);
    assert(out@ =~= crop(rgba@, width as int, b));
    out
}

/// Removes the transparent border of a `width` x `height` RGBA raster and
/// returns the remaining pixels with their width and height. A raster without
/// a visible pixel comes back whole.
pub fn trim_transparent_pixels(
    rgba: &[u8],
    width: usize,
    height: usize,
    alpha_threshold: u8,
) -> (out: (Vec<u8>, usize, usize))
    requires
        rgba@.len() == width * height * 4,
    ensures
        is_trimmed(
            (out.0@, out.1 as int, out.2 as int),
            rgba@,
            width as int,
            height as int,
            alpha_threshold,
        ),
        out.0@.len() == out.1 * out.2 * 4,
        any_visible(rgba@, width as int, height as int, alpha_threshold) ==> 1 <= out.1 <= width
            && 1 <= out.2 <= height,
        !any_visible(rgba@, width as int, height as int, alpha_threshold) ==> out.0@ == rgba@
            && out.1 == width && out.2 == height,
{
    match find_bounding_box(rgba, width, height, alpha_threshold) {
        None => (slice_to_vec(rgba), width, height),
        Some(b) => {
            let pixels = crop_region(rgba, width, height, b);
            (pixels, b.max_x - b.min_x + 1, b.max_y - b.min_y + 1)
        },
    }
}

impl RasterImage {
    /// The image as the triple that the trimming contracts speak of.
    pub open spec fn parts(&self) -> (Seq<u8>, int, int) {
        (self.pixels@, self.width as int, self.height as int)
    }

    /// Cuts the transparent border off the image. Pixels whose alpha is at
    /// most `threshold` count as transparent; an image made of such pixels
    /// only is returned as it is.
    pub fn trim(self, threshold: u8) -> (trimmed: RasterImage)
        requires
            self.well_formed(),
        ensures
            trimmed.well_formed(),
            is_trimmed(
                trimmed.parts(),
                self.pixels@,
                self.width as int,
                self.height as int,
                threshold,
            ),
            any_visible(self.pixels@, self.width as int, self.height as int, threshold) ==> 1
                <= trimmed.width <= self.width && 1 <= trimmed.height <= self.height,
            !any_visible(self.pixels@, self.width as int, self.height as int, threshold)
                ==> trimmed == self,
    {
        match find_bounding_box(self.pixels.as_slice(), self.width, self.height, threshold) {
            None => self,
            Some(b) => {
                let pixels = crop_region(self.pixels.as_slice(), self.width, self.height, b);
                RasterImage {
                    width: b.max_x - b.min_x + 1,
                    height: b.max_y - b.min_y + 1,
                    pixels,
                }
            },
        }
    }
}

} // verus!
