//! Row-major RGBA rasters: how pixels are addressed, and the image type.

use vstd::prelude::*;
use vstd::arithmetic::div_mod::lemma_fundamental_div_mod;
use vstd::arithmetic::div_mod::lemma_fundamental_div_mod_converse;
use vstd::arithmetic::div_mod::lemma_mod_bound;

verus! {

/// Offset of channel `c` (0 = red .. 3 = alpha) of the pixel in column `x`
/// of row `y`, in a buffer whose rows are `width` pixels long.
pub open spec fn byte_index(x: int, y: int, c: int, width: int) -> int {
    (y * width + x) * 4 + c
}

/// Every channel of every pixel of a `width` x `height` raster lies inside a
/// buffer of `width * height * 4` bytes.
pub proof fn lemma_byte_index_bounds(x: int, y: int, c: int, width: int, height: int)
    requires
        0 <= x < width,
        0 <= y < height,
        0 <= c < 4,
    ensures
        0 <= y * width,
        y * width + x < width * height,
        0 <= byte_index(x, y, c, width) < width * height * 4,
{
    assert(0 <= y * width && y * width + width <= width * height) by (nonlinear_arith)
        requires
            0 <= y < height,
            0 < width,
    ;
}

/// An offset into a raster's buffer names exactly one channel of one pixel.
pub proof fn lemma_byte_index_decompose(i: int, width: int, height: int)
    requires
        0 <= i < width * height * 4,
        0 < width,
    ensures
        0 <= (i / 4) % width < width,
        0 <= (i / 4) / width < height,
        byte_index((i / 4) % width, (i / 4) / width, i % 4, width) == i,
{
    let p = i / 4;
    let q = p / width;
    let r = p % width;
    lemma_fundamental_div_mod(p, width);
    lemma_mod_bound(p, width);
    assert(p < width * height);
    assert(0 <= q < height && q * width + r == p) by (nonlinear_arith)
        requires
            p == width * q + r,
            0 <= r < width,
            0 <= p < width * height,
    ;
}

/// The pixel and channel that an offset was computed from can be read back
/// from it.
pub proof fn lemma_byte_index_recover(x: int, y: int, c: int, width: int)
    requires
        0 <= x < width,
        0 <= c < 4,
    ensures
        (byte_index(x, y, c, width) / 4) % width == x,
        (byte_index(x, y, c, width) / 4) / width == y,
        byte_index(x, y, c, width) % 4 == c,
{
    let p = y * width + x;
    assert(byte_index(x, y, c, width) == p * 4 + c);
    lemma_fundamental_div_mod_converse(p, width, y, x);
}

/// Inclusive bounds, in pixel coordinates, of a rectangular region.
#[derive(Clone, Copy, Debug)]
pub struct BoundingBox {
    pub min_x: usize,
    pub min_y: usize,
    pub max_x: usize,
    pub max_y: usize,
}

impl BoundingBox {
    /// Number of columns the box spans.
    pub open spec fn spec_width(&self) -> int {
        self.max_x - self.min_x + 1
    }

    /// Number of rows the box spans.
    pub open spec fn spec_height(&self) -> int {
        self.max_y - self.min_y + 1
    }

    /// The box is non-empty and lies inside a `width` x `height` raster.
    pub open spec fn within(&self, width: int, height: int) -> bool {
        &&& self.min_x <= self.max_x < width
        &&& self.min_y <= self.max_y < height
    }

    /// The box that covers a whole `width` x `height` raster.
    pub open spec fn full_frame(width: int, height: int) -> BoundingBox
        recommends
            0 <= width - 1 <= usize::MAX,
            0 <= height - 1 <= usize::MAX,
    {
        BoundingBox { min_x: 0, min_y: 0, max_x: (width - 1) as usize, max_y: (height - 1) as usize }
    }
}

/// A decoded image: `width * height` pixels of four bytes each, row by row,
/// without padding.
#[derive(Clone, Debug)]
pub struct RasterImage {
    pub width: usize,
    pub height: usize,
    pub pixels: Vec<u8>,
}

impl RasterImage {
    /// The buffer holds exactly the bytes of `width * height` pixels.
    pub open spec fn well_formed(&self) -> bool {
        self.pixels@.len() == self.width * self.height * 4
    }

    /// Builds an image from its parts, or `None` when the buffer's length is
    /// not that of `width * height` RGBA pixels.
    pub fn new(width: usize, height: usize, pixels: Vec<u8>) -> (image: Option<RasterImage>)
        ensures
            image is Some <==> pixels@.len() == width * height * 4,
            image is Some ==> {
                &&& image.unwrap().width == width
                &&& image.unwrap().height == height
                &&& image.unwrap().pixels@ == pixels@
                &&& image.unwrap().well_formed()
            },
    {
        let len = pixels.len();
        let count = match width.checked_mul(height) {
            Some(count) => count,
            None => {
                return None;
            },
        };
        match count.checked_mul(4) {
            Some(bytes) => {
                if bytes == len {
                    Some(RasterImage { width, height, pixels })
                } else {
                    None
                }
            },
            None => None,
        }
    }
}

} // verus!
