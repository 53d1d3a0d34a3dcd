//! Coverage bitmaps: one byte per pixel, row by row.

use vstd::prelude::*;

verus! {

/// The mathematical content of a coverage bitmap.
pub struct Grid {
    pub width: int,
    pub height: int,
    pub bytes: Seq<u8>,
}

/// The position of pixel `(x, y)` in a row-major bitmap of the given width.
pub open spec fn pixel_index(x: int, y: int, width: int) -> int {
    y * width + x
}

/// Whether `(x, y)` lies inside a `width` by `height` bitmap.
pub open spec fn in_bounds(x: int, y: int, width: int, height: int) -> bool {
    0 <= x < width && 0 <= y < height
}

/// Whether pixel `(x, y)` is inside the bitmap and has non-zero coverage.
pub open spec fn covered(g: Grid, x: int, y: int) -> bool {
    in_bounds(x, y, g.width, g.height) && g.bytes[pixel_index(x, y, g.width)] > 0
}

/// A pixel inside the bitmap has its byte inside the byte sequence.
pub proof fn lemma_pixel_index_bounds(x: int, y: int, width: int, height: int)
    requires
        in_bounds(x, y, width, height),
    ensures
        0 <= y * width,
        0 <= pixel_index(x, y, width) < width * height,
{
    assert(0 <= y * width) by (nonlinear_arith)
        requires
            0 <= y,
            0 <= width,
    ;
    assert(y * width + width <= width * height) by (nonlinear_arith)
        requires
            0 <= y < height,
            0 <= width,
    ;
}

/// Row and column of a byte position.
pub proof fn lemma_index_to_pixel(i: int, width: int, height: int)
    requires
        0 <= i < width * height,
        0 <= width,
        0 <= height,
    ensures
        width > 0,
        in_bounds(i % width, i / width, width, height),
        pixel_index(i % width, i / width, width) == i,
{
    assert(width > 0) by (nonlinear_arith)
        requires
            0 <= i < width * height,
            0 <= width,
    ;
    vstd::arithmetic::div_mod::lemma_fundamental_div_mod(i, width);
    vstd::arithmetic::div_mod::lemma_mod_bound(i, width);
    let q = i / width;
    assert(width * q == q * width) by (nonlinear_arith);
    assert(0 <= q < height) by (nonlinear_arith)
        requires
            0 <= i < width * height,
            width > 0,
            i == width * q + i % width,
            0 <= i % width < width,
    ;
}

/// The byte position of a pixel leads back to its column and row.
pub proof fn lemma_pixel_of_index(x: int, y: int, width: int, height: int)
    requires
        in_bounds(x, y, width, height),
    ensures
        pixel_index(x, y, width) % width == x,
        pixel_index(x, y, width) / width == y,
{
    vstd::arithmetic::div_mod::lemma_fundamental_div_mod_converse(
        pixel_index(x, y, width),
        width,
        y,
        x,
    );
}

/// A rasterized glyph: `width * height` coverage bytes, row by row, where
/// zero means that the pixel is off.
pub struct Coverage {
    width: usize,
    height: usize,
    bytes: Vec<u8>,
}

impl View for Coverage {
    type V = Grid;

    closed spec fn view(&self) -> Grid {
        Grid { width: self.width as int, height: self.height as int, bytes: self.bytes@ }
    }
}

impl Coverage {
    /// There is exactly one byte per pixel.
    pub open spec fn wf(&self) -> bool {
        &&& 0 <= self@.width <= usize::MAX
        &&& 0 <= self@.height <= usize::MAX
        &&& self@.bytes.len() == self@.width * self@.height
        &&& self@.bytes.len() <= usize::MAX
    }

    /// Wraps the bytes of a `width` by `height` bitmap; `None` when the number
    /// of bytes is not `width * height`.
    pub fn new(width: usize, height: usize, bytes: Vec<u8>) -> (r: Option<Coverage>)
        ensures
            r is Some <==> bytes@.len() == width * height,
            r is Some ==> r.unwrap().wf() && r.unwrap()@ == (Grid {
                width: width as int,
                height: height as int,
                bytes: bytes@,
            }),
    {
        assert(bytes@.len() == bytes.len() <= usize::MAX);
        match width.checked_mul(height) {
            Some(n) => {
                if bytes.len() == n {
                    Some(Coverage { width, height, bytes })
                } else {
                    None
                }
            },
            None => None,
        }
    }

    /// The number of pixels in a row.
    pub fn width(&self) -> (w: usize)
        ensures
            w == self@.width,
    {
        self.width
    }

    /// The number of rows.
    pub fn height(&self) -> (h: usize)
        ensures
            h == self@.height,
    {
        self.height
    }

    /// The coverage byte of pixel `(x, y)`.
    pub fn byte(&self, x: usize, y: usize) -> (b: u8)
        requires
            self.wf(),
            in_bounds(x as int, y as int, self@.width, self@.height),
        ensures
            b == self@.bytes[pixel_index(x as int, y as int, self@.width)],
    {
        proof {
            lemma_pixel_index_bounds(x as int, y as int, self.width as int, self.height as int);
        }
        self.bytes[y * self.width + x]
    }
}

} // verus!
