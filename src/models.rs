//! Pixels and the in-memory pixel grid.

use vstd::prelude::*;
use vstd::arithmetic::div_mod::{lemma_fundamental_div_mod, lemma_fundamental_div_mod_converse};

verus! {

/// Red channel of a packed pixel value: bits 16 to 23.
pub open spec fn red_of(v: u32) -> u8 {
    ((v / 0x1_0000) % 0x100) as u8
}

/// Green channel of a packed pixel value: bits 8 to 15.
pub open spec fn green_of(v: u32) -> u8 {
    ((v / 0x100) % 0x100) as u8
}

/// Blue channel of a packed pixel value: bits 0 to 7.
pub open spec fn blue_of(v: u32) -> u8 {
    (v % 0x100) as u8
}

/// The packed value of a pixel with the given channels.
pub open spec fn pack_rgb(r: u8, g: u8, b: u8) -> u32 {
    (r as int * 0x1_0000 + g as int * 0x100 + b as int) as u32
}

/// Packing the channels of a 24-bit value gives the value back, and
/// unpacking a packed value gives the channels back.
pub proof fn lemma_pack_channels(v: u32, r: u8, g: u8, b: u8)
    ensures
        v < 0x100_0000 ==> pack_rgb(red_of(v), green_of(v), blue_of(v)) == v,
        red_of(pack_rgb(r, g, b)) == r,
        green_of(pack_rgb(r, g, b)) == g,
        blue_of(pack_rgb(r, g, b)) == b,
{
}

/// A 24-bit color packed into one integer: red in bits 16 to 23, green in
/// bits 8 to 15, blue in bits 0 to 7.
#[derive(Debug, Clone, Copy, PartialEq, Eq, Structural, PartialOrd, Ord)]
pub struct BMPixel(pub u32);

impl BMPixel {
    /// Black, the value a new grid is filled with.
    pub fn empty() -> (r: BMPixel)
        ensures
            r == BMPixel(0),
    {
        BMPixel(0)
    }

    /// A pixel holds a 24-bit color: its top byte is zero.
    pub open spec fn is_24_bit(self) -> bool {
        self.0 < 0x100_0000
    }

    /// The pixel with the given channels.
    pub fn from_rgb(r: u8, g: u8, b: u8) -> (p: BMPixel)
        ensures
            p.0 == pack_rgb(r, g, b),
            p.is_24_bit(),
    {
        let (r32, g32, b32) = (r as u32, g as u32, b as u32);
        assert(((r32 << 16u32) | (g32 << 8u32) | b32) == r32 * 0x1_0000u32 + g32 * 0x100u32 + b32)
            by (bit_vector)
            requires
                r32 < 0x100u32,
                g32 < 0x100u32,
                b32 < 0x100u32,
        ;
        BMPixel(((r as u32) << 16) | ((g as u32) << 8) | (b as u32))
    }

    pub fn red(&self) -> (r: u8)
        ensures
            r == red_of(self.0),
    {
        let v = self.0;
        assert(((v & 0xff_0000u32) >> 16u32) == (v / 0x1_0000u32) % 0x100u32) by (bit_vector);
        ((self.0 & 0xff_0000) >> 16) as u8
    }

    pub fn green(&self) -> (r: u8)
        ensures
            r == green_of(self.0),
    {
        let v = self.0;
        assert(((v & 0x00_ff00u32) >> 8u32) == (v / 0x100u32) % 0x100u32) by (bit_vector);
        ((self.0 & 0x00_ff00) >> 8) as u8
    }

    pub fn blue(&self) -> (r: u8)
        ensures
            r == blue_of(self.0),
    {
        let v = self.0;
        assert((v & 0x00_00ffu32) == v % 0x100u32) by (bit_vector);
        (self.0 & 0x00_00ff) as u8
    }
}

/// A rectangle of pixel coordinates: columns `x1..x2`, rows `y1..y2`.
#[derive(Debug, Clone, Copy)]
pub struct BoundingBox {
    pub x1: usize,
    pub y1: usize,
    pub x2: usize,
    pub y2: usize,
}

impl BoundingBox {
    /// Whether the pixel at `x`, `y` lies inside the rectangle.
    pub open spec fn contains(self, x: int, y: int) -> bool {
        self.x1 <= x < self.x2 && self.y1 <= y < self.y2
    }
}

/// A `width` by `height` grid of pixels, stored row by row with the top-left
/// pixel first.
#[derive(Debug, Clone, PartialEq, Eq)]
pub struct Bmp {
    pub width: usize,
    pub height: usize,
    pub pixels: Vec<BMPixel>,
}

/// Index of the pixel at column `x`, row `y` of a grid `width` pixels wide.
pub open spec fn grid_index(width: int, x: int, y: int) -> int {
    y * width + x
}

/// The index of column `x` in row `y` splits back into `x` and `y`.
pub proof fn lemma_grid_index(width: int, x: int, y: int)
    requires
        0 <= x < width,
        0 <= y,
    ensures
        grid_index(width, x, y) % width == x,
        grid_index(width, x, y) / width == y,
{
    lemma_fundamental_div_mod_converse(grid_index(width, x, y), width, y, x);
}

/// An index below `width * height` names a pixel inside the grid.
pub proof fn lemma_grid_index_bound(width: int, height: int, x: int, y: int)
    requires
        0 <= x < width,
        0 <= y < height,
    ensures
        0 <= grid_index(width, x, y) < width * height,
{
    assert(y * width + x < width * height) by (nonlinear_arith)
        requires 0 <= x < width, 0 <= y < height;
    assert(0 <= y * width) by (nonlinear_arith)
        requires 0 <= y, 0 <= x < width;
}

impl Bmp {
    /// The pixel count matches the dimensions.
    pub open spec fn wf(&self) -> bool {
        self.pixels@.len() == self.width * self.height
    }

    /// A grid of the given size with every pixel empty.
    pub fn new(width: usize, height: usize) -> (r: Self)
        requires
            width * height <= usize::MAX,
        ensures
            r.wf(),
            r.width == width,
            r.height == height,
            forall|i: int| 0 <= i < r.pixels@.len() ==> r.pixels@[i] == BMPixel(0),
    {
        let n: usize = width * height;
        let mut pixels: Vec<BMPixel> = Vec::with_capacity(n);
        let mut i: usize = 0;
        while i < n
            invariant
                i <= n,
                pixels@.len() == i,
                forall|j: int| 0 <= j < i ==> pixels@[j] == BMPixel(0),
            decreases n - i,
        {
            pixels.push(BMPixel::empty());
            i += 1;
        }
        Self { width, height, pixels }
    }

    /// Sets the pixel at column `x`, row `y`.
    pub fn set_pixel(&mut self, x: usize, y: usize, pixel: BMPixel)
        requires
            old(self).wf(),
            x < old(self).width,
            y < old(self).height,
        ensures
            final(self).width == old(self).width,
            final(self).height == old(self).height,
            final(self).pixels@ == old(self).pixels@.update(
                grid_index(old(self).width as int, x as int, y as int),
                pixel,
            ),
    {
        // The length, as a usize, bounds the index below usize::MAX.
        let len: usize = self.pixels.len();
        proof {
            lemma_grid_index_bound(self.width as int, self.height as int, x as int, y as int);
            assert(grid_index(self.width as int, x as int, y as int) < len);
        }
        self.pixels.set(y * self.width + x, pixel);
    }

    /// Sets every pixel inside `bounds` to `pixel`.
    pub fn fill(&mut self, bounds: BoundingBox, pixel: BMPixel)
        requires
            old(self).wf(),
            bounds.x1 < bounds.x2 && bounds.y1 < bounds.y2 ==> bounds.x2 <= old(self).width
                && bounds.y2 <= old(self).height,
        ensures
            final(self).wf(),
            final(self).width == old(self).width,
            final(self).height == old(self).height,
            forall|i: int|
                0 <= i < final(self).pixels@.len() ==> #[trigger] final(self).pixels@[i] == if bounds.contains(
                    i % (old(self).width as int),
                    i / (old(self).width as int),
                ) {
                    pixel
                } else {
                    old(self).pixels@[i]
                },
    {
        let ghost w = self.width as int;
        let ghost orig = self.pixels@;
        let mut y: usize = bounds.y1;
        while y < bounds.y2
            invariant
                self.wf(),
                self.width == old(self).width,
                self.height == old(self).height,
                orig == old(self).pixels@,
                orig.len() == self.pixels@.len(),
                w == self.width,
                bounds.x1 < bounds.x2 && bounds.y1 < bounds.y2 ==> bounds.x2 <= self.width
                    && bounds.y2 <= self.height,
                bounds.y1 <= y,
                y == bounds.y1 || y <= bounds.y2,
                forall|i: int|
                    0 <= i < self.pixels@.len() ==> #[trigger] self.pixels@[i] == if (
                    bounds.x1 <= i % w < bounds.x2 && bounds.y1 <= i / w < y) {
                        pixel
                    } else {
                        orig[i]
                    },
            decreases bounds.y2 - y,
        {
            let mut x: usize = bounds.x1;
            while x < bounds.x2
                invariant
                    self.wf(),
                    self.width == old(self).width,
                    self.height == old(self).height,
                    orig == old(self).pixels@,
                    orig.len() == self.pixels@.len(),
                    w == self.width,
                    bounds.x1 < bounds.x2 && bounds.y1 < bounds.y2 ==> bounds.x2 <= self.width
                        && bounds.y2 <= self.height,
                    bounds.y1 <= y < bounds.y2,
                    bounds.x1 <= x,
                    forall|i: int|
                        0 <= i < self.pixels@.len() ==> #[trigger] self.pixels@[i] == if (
                        bounds.x1 <= i % w < bounds.x2 && (bounds.y1 <= i / w < y || (i / w == y
                            && i % w < x))) {
                            pixel
                        } else {
                            orig[i]
                        },
                decreases bounds.x2 - x,
            {
                proof {
                    lemma_grid_index(w, x as int, y as int);
                    lemma_grid_index_bound(w, self.height as int, x as int, y as int);
                }
                self.set_pixel(x, y, pixel);
                proof {
                    assert forall|i: int|
                        0 <= i < self.pixels@.len() && #[trigger] (i / w) == y && i % w == x implies i
                        == grid_index(w, x as int, y as int) by {
                        lemma_fundamental_div_mod(i, w);
                    }
                }
                x += 1;
            }
            y += 1;
        }
    }
}

} // verus!
