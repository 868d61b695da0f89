//! The framebuffer: a row-major grid of 8-bit RGBA pixels, and the
//! plain-text RGB encoding of a finished image.

use vstd::prelude::*;
use crate::color::ColorU8;

verus! {

/// A width x height grid of 8-bit RGBA pixels, row-major.
#[derive(Debug)]
pub struct Framebuffer {
    pub width: usize,
    pub height: usize,
    pub pixels: Vec<ColorU8>,
}

/// Validity of a framebuffer: the pixel store covers the grid exactly.
pub open spec fn framebuffer_wf(f: Framebuffer) -> bool {
    f.pixels@.len() == f.width * f.height
}

impl Framebuffer {
    /// An all-zero framebuffer of the given size.
    pub fn new(width: usize, height: usize) -> (f: Framebuffer)
        requires
            width * height <= 0xffffffff,
        ensures
            f.width == width,
            f.height == height,
            framebuffer_wf(f),
            forall|i: int| 0 <= i < f.pixels@.len() ==> #[trigger] f.pixels@[i] == (ColorU8 {
                r: 0u8,
                g: 0u8,
                b: 0u8,
                a: 0u8,
            }),
    {
        let n = width * height;
        let mut pixels: Vec<ColorU8> = Vec::new();
        let mut i: usize = 0;
        while i < n
            invariant
                0 <= i <= n,
                pixels@.len() == i,
                forall|j: int| 0 <= j < i ==> #[trigger] pixels@[j] == (ColorU8 {
                    r: 0u8,
                    g: 0u8,
                    b: 0u8,
                    a: 0u8,
                }),
            decreases n - i,
        {
            pixels.push(ColorU8 { r: 0, g: 0, b: 0, a: 0 });
            i = i + 1;
        }
        Framebuffer { width, height, pixels }
    }

    /// Reads the pixel at `(row, column)`.
    pub fn pixel(&self, row: usize, column: usize) -> (p: ColorU8)
        requires
            framebuffer_wf(*self),
            row < self.height,
            column < self.width,
        ensures
            p == self.pixels@[row as int * self.width as int + column as int],
    {
        proof {
            lemma_grid_index(self.width as int, self.height as int, row as int, column as int);
            assert((row as int * self.width as int + column as int) < self.pixels@.len());
        }
        let n = self.pixels.len();
        self.pixels[row * self.width + column]
    }

    /// Writes the pixel at `(row, column)`.
    pub fn set_pixel(&mut self, row: usize, column: usize, p: ColorU8)
        requires
            framebuffer_wf(*old(self)),
            row < old(self).height,
            column < old(self).width,
        ensures
            final(self).width == old(self).width,
            final(self).height == old(self).height,
            final(self).pixels@ == old(self).pixels@.update(
                row as int * old(self).width as int + column as int,
                p,
            ),
            framebuffer_wf(*final(self)),
    {
        proof {
            lemma_grid_index(self.width as int, self.height as int, row as int, column as int);
            assert((row as int * self.width as int + column as int) < self.pixels@.len());
        }
        let n = self.pixels.len();
        let idx = row * self.width + column;
        self.pixels.set(idx, p);
    }
}

/// A row-major grid index lies inside the pixel store.
pub proof fn lemma_grid_index(width: int, height: int, row: int, column: int)
    requires
        0 <= row < height,
        0 <= column < width,
    ensures
        0 <= row * width + column < width * height,
{
    assert(0 <= row * width + column < width * height) by (nonlinear_arith)
        requires 0 <= row < height && 0 <= column < width;
}

} // verus!
