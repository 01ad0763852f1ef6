use vstd::prelude::*;
use vstd::arithmetic::mul::{lemma_mul_inequality, lemma_mul_nonnegative};
use crate::color::Color;

verus! {

/// A row-major grid of colors, origin at the top left.
pub struct PixelGrid {
    pub width: u32,
    pub height: u32,
    pub pixels: Vec<Color>,
}

/// Errors met when building a grid from a flat buffer.
#[derive(Clone, Copy, Debug, PartialEq, Eq, Structural)]
pub enum GridError {
    /// The buffer does not hold `width * height` entries.
    DimensionMismatch,
}

/// Flat index of `(x, y)` in a row-major grid of the given width.
pub open spec fn flat_index(width: int, x: int, y: int) -> int {
    y * width + x
}

impl PixelGrid {
    /// The buffer holds exactly one color per coordinate.
    pub open spec fn wf(&self) -> bool {
        self.pixels@.len() == self.width as int * self.height as int
    }

    /// The color at `(x, y)`.
    pub open spec fn pixel_spec(&self, x: int, y: int) -> Color {
        self.pixels@[flat_index(self.width as int, x, y)]
    }

    /// Builds a grid; fails unless `pixels` holds `width * height` colors.
    pub fn new(width: u32, height: u32, pixels: Vec<Color>) -> (r: Result<PixelGrid, GridError>)
        ensures
            r is Ok <==> pixels@.len() == width as int * height as int,
            r is Ok ==> (r->Ok_0.width == width && r->Ok_0.height == height
                && r->Ok_0.pixels@ == pixels@),
            r is Ok ==> r->Ok_0.wf(),
    {
        assert(width as int * height as int <= 0xffff_ffffint * 0xffff_ffffint) by (nonlinear_arith)
            requires
                width <= 0xffff_ffff,
                height <= 0xffff_ffff,
        ;
        let n = (width as u64) * (height as u64);
        if pixels.len() as u64 == n {
            Ok(PixelGrid { width, height, pixels })
        } else {
            Err(GridError::DimensionMismatch)
        }
    }

    pub fn width(&self) -> (w: u32)
        ensures
            w == self.width,
    {
        self.width
    }

    pub fn height(&self) -> (h: u32)
        ensures
            h == self.height,
    {
        self.height
    }

    pub fn pixels(&self) -> (p: &Vec<Color>)
        ensures
            p@ == self.pixels@,
    {
        &self.pixels
    }

    /// The color at `(x, y)`.
    pub fn get(&self, x: u32, y: u32) -> (c: Color)
        requires
            self.wf(),
            x < self.width,
            y < self.height,
        ensures
            c == self.pixel_spec(x as int, y as int),
    {
        let ghost w = self.width as int;
        let ghost h = self.height as int;
        proof {
            lemma_mul_inequality(y + 1, h, w);
            lemma_mul_nonnegative(y as int, w);
            assert((y + 1) * w == y * w + w) by (nonlinear_arith);
            assert(h * w == w * h) by (nonlinear_arith);
        }
        let len = self.pixels.len();
        assert(y * w + x < len);
        self.pixels[(y as usize) * (self.width as usize) + (x as usize)]
    }
}

} // verus!
