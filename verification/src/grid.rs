//! The decoded picture: a rectangle of pixels, row by row.

use crate::pixel::Pixel;
use vstd::prelude::*;

verus! {

/// What a picture is to the contracts: its two dimensions, and its pixels
/// row by row from the top, each row from the left.
pub struct GridView {
    pub width: nat,
    pub height: nat,
    pub pixels: Seq<Pixel>,
}

impl GridView {
    /// There is one pixel for every column of every row.
    pub open spec fn well_formed(self) -> bool {
        self.pixels.len() == self.width * self.height
    }

    /// The pixel in column `x` of row `y`.
    pub open spec fn pixel(self, x: nat, y: nat) -> Pixel {
        self.pixels[(y * self.width + x) as int]
    }
}

/// A decoded picture. It always holds exactly `width * height` pixels.
pub struct PixelGrid {
    width: u32,
    height: u32,
    pixels: Vec<Pixel>,
}

impl View for PixelGrid {
    type V = GridView;

    closed spec fn view(&self) -> GridView {
        GridView { width: self.width as nat, height: self.height as nat, pixels: self.pixels@ }
    }
}

impl PixelGrid {
    #[verifier::type_invariant]
    spec fn complete(self) -> bool {
        self.pixels@.len() == self.width * self.height
    }

    /// A picture from its dimensions and its pixels in row-major order.
    /// There is none where the number of pixels is not `width * height`.
    pub fn new(width: u32, height: u32, pixels: Vec<Pixel>) -> (grid: Option<PixelGrid>)
        ensures
            grid.is_some() <==> pixels@.len() == width * height,
            grid.is_some() ==> grid.unwrap()@ == (GridView {
                width: width as nat,
                height: height as nat,
                pixels: pixels@,
            }),
    {
        assert(width * height <= u64::MAX) by (nonlinear_arith)
            requires
                width <= u32::MAX,
                height <= u32::MAX,
        ;
        let wanted: u64 = (width as u64) * (height as u64);
        if pixels.len() as u64 == wanted {
            Some(PixelGrid { width, height, pixels })
        } else {
            None
        }
    }

    /// The number of columns.
    pub fn width(&self) -> (width: u32)
        ensures
            width == self@.width,
    {
        self.width
    }

    /// The number of rows.
    pub fn height(&self) -> (height: u32)
        ensures
            height == self@.height,
    {
        self.height
    }

    /// The pixels, row by row.
    pub fn pixels(&self) -> (pixels: &Vec<Pixel>)
        ensures
            pixels@ == self@.pixels,
            self@.well_formed(),
    {
        proof {
            use_type_invariant(self);
        }
        &self.pixels
    }

    /// The pixel in column `x` of row `y`, where the picture has one.
    pub fn get(&self, x: u32, y: u32) -> (pixel: Option<Pixel>)
        ensures
            pixel.is_some() <==> x < self@.width && y < self@.height,
            pixel.is_some() ==> pixel.unwrap() == self@.pixel(x as nat, y as nat),
    {
        proof {
            use_type_invariant(self);
        }
        if x < self.width && y < self.height {
            proof {
                lemma_index_in_range(x as nat, y as nat, self.width as nat, self.height as nat);
            }
            assert(y * self.width + x < u64::MAX) by (nonlinear_arith)
                requires
                    y <= u32::MAX,
                    self.width <= u32::MAX,
                    x <= u32::MAX,
            ;
            let index: u64 = (y as u64) * (self.width as u64) + (x as u64);
            assert(index < self.pixels.len());
            Some(self.pixels[index as usize])
        } else {
            None
        }
    }
}

/// The place of a pixel in row-major order lies inside the picture.
pub proof fn lemma_index_in_range(x: nat, y: nat, width: nat, height: nat)
    requires
        x < width,
        y < height,
    ensures
        y * width + x < width * height,
{
    assert(y * width + x < width * height) by (nonlinear_arith)
        requires
            x < width,
            y + 1 <= height,
    {
        assert((y + 1) * width <= height * width);
    }
}

} // verus!
