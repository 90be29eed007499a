//! Pictures as the `image` crate decodes them.

use crate::grid::{lemma_index_in_range, GridView, PixelGrid};
use crate::pixel::Pixel;
use image::GenericImageView;
use vstd::arithmetic::div_mod::lemma_fundamental_div_mod_converse;
use vstd::prelude::*;

verus! {

/// Declares `image::DynamicImage`, a decoded picture of any pixel format.
/// Nothing inside it is visible to the proofs: what it holds goes by the
/// names `image_width` and `image_rows`.
#[verifier::external_type_specification]
#[verifier::external_body]
pub struct ExDynamicImage(image::DynamicImage);

/// The number of columns of a decoded picture.
pub uninterp spec fn image_width(image: image::DynamicImage) -> nat;

/// The rows of a decoded picture from the top, each with its pixels from the
/// left. A pixel is given by its red, green, blue and alpha channel, as the
/// `image` crate converts it to eight bits a channel.
pub uninterp spec fn image_rows(image: image::DynamicImage) -> Seq<Seq<(u8, u8, u8, u8)>>;

/// The four channels of a pixel.
pub open spec fn pixel_of(channels: (u8, u8, u8, u8)) -> Pixel {
    Pixel { red: channels.0, green: channels.1, blue: channels.2, alpha: channels.3 }
}

/// A decoded picture as the library sees it.
pub open spec fn image_grid(image: image::DynamicImage) -> GridView {
    let width = image_width(image);
    let rows = image_rows(image);
    GridView {
        width,
        height: rows.len(),
        pixels: Seq::new(
            width * rows.len(),
            |index: int| pixel_of(rows[index / width as int][index % width as int]),
        ),
    }
}

/// Calls `GenericImageView::dimensions` on the picture. Trusted: the two
/// numbers are the picture's width and the number of its rows, and every row
/// is as long as the picture is wide.
#[verifier::external_body]
fn image_dimensions(image: &image::DynamicImage) -> (size: (u32, u32))
    ensures
        size.0 == image_width(*image),
        size.1 == image_rows(*image).len(),
        forall|y: int|
            0 <= y < image_rows(*image).len() ==> (#[trigger] image_rows(*image)[y]).len()
                == size.0,
{
    image.dimensions()
}

/// Calls `GenericImageView::get_pixel` on the picture, which panics outside
/// the picture. Trusted: inside it the result is the pixel in column `x` of
/// row `y`.
#[verifier::external_body]
fn image_pixel(image: &image::DynamicImage, x: u32, y: u32) -> (pixel: Pixel)
    requires
        x < image_width(*image),
        y < image_rows(*image).len(),
    ensures
        pixel == pixel_of(image_rows(*image)[y as int][x as int]),
{
    let rgba = image.get_pixel(x, y);
    Pixel { red: rgba[0], green: rgba[1], blue: rgba[2], alpha: rgba[3] }
}

/// Reads a decoded picture pixel by pixel, row by row.
pub fn grid_from_image(image: &image::DynamicImage) -> (grid: PixelGrid)
    ensures
        grid@ == image_grid(*image),
        grid@.well_formed(),
{
    let (width, height) = image_dimensions(image);
    let ghost wanted = image_grid(*image).pixels;
    let mut pixels: Vec<Pixel> = Vec::new();
    let mut y: u32 = 0;
    while y < height
        invariant
            width == image_width(*image),
            height == image_rows(*image).len(),
            wanted == image_grid(*image).pixels,
            y <= height,
            pixels@.len() == y * width,
            forall|i: int| 0 <= i < pixels@.len() ==> pixels@[i] == wanted[i],
        decreases height - y,
    {
        let mut x: u32 = 0;
        while x < width
            invariant
                width == image_width(*image),
                height == image_rows(*image).len(),
                wanted == image_grid(*image).pixels,
                y < height,
                x <= width,
                pixels@.len() == y * width + x,
                forall|i: int| 0 <= i < pixels@.len() ==> pixels@[i] == wanted[i],
            decreases width - x,
        {
            proof {
                let index = y * width + x;
                lemma_index_in_range(x as nat, y as nat, width as nat, height as nat);
                lemma_fundamental_div_mod_converse(index, width as int, y as int, x as int);
            }
            pixels.push(image_pixel(image, x, y));
            x = x + 1;
        }
        y = y + 1;
        assert(pixels@.len() == y * width) by (nonlinear_arith)
            requires
                pixels@.len() == (y - 1) * width + width,
        ;
    }
    proof {
        assert(pixels@.len() == width * height) by (nonlinear_arith)
            requires
                pixels@.len() == y * width,
                y == height,
        ;
        assert(pixels@ =~= wanted);
    }
    PixelGrid::new(width, height, pixels).unwrap()
}

} // verus!
