use coeconvertor_rs::document::{build_file, build_info};
use coeconvertor_rs::grid::PixelGrid;
use coeconvertor_rs::numeral::Representation;
use coeconvertor_rs::pixel::{AlphaPolicy, ColorMode, Pixel};
use coeconvertor_rs::separator::Style;
use coeconvertor_rs::source::grid_from_image;
use image::{DynamicImage, GrayImage, RgbImage, RgbaImage};

fn pixel(red: u8, green: u8, blue: u8, alpha: u8) -> Pixel {
    Pixel { red, green, blue, alpha }
}

#[test]
fn grid_needs_one_pixel_for_every_place() {
    assert!(PixelGrid::new(2, 2, vec![pixel(0, 0, 0, 0); 4]).is_some());
    assert!(PixelGrid::new(2, 2, vec![pixel(0, 0, 0, 0); 3]).is_none());
    assert!(PixelGrid::new(2, 2, vec![pixel(0, 0, 0, 0); 5]).is_none());
    assert!(PixelGrid::new(0, 7, Vec::new()).is_some());
    assert!(PixelGrid::new(0, 7, vec![pixel(0, 0, 0, 0)]).is_none());
    assert!(PixelGrid::new(u32::MAX, u32::MAX, vec![pixel(0, 0, 0, 0)]).is_none());
}

#[test]
fn grid_hands_out_what_it_was_given() {
    let pixels = vec![
        pixel(1, 0, 0, 0),
        pixel(2, 0, 0, 0),
        pixel(3, 0, 0, 0),
        pixel(4, 0, 0, 0),
        pixel(5, 0, 0, 0),
        pixel(6, 0, 0, 0),
    ];
    let grid = PixelGrid::new(3, 2, pixels.clone()).unwrap();
    assert_eq!(grid.width(), 3);
    assert_eq!(grid.height(), 2);
    assert_eq!(grid.pixels(), &pixels);
    assert_eq!(grid.get(0, 0), Some(pixel(1, 0, 0, 0)));
    assert_eq!(grid.get(2, 0), Some(pixel(3, 0, 0, 0)));
    assert_eq!(grid.get(0, 1), Some(pixel(4, 0, 0, 0)));
    assert_eq!(grid.get(2, 1), Some(pixel(6, 0, 0, 0)));
    assert_eq!(grid.get(3, 0), None);
    assert_eq!(grid.get(0, 2), None);
    assert_eq!(grid.get(u32::MAX, u32::MAX), None);
}

#[test]
fn grid_from_rgba_image() {
    let bytes = vec![
        1, 2, 3, 4, 5, 6, 7, 8, 9, 10, 11, 12, //
        13, 14, 15, 16, 17, 18, 19, 20, 21, 22, 23, 24,
    ];
    let image = DynamicImage::ImageRgba8(RgbaImage::from_raw(3, 2, bytes).unwrap());
    let grid = grid_from_image(&image);
    assert_eq!(grid.width(), 3);
    assert_eq!(grid.height(), 2);
    assert_eq!(
        grid.pixels(),
        &vec![
            pixel(1, 2, 3, 4),
            pixel(5, 6, 7, 8),
            pixel(9, 10, 11, 12),
            pixel(13, 14, 15, 16),
            pixel(17, 18, 19, 20),
            pixel(21, 22, 23, 24),
        ]
    );
    assert_eq!(grid.get(1, 1), Some(pixel(17, 18, 19, 20)));
}

#[test]
fn grid_from_image_without_alpha() {
    let image = DynamicImage::ImageRgb8(RgbImage::from_raw(1, 2, vec![1, 2, 3, 4, 5, 6]).unwrap());
    let grid = grid_from_image(&image);
    assert_eq!(grid.width(), 1);
    assert_eq!(grid.height(), 2);
    assert_eq!(grid.pixels(), &vec![pixel(1, 2, 3, 255), pixel(4, 5, 6, 255)]);
}

#[test]
fn grid_from_gray_image() {
    let image = DynamicImage::ImageLuma8(GrayImage::from_raw(2, 1, vec![7, 200]).unwrap());
    let grid = grid_from_image(&image);
    assert_eq!(grid.width(), 2);
    assert_eq!(grid.height(), 1);
    assert_eq!(grid.pixels(), &vec![pixel(7, 7, 7, 255), pixel(200, 200, 200, 255)]);
}

#[test]
fn grid_from_empty_image() {
    let image = DynamicImage::new_rgba8(0, 0);
    let grid = grid_from_image(&image);
    assert_eq!(grid.width(), 0);
    assert_eq!(grid.height(), 0);
    assert!(grid.pixels().is_empty());
}

#[test]
fn file_of_a_decoded_image() {
    let bytes = vec![
        255, 0, 0, 255, 0, 255, 0, 255, //
        0, 0, 255, 0, 224, 32, 64, 126,
    ];
    let image = DynamicImage::ImageRgba8(RgbaImage::from_raw(2, 2, bytes).unwrap());
    let coe = build_info(
        &grid_from_image(&image),
        ColorMode::Reduced8,
        AlphaPolicy::Threshold,
        127,
        Style::CommaSeparated,
        Representation::Binary,
    );
    let expected = ";This is a .COE file in a VGA image generated via the coeconvertor_rs tool.\n\
                    ;The image has a width: 2 and height: 2\n\
                    ;The memory has a width=9, and depth=4\n\
                    ;(So that means addra is 2 if minimum area 8kx2 is used) \n\
                    memory_initialization_radix=2\n\
                    memory_initialization_vector=111000001,111001,\n110,111001010;\n";
    assert_eq!(build_file(coe), expected);
}
