use coeconvertor_rs::grid::PixelGrid;
use coeconvertor_rs::numeral::Representation;
use coeconvertor_rs::pixel::{AlphaPolicy, ColorMode, Pixel};
use coeconvertor_rs::separator::{boundary, separator_str, Boundary, Style};
use coeconvertor_rs::vector::{build_memory_vector, pixel2str};

fn pixel(red: u8, green: u8, blue: u8, alpha: u8) -> Pixel {
    Pixel { red, green, blue, alpha }
}

fn grid(width: u32, height: u32, pixels: Vec<Pixel>) -> PixelGrid {
    PixelGrid::new(width, height, pixels).expect("as many pixels as the dimensions say")
}

fn ramp(width: u32, height: u32) -> PixelGrid {
    let mut pixels = Vec::new();
    for i in 0..width * height {
        let v = (i * 37 % 256) as u8;
        pixels.push(pixel(v, v.wrapping_mul(3), v.wrapping_add(91), v.wrapping_mul(7)));
    }
    grid(width, height, pixels)
}

fn count(text: &str, c: char) -> usize {
    text.chars().filter(|x| *x == c).count()
}

#[test]
fn full_colour_row_in_hexadecimal() {
    let picture = grid(2, 1, vec![pixel(255, 0, 0, 255), pixel(0, 255, 0, 255)]);
    let vector = build_memory_vector(
        &picture,
        ColorMode::FullColor,
        AlphaPolicy::Opaque,
        127,
        Representation::Hexadecimal,
        Style::SpaceSeparated,
    );
    assert_eq!(vector, "FF0000 00FF00;\n");
    assert_eq!(vector.trim_end_matches('\n'), "FF0000 00FF00;");
}

#[test]
fn monochrome_column_with_threshold_alpha() {
    let picture = grid(1, 2, vec![pixel(200, 200, 200, 200), pixel(10, 10, 10, 10)]);
    let vector = build_memory_vector(
        &picture,
        ColorMode::Monochrome1,
        AlphaPolicy::Threshold,
        127,
        Representation::Binary,
        Style::SpaceSeparated,
    );
    assert_eq!(vector, "11,\n0;\n");
    assert_eq!(vector.trim_end_matches('\n'), "11,\n0;");
}

#[test]
fn pixel2str_by_representation() {
    let p = pixel(255, 0, 0, 255);
    let text = |mode, policy, representation| pixel2str(p, mode, policy, 127, representation);
    assert_eq!(text(ColorMode::FullColor, AlphaPolicy::Opaque, Representation::Hexadecimal), "FF0000");
    assert_eq!(text(ColorMode::FullColor, AlphaPolicy::Opaque, Representation::Decimal), "16711680");
    assert_eq!(
        text(ColorMode::FullColor, AlphaPolicy::Opaque, Representation::Binary),
        "111111110000000000000000"
    );
    assert_eq!(text(ColorMode::FullColor, AlphaPolicy::Full, Representation::Hexadecimal), "FF0000FF");
    assert_eq!(text(ColorMode::FullColor, AlphaPolicy::Threshold, Representation::Hexadecimal), "1FE0001");
    assert_eq!(text(ColorMode::Reduced8, AlphaPolicy::Opaque, Representation::Hexadecimal), "E0");
    assert_eq!(text(ColorMode::Reduced8, AlphaPolicy::Threshold, Representation::Hexadecimal), "1C1");
    assert_eq!(text(ColorMode::Grayscale8, AlphaPolicy::Opaque, Representation::Hexadecimal), "00");
    assert_eq!(text(ColorMode::Grayscale8, AlphaPolicy::Opaque, Representation::Binary), "0");
    assert_eq!(text(ColorMode::Monochrome1, AlphaPolicy::Opaque, Representation::Hexadecimal), "0");
    assert_eq!(text(ColorMode::Monochrome1, AlphaPolicy::Full, Representation::Hexadecimal), "0FF");
    assert_eq!(text(ColorMode::Monochrome1, AlphaPolicy::Full, Representation::Decimal), "255");
}

#[test]
fn boundary_by_place() {
    assert_eq!(boundary(0, 0, 3, 2), Boundary::InRow);
    assert_eq!(boundary(1, 0, 3, 2), Boundary::InRow);
    assert_eq!(boundary(2, 0, 3, 2), Boundary::RowBreak);
    assert_eq!(boundary(0, 1, 3, 2), Boundary::InRow);
    assert_eq!(boundary(2, 1, 3, 2), Boundary::End);
    assert_eq!(boundary(0, 0, 1, 1), Boundary::End);
    assert_eq!(boundary(0, 0, 1, 2), Boundary::RowBreak);
}

#[test]
fn separator_by_boundary_and_style() {
    assert_eq!(separator_str(Boundary::InRow, Style::SpaceSeparated), " ");
    assert_eq!(separator_str(Boundary::InRow, Style::CommaSeparated), ",");
    assert_eq!(separator_str(Boundary::RowBreak, Style::SpaceSeparated), ",\n");
    assert_eq!(separator_str(Boundary::RowBreak, Style::CommaSeparated), ",\n");
    assert_eq!(separator_str(Boundary::End, Style::SpaceSeparated), ";\n");
    assert_eq!(separator_str(Boundary::End, Style::CommaSeparated), ";\n");
}

#[test]
fn rows_in_scan_order_with_spaces() {
    let picture = grid(
        3,
        2,
        vec![
            pixel(0, 0, 1, 0),
            pixel(0, 0, 2, 0),
            pixel(0, 0, 3, 0),
            pixel(0, 0, 4, 0),
            pixel(0, 0, 5, 0),
            pixel(0, 0, 6, 0),
        ],
    );
    let vector = build_memory_vector(
        &picture,
        ColorMode::FullColor,
        AlphaPolicy::Opaque,
        127,
        Representation::Decimal,
        Style::SpaceSeparated,
    );
    assert_eq!(vector, "1 2 3,\n4 5 6;\n");
}

#[test]
fn rows_in_scan_order_with_commas() {
    let picture = grid(
        3,
        2,
        vec![
            pixel(0, 0, 1, 0),
            pixel(0, 0, 2, 0),
            pixel(0, 0, 3, 0),
            pixel(0, 0, 4, 0),
            pixel(0, 0, 5, 0),
            pixel(0, 0, 6, 0),
        ],
    );
    let vector = build_memory_vector(
        &picture,
        ColorMode::FullColor,
        AlphaPolicy::Opaque,
        127,
        Representation::Decimal,
        Style::CommaSeparated,
    );
    assert_eq!(vector, "1,2,3,\n4,5,6;\n");
}

#[test]
fn single_pixel_has_only_the_terminator() {
    let picture = grid(1, 1, vec![pixel(1, 2, 3, 4)]);
    for style in [Style::SpaceSeparated, Style::CommaSeparated] {
        let vector = build_memory_vector(
            &picture,
            ColorMode::FullColor,
            AlphaPolicy::Full,
            127,
            Representation::Hexadecimal,
            style,
        );
        assert_eq!(vector, "01020304;\n");
    }
}

#[test]
fn picture_without_pixels_has_an_empty_vector() {
    for (width, height) in [(0, 0), (0, 3), (3, 0)] {
        let picture = grid(width, height, Vec::new());
        let vector = build_memory_vector(
            &picture,
            ColorMode::FullColor,
            AlphaPolicy::Opaque,
            127,
            Representation::Binary,
            Style::SpaceSeparated,
        );
        assert_eq!(vector, "");
    }
}

#[test]
fn vector_has_one_entry_for_every_pixel() {
    for (width, height) in [(1u32, 1u32), (4, 3), (1, 5), (5, 1), (7, 7)] {
        for style in [Style::SpaceSeparated, Style::CommaSeparated] {
            for representation in
                [Representation::Binary, Representation::Decimal, Representation::Hexadecimal]
            {
                let vector = build_memory_vector(
                    &ramp(width, height),
                    ColorMode::Reduced8,
                    AlphaPolicy::Full,
                    127,
                    representation,
                    style,
                );
                let words: Vec<&str> = vector
                    .split(|c| c == ' ' || c == ',' || c == ';' || c == '\n')
                    .filter(|word| !word.is_empty())
                    .collect();
                assert_eq!(words.len(), (width * height) as usize);
                let radix = u32::from(representation.radix());
                assert!(words.iter().all(|word| u32::from_str_radix(word, radix).is_ok()));
            }
        }
    }
}

#[test]
fn separators_counted_with_spaces() {
    for (width, height) in [(1usize, 1usize), (4, 3), (1, 5), (5, 1), (7, 7)] {
        let vector = build_memory_vector(
            &ramp(width as u32, height as u32),
            ColorMode::FullColor,
            AlphaPolicy::Threshold,
            127,
            Representation::Hexadecimal,
            Style::SpaceSeparated,
        );
        assert_eq!(count(&vector, ' '), (width - 1) * height);
        assert_eq!(count(&vector, ','), height - 1);
        assert_eq!(count(&vector, ';'), 1);
        assert_eq!(count(&vector, '\n'), height);
        assert!(vector.ends_with(";\n"));
        for row in vector.lines() {
            assert_eq!(count(row, ' '), width - 1);
        }
    }
}

#[test]
fn separators_counted_with_commas() {
    for (width, height) in [(1usize, 1usize), (4, 3), (1, 5), (5, 1), (7, 7)] {
        let vector = build_memory_vector(
            &ramp(width as u32, height as u32),
            ColorMode::Monochrome1,
            AlphaPolicy::Full,
            127,
            Representation::Decimal,
            Style::CommaSeparated,
        );
        assert_eq!(count(&vector, ' '), 0);
        assert_eq!(count(&vector, ','), (width - 1) * height + (height - 1));
        assert_eq!(count(&vector, ';'), 1);
        assert_eq!(count(&vector, '\n'), height);
        assert!(vector.ends_with(";\n"));
        let rows: Vec<&str> = vector.lines().collect();
        assert_eq!(rows.len(), height);
        for (y, row) in rows.iter().enumerate() {
            let in_row = if y + 1 == height { count(row, ',') } else { count(row, ',') - 1 };
            assert_eq!(in_row, width - 1);
        }
    }
}
