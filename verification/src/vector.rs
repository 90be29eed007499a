//! The initialisation vector: the memory words of all pixels in row-major
//! order, each followed by what separates it from the next.

use crate::grid::{lemma_index_in_range, GridView, PixelGrid};
use crate::numeral::{format_word, lemma_word_text_is_digits, word_text, Representation};
use crate::pixel::{memory_word, pixel_bit_twiddle, word_width, AlphaPolicy, ColorMode, Pixel};
use crate::separator::{
    boundary, boundary_after, is_separator_char, lemma_last_place, lemma_occurrences_absent,
    lemma_occurrences_concat, lemma_separator_occurrences, occurrences, separator,
    separator_occurrences, separator_str, Boundary, Style,
};
use vstd::arithmetic::div_mod::{lemma_div_by_multiple, lemma_fundamental_div_mod_converse};
use vstd::prelude::*;
use vstd::seq_lib::lemma_flatten_concat;
use vstd::string::StringExecFns;

verus! {

/// The text of one pixel as it stands in the file: its memory word in the
/// chosen representation.
pub open spec fn pixel_text(
    pixel: Pixel,
    mode: ColorMode,
    policy: AlphaPolicy,
    threshold: u8,
    representation: Representation,
) -> Seq<char> {
    word_text(memory_word(pixel, mode, policy, threshold), word_width(mode, policy), representation)
}

/// The entry of the vector for the pixel at `index` in row-major order: the
/// pixel's text and the separator that follows it.
pub open spec fn vector_entry(
    grid: GridView,
    index: int,
    mode: ColorMode,
    policy: AlphaPolicy,
    threshold: u8,
    representation: Representation,
    style: Style,
) -> Seq<char> {
    pixel_text(grid.pixels[index], mode, policy, threshold, representation) + separator(
        boundary_after(
            (index % grid.width as int) as nat,
            (index / grid.width as int) as nat,
            grid.width,
            grid.height,
        ),
        style,
    )
}

/// The entries of the vector: one for every pixel, in row-major order.
pub open spec fn vector_entries(
    grid: GridView,
    mode: ColorMode,
    policy: AlphaPolicy,
    threshold: u8,
    representation: Representation,
    style: Style,
) -> Seq<Seq<char>> {
    Seq::new(
        grid.pixels.len(),
        |index: int| vector_entry(grid, index, mode, policy, threshold, representation, style),
    )
}

/// The text of the vector: its entries one after the other.
pub open spec fn vector_text(
    grid: GridView,
    mode: ColorMode,
    policy: AlphaPolicy,
    threshold: u8,
    representation: Representation,
    style: Style,
) -> Seq<char> {
    vector_entries(grid, mode, policy, threshold, representation, style).flatten()
}

/// The text of a pixel: its memory word in the chosen representation.
pub fn pixel2str(
    pixel: Pixel,
    mode: ColorMode,
    policy: AlphaPolicy,
    threshold: u8,
    representation: Representation,
) -> (text: String)
    ensures
        text@ == pixel_text(pixel, mode, policy, threshold, representation),
{
    let word: u32 = pixel_bit_twiddle(pixel, mode, policy, threshold);
    let width: u8 = mode.width() + policy.width();
    format_word(word, width, representation)
}

/// Writes the vector of a picture: for every pixel, row by row, its memory
/// word and the separator after it.
pub fn build_memory_vector(
    grid: &PixelGrid,
    mode: ColorMode,
    policy: AlphaPolicy,
    threshold: u8,
    representation: Representation,
    style: Style,
) -> (vector: String)
    ensures
        vector@ == vector_text(grid@, mode, policy, threshold, representation, style),
        vector_entries(grid@, mode, policy, threshold, representation, style).len() == grid@.width
            * grid@.height,
{
    let width: u32 = grid.width();
    let height: u32 = grid.height();
    let pixels = grid.pixels();
    let ghost entries = vector_entries(grid@, mode, policy, threshold, representation, style);
    let mut vector = String::new();
    let mut index: usize = 0;
    let mut y: u32 = 0;
    assert(entries.take(0) =~= Seq::<Seq<char>>::empty());
    while y < height
        invariant
            width == grid@.width,
            height == grid@.height,
            pixels@ == grid@.pixels,
            grid@.well_formed(),
            entries == vector_entries(grid@, mode, policy, threshold, representation, style),
            y <= height,
            index == y * width,
            vector@ == entries.take(index as int).flatten(),
        decreases height - y,
    {
        let mut x: u32 = 0;
        while x < width
            invariant
                width == grid@.width,
                height == grid@.height,
                pixels@ == grid@.pixels,
                grid@.well_formed(),
                entries == vector_entries(grid@, mode, policy, threshold, representation, style),
                y < height,
                x <= width,
                index == y * width + x,
                vector@ == entries.take(index as int).flatten(),
            decreases width - x,
        {
            proof {
                lemma_index_in_range(x as nat, y as nat, width as nat, height as nat);
                lemma_fundamental_div_mod_converse(index as int, width as int, y as int, x as int);
            }
            assert(index < pixels.len());
            let text = pixel2str(pixels[index], mode, policy, threshold, representation);
            vector.append(text.as_str());
            vector.append(separator_str(boundary(x, y, width, height), style));
            proof {
                let entry = entries[index as int];
                let before = entries.take(index as int);
                assert(entries.take(index + 1) =~= before.push(entry));
                before.lemma_flatten_push(entry);
                assert(vector@ =~= before.flatten() + entry);
            }
            index = index + 1;
            x = x + 1;
        }
        y = y + 1;
        assert(index == y * width) by (nonlinear_arith)
            requires
                index == (y - 1) * width + width,
        ;
    }
    proof {
        assert(index == width * height) by (nonlinear_arith)
            requires
                index == y * width,
                y == height,
        ;
        assert(entries.take(index as int) =~= entries);
    }
    vector
}

/// The text of one row of the vector: the entries of the pixels of row
/// `row`, one after the other.
pub open spec fn row_text(
    grid: GridView,
    row: nat,
    mode: ColorMode,
    policy: AlphaPolicy,
    threshold: u8,
    representation: Representation,
    style: Style,
) -> Seq<char> {
    vector_entries(grid, mode, policy, threshold, representation, style).subrange(
        (row * grid.width) as int,
        ((row + 1) * grid.width) as int,
    ).flatten()
}

/// The texts of the first `count` rows of the vector, one after the other.
pub open spec fn rows_text(
    grid: GridView,
    count: nat,
    mode: ColorMode,
    policy: AlphaPolicy,
    threshold: u8,
    representation: Representation,
    style: Style,
) -> Seq<char>
    decreases count,
{
    if count == 0 {
        Seq::empty()
    } else {
        rows_text(grid, (count - 1) as nat, mode, policy, threshold, representation, style)
            + row_text(grid, (count - 1) as nat, mode, policy, threshold, representation, style)
    }
}

/// The vector has exactly one entry for every pixel of the picture, and
/// its text shows them: every entry ends with one space, comma or semicolon,
/// and no such character stands anywhere else.
pub proof fn lemma_entry_count(
    grid: GridView,
    mode: ColorMode,
    policy: AlphaPolicy,
    threshold: u8,
    representation: Representation,
    style: Style,
)
    requires
        grid.well_formed(),
    ensures
        vector_entries(grid, mode, policy, threshold, representation, style).len() == grid.width
            * grid.height,
        occurrences(vector_text(grid, mode, policy, threshold, representation, style), ' ')
            + occurrences(vector_text(grid, mode, policy, threshold, representation, style), ',')
            + occurrences(vector_text(grid, mode, policy, threshold, representation, style), ';')
            == grid.width * grid.height,
{
    if grid.width >= 1 && grid.height >= 1 {
        lemma_vector_separators(grid, mode, policy, threshold, representation, style);
        assert((grid.width - 1) * grid.height + (grid.height - 1) + 1 == grid.width * grid.height)
            by (nonlinear_arith);
    } else {
        assert(grid.width * grid.height == 0) by (nonlinear_arith)
            requires
                grid.width == 0 || grid.height == 0,
        ;
        let entries = vector_entries(grid, mode, policy, threshold, representation, style);
        assert(entries.len() == 0);
        assert(entries.flatten() =~= Seq::<char>::empty());
    }
}

/// No memory word holds a character that separators are made of.
pub proof fn lemma_pixel_text_has_no_separator(
    pixel: Pixel,
    mode: ColorMode,
    policy: AlphaPolicy,
    threshold: u8,
    representation: Representation,
    c: char,
)
    requires
        is_separator_char(c),
    ensures
        occurrences(pixel_text(pixel, mode, policy, threshold, representation), c) == 0,
{
    let text = pixel_text(pixel, mode, policy, threshold, representation);
    lemma_word_text_is_digits(
        memory_word(pixel, mode, policy, threshold),
        word_width(mode, policy),
        representation,
    );
    assert forall|i: int| 0 <= i < text.len() implies text[i] != c by {
        assert(crate::numeral::is_digit_char(text[i]));
    }
    lemma_occurrences_absent(text, c);
}

/// In the entries of the pixels from `from` up to `to`, a separator
/// character occurs as often as in the separators after those pixels.
pub proof fn lemma_entries_separators(
    grid: GridView,
    from: nat,
    to: nat,
    mode: ColorMode,
    policy: AlphaPolicy,
    threshold: u8,
    representation: Representation,
    style: Style,
    c: char,
)
    requires
        grid.well_formed(),
        from <= to <= grid.pixels.len(),
        is_separator_char(c),
    ensures
        occurrences(
            vector_entries(grid, mode, policy, threshold, representation, style).subrange(
                from as int,
                to as int,
            ).flatten(),
            c,
        ) + separator_occurrences(grid.width, grid.height, style, c, from)
            == separator_occurrences(grid.width, grid.height, style, c, to),
    decreases to - from,
{
    let entries = vector_entries(grid, mode, policy, threshold, representation, style);
    if from == to {
        assert(entries.subrange(from as int, to as int).len() == 0);
    } else {
        let last = (to - 1) as nat;
        assert(grid.width >= 1) by (nonlinear_arith)
            requires
                grid.width * grid.height >= 1,
        ;
        let front = entries.subrange(from as int, last as int);
        let entry = entries[last as int];
        let word = pixel_text(grid.pixels[last as int], mode, policy, threshold, representation);
        let after = separator(
            boundary_after(last % grid.width, last / grid.width, grid.width, grid.height),
            style,
        );
        lemma_entries_separators(
            grid,
            from,
            last,
            mode,
            policy,
            threshold,
            representation,
            style,
            c,
        );
        assert(entries.subrange(from as int, to as int) =~= front.push(entry));
        front.lemma_flatten_push(entry);
        lemma_occurrences_concat(front.flatten(), entry, c);
        assert(entry == word + after);
        lemma_occurrences_concat(word, after, c);
        lemma_pixel_text_has_no_separator(
            grid.pixels[last as int],
            mode,
            policy,
            threshold,
            representation,
            c,
        );
    }
}

/// The separators of a whole vector. There is exactly one semicolon, and it
/// ends the vector, followed only by a line break. Every row ends with a
/// line break. Between the words of a row stands one space each, or one
/// comma each, by the style: `width - 1` in every row. Every row but the last
/// ends with a comma before its line break.
pub proof fn lemma_vector_separators(
    grid: GridView,
    mode: ColorMode,
    policy: AlphaPolicy,
    threshold: u8,
    representation: Representation,
    style: Style,
)
    requires
        grid.well_formed(),
        grid.width >= 1,
        grid.height >= 1,
    ensures
        occurrences(vector_text(grid, mode, policy, threshold, representation, style), ';') == 1,
        occurrences(vector_text(grid, mode, policy, threshold, representation, style), '\n')
            == grid.height,
        style == Style::SpaceSeparated ==> occurrences(
            vector_text(grid, mode, policy, threshold, representation, style),
            ' ',
        ) == (grid.width - 1) * grid.height,
        style == Style::SpaceSeparated ==> occurrences(
            vector_text(grid, mode, policy, threshold, representation, style),
            ',',
        ) == grid.height - 1,
        style == Style::CommaSeparated ==> occurrences(
            vector_text(grid, mode, policy, threshold, representation, style),
            ' ',
        ) == 0,
        style == Style::CommaSeparated ==> occurrences(
            vector_text(grid, mode, policy, threshold, representation, style),
            ',',
        ) == (grid.width - 1) * grid.height + (grid.height - 1),
        vector_text(grid, mode, policy, threshold, representation, style).len() >= 2,
        vector_text(grid, mode, policy, threshold, representation, style)[vector_text(
            grid,
            mode,
            policy,
            threshold,
            representation,
            style,
        ).len() - 2] == ';',
        vector_text(grid, mode, policy, threshold, representation, style).last() == '\n',
{
    let entries = vector_entries(grid, mode, policy, threshold, representation, style);
    let count = grid.pixels.len();
    let width = grid.width;
    let height = grid.height;
    assert(entries.subrange(0, count as int) =~= entries);
    lemma_entries_separators(grid, 0, count, mode, policy, threshold, representation, style, ';');
    lemma_entries_separators(grid, 0, count, mode, policy, threshold, representation, style, '\n');
    lemma_entries_separators(grid, 0, count, mode, policy, threshold, representation, style, ' ');
    lemma_entries_separators(grid, 0, count, mode, policy, threshold, representation, style, ',');
    lemma_separator_occurrences(width, height, style, count);
    lemma_div_by_multiple(height as int, width as int);
    assert(count == height * width) by (nonlinear_arith)
        requires
            count == width * height,
    ;
    assert(count - count / width == (width - 1) * height) by (nonlinear_arith)
        requires
            count == width * height,
            count / width == height,
    ;
    assert(count >= 1) by (nonlinear_arith)
        requires
            count == width * height,
            width >= 1,
            height >= 1,
    ;
    let last = (count - 1) as nat;
    let front = entries.subrange(0, last as int);
    let word = pixel_text(grid.pixels[last as int], mode, policy, threshold, representation);
    lemma_last_place(last, width, height);
    assert(entries =~= front.push(entries[last as int]));
    front.lemma_flatten_push(entries[last as int]);
    let text = vector_text(grid, mode, policy, threshold, representation, style);
    assert(entries[last as int] == word + separator(Boundary::End, style));
    assert(text =~= (front.flatten() + word) + seq![';', '\n']);
}

/// The separators of one row of the vector: one line break, at its end;
/// between its words one space each, or one comma each, by the style,
/// `width - 1` in all; before the line break a comma, but in the last row a
/// semicolon.
pub proof fn lemma_row_separators(
    grid: GridView,
    row: nat,
    mode: ColorMode,
    policy: AlphaPolicy,
    threshold: u8,
    representation: Representation,
    style: Style,
)
    requires
        grid.well_formed(),
        grid.width >= 1,
        row < grid.height,
    ensures
        occurrences(row_text(grid, row, mode, policy, threshold, representation, style), '\n')
            == 1,
        occurrences(row_text(grid, row, mode, policy, threshold, representation, style), ';')
            == if row + 1 == grid.height {
            1nat
        } else {
            0nat
        },
        style == Style::SpaceSeparated ==> occurrences(
            row_text(grid, row, mode, policy, threshold, representation, style),
            ' ',
        ) == grid.width - 1,
        style == Style::SpaceSeparated ==> occurrences(
            row_text(grid, row, mode, policy, threshold, representation, style),
            ',',
        ) == if row + 1 == grid.height {
            0nat
        } else {
            1nat
        },
        style == Style::CommaSeparated ==> occurrences(
            row_text(grid, row, mode, policy, threshold, representation, style),
            ' ',
        ) == 0,
        style == Style::CommaSeparated ==> occurrences(
            row_text(grid, row, mode, policy, threshold, representation, style),
            ',',
        ) == grid.width - 1 + if row + 1 == grid.height {
            0nat
        } else {
            1nat
        },
{
    let width = grid.width;
    let height = grid.height;
    let from = row * width;
    let to = (row + 1) * width;
    assert(to == from + width) by (nonlinear_arith)
        requires
            from == row * width,
            to == (row + 1) * width,
    ;
    assert(to <= width * height && (to == width * height <==> row + 1 == height))
        by (nonlinear_arith)
        requires
            to == (row + 1) * width,
            row + 1 <= height,
            width >= 1,
    ;
    lemma_div_by_multiple(row as int, width as int);
    lemma_div_by_multiple(row as int + 1, width as int);
    lemma_separator_occurrences(width, height, style, from);
    lemma_separator_occurrences(width, height, style, to);
    lemma_entries_separators(grid, from, to, mode, policy, threshold, representation, style, ';');
    lemma_entries_separators(grid, from, to, mode, policy, threshold, representation, style, '\n');
    lemma_entries_separators(grid, from, to, mode, policy, threshold, representation, style, ' ');
    lemma_entries_separators(grid, from, to, mode, policy, threshold, representation, style, ',');
}

/// The vector is its rows, one after the other from the top.
pub proof fn lemma_vector_is_rows(
    grid: GridView,
    mode: ColorMode,
    policy: AlphaPolicy,
    threshold: u8,
    representation: Representation,
    style: Style,
)
    requires
        grid.well_formed(),
    ensures
        vector_text(grid, mode, policy, threshold, representation, style) == rows_text(
            grid,
            grid.height,
            mode,
            policy,
            threshold,
            representation,
            style,
        ),
{
    let entries = vector_entries(grid, mode, policy, threshold, representation, style);
    lemma_rows_are_entries(grid, grid.height, mode, policy, threshold, representation, style);
    assert(entries.take((grid.height * grid.width) as int) =~= entries) by {
        assert(grid.height * grid.width == grid.width * grid.height) by (nonlinear_arith);
    }
}

/// The first `count` rows are the entries of the pixels of those rows.
pub proof fn lemma_rows_are_entries(
    grid: GridView,
    count: nat,
    mode: ColorMode,
    policy: AlphaPolicy,
    threshold: u8,
    representation: Representation,
    style: Style,
)
    requires
        grid.well_formed(),
        count <= grid.height,
    ensures
        count * grid.width <= grid.pixels.len(),
        rows_text(grid, count, mode, policy, threshold, representation, style) == vector_entries(
            grid,
            mode,
            policy,
            threshold,
            representation,
            style,
        ).take((count * grid.width) as int).flatten(),
    decreases count,
{
    let entries = vector_entries(grid, mode, policy, threshold, representation, style);
    let width = grid.width;
    assert(count * width <= width * grid.height) by (nonlinear_arith)
        requires
            count <= grid.height,
    ;
    if count == 0 {
        assert(0 * width == 0) by (nonlinear_arith);
        assert(entries.take(0).len() == 0);
        assert(entries.take(0).flatten() =~= Seq::<char>::empty());
    } else {
        let row = (count - 1) as nat;
        lemma_rows_are_entries(grid, row, mode, policy, threshold, representation, style);
        assert(count * width == row * width + width) by (nonlinear_arith)
            requires
                count == row + 1,
        ;
        let above = entries.take((row * width) as int);
        let this = entries.subrange((row * width) as int, (count * width) as int);
        assert(entries.take((count * width) as int) =~= above + this);
        lemma_flatten_concat(above, this);
        assert(this.flatten() == row_text(
            grid,
            row,
            mode,
            policy,
            threshold,
            representation,
            style,
        ));
    }
}

} // verus!
