//! What stands after each word of the vector, and how often.

use vstd::arithmetic::div_mod::{
    lemma_fundamental_div_mod, lemma_fundamental_div_mod_converse, lemma_mod_bound,
};
use vstd::prelude::*;

verus! {

/// What stands between two words of one row.
#[derive(Clone, Copy, Debug, PartialEq, Eq, Structural)]
pub enum Style {
    /// A space.
    SpaceSeparated,
    /// A comma.
    CommaSeparated,
}

/// What follows a word, by the place of its pixel in the picture.
#[derive(Clone, Copy, Debug, PartialEq, Eq, Structural)]
pub enum Boundary {
    /// Another word of the same row follows.
    InRow,
    /// The row ends here and another row follows.
    RowBreak,
    /// The vector ends here.
    End,
}

/// What follows the word of the pixel in column `x` of row `y`.
pub open spec fn boundary_after(x: nat, y: nat, width: nat, height: nat) -> Boundary {
    if x + 1 == width {
        if y + 1 == height {
            Boundary::End
        } else {
            Boundary::RowBreak
        }
    } else {
        Boundary::InRow
    }
}

/// The text of a boundary. Only a boundary inside a row goes by the style:
/// a row always ends with a comma and a line break, and the vector always
/// ends with a semicolon and a line break.
pub open spec fn separator(boundary: Boundary, style: Style) -> Seq<char> {
    match boundary {
        Boundary::End => seq![';', '\n'],
        Boundary::RowBreak => seq![',', '\n'],
        Boundary::InRow => match style {
            Style::SpaceSeparated => seq![' '],
            Style::CommaSeparated => seq![','],
        },
    }
}

/// What follows the word of the pixel in column `x` of row `y`.
pub fn boundary(x: u32, y: u32, width: u32, height: u32) -> (boundary: Boundary)
    ensures
        boundary == boundary_after(x as nat, y as nat, width as nat, height as nat),
{
    if width > 0 && x == width - 1 {
        if height > 0 && y == height - 1 {
            Boundary::End
        } else {
            Boundary::RowBreak
        }
    } else {
        Boundary::InRow
    }
}

/// The text of a boundary.
pub fn separator_str(boundary: Boundary, style: Style) -> (text: &'static str)
    ensures
        text@ == separator(boundary, style),
{
    proof {
        reveal_strlit(";\n");
        reveal_strlit(",\n");
        reveal_strlit(" ");
        reveal_strlit(",");
    }
    let text: &'static str = match boundary {
        Boundary::End => ";\n",
        Boundary::RowBreak => ",\n",
        Boundary::InRow => match style {
            Style::SpaceSeparated => " ",
            Style::CommaSeparated => ",",
        },
    };
    assert(text@ =~= separator(boundary, style));
    text
}

/// How often a character occurs in a text.
pub open spec fn occurrences(text: Seq<char>, c: char) -> nat
    decreases text.len(),
{
    if text.len() == 0 {
        0
    } else {
        occurrences(text.drop_last(), c) + if text.last() == c {
            1nat
        } else {
            0nat
        }
    }
}

/// Whether a character is one of those that separators are made of.
pub open spec fn is_separator_char(c: char) -> bool {
    c == ' ' || c == ',' || c == ';' || c == '\n'
}

/// How often a character occurs in the separators after the first `count`
/// words of a picture, the words taken in row-major order.
pub open spec fn separator_occurrences(
    width: nat,
    height: nat,
    style: Style,
    c: char,
    count: nat,
) -> nat
    decreases count,
{
    if count == 0 {
        0
    } else {
        let index = (count - 1) as nat;
        separator_occurrences(width, height, style, c, index) + occurrences(
            separator(boundary_after(index % width, index / width, width, height), style),
            c,
        )
    }
}

/// A character occurs in two texts put together as often as in both.
pub proof fn lemma_occurrences_concat(front: Seq<char>, back: Seq<char>, c: char)
    ensures
        occurrences(front + back, c) == occurrences(front, c) + occurrences(back, c),
    decreases back.len(),
{
    if back.len() == 0 {
        assert(front + back =~= front);
    } else {
        assert((front + back).drop_last() =~= front + back.drop_last());
        lemma_occurrences_concat(front, back.drop_last(), c);
    }
}

/// A character that a text does not hold occurs in it zero times.
pub proof fn lemma_occurrences_absent(text: Seq<char>, c: char)
    requires
        forall|i: int| 0 <= i < text.len() ==> text[i] != c,
    ensures
        occurrences(text, c) == 0,
    decreases text.len(),
{
    if text.len() > 0 {
        lemma_occurrences_absent(text.drop_last(), c);
    }
}

/// How often each character occurs in each separator.
pub proof fn lemma_separator_chars(boundary: Boundary, style: Style, c: char)
    ensures
        occurrences(separator(boundary, style), c) == match boundary {
            Boundary::End => if c == ';' || c == '\n' {
                1nat
            } else {
                0nat
            },
            Boundary::RowBreak => if c == ',' || c == '\n' {
                1nat
            } else {
                0nat
            },
            Boundary::InRow => match style {
                Style::SpaceSeparated => if c == ' ' {
                    1nat
                } else {
                    0nat
                },
                Style::CommaSeparated => if c == ',' {
                    1nat
                } else {
                    0nat
                },
            },
        },
{
    match boundary {
        Boundary::End => lemma_occurrences_pair(';', '\n', c),
        Boundary::RowBreak => lemma_occurrences_pair(',', '\n', c),
        Boundary::InRow => match style {
            Style::SpaceSeparated => lemma_occurrences_single(' ', c),
            Style::CommaSeparated => lemma_occurrences_single(',', c),
        },
    }
}

/// How often a character occurs in a text of one character.
pub proof fn lemma_occurrences_single(only: char, c: char)
    ensures
        occurrences(seq![only], c) == if only == c {
            1nat
        } else {
            0nat
        },
{
    let text = seq![only];
    assert(text.len() == 1);
    assert(text.drop_last().len() == 0);
    assert(occurrences(text.drop_last(), c) == 0);
    assert(text.last() == only);
}

/// How often a character occurs in a text of two characters.
pub proof fn lemma_occurrences_pair(first: char, second: char, c: char)
    ensures
        occurrences(seq![first, second], c) == if first == c {
            1nat
        } else {
            0nat
        } + if second == c {
            1nat
        } else {
            0nat
        },
{
    let text = seq![first, second];
    assert(text.len() == 2);
    assert(text.drop_last() =~= seq![first]);
    assert(text.last() == second);
    lemma_occurrences_single(first, c);
}

/// Going on by one place in row-major order: the count of full rows grows
/// exactly where the place was the last of its row.
pub proof fn lemma_next_place(index: nat, width: nat)
    requires
        width >= 1,
    ensures
        index % width + 1 == width ==> (index + 1) / width == index / width + 1,
        index % width + 1 != width ==> (index + 1) / width == index / width,
{
    let row = index as int / width as int;
    let column = index as int % width as int;
    lemma_fundamental_div_mod(index as int, width as int);
    lemma_mod_bound(index as int, width as int);
    assert(width * row == row * width) by (nonlinear_arith);
    if column + 1 == width {
        assert(index + 1 == (row + 1) * width + 0) by (nonlinear_arith)
            requires
                index == row * width + column,
                column + 1 == width,
        ;
        lemma_fundamental_div_mod_converse(index as int + 1, width as int, row + 1, 0);
    } else {
        lemma_fundamental_div_mod_converse(index as int + 1, width as int, row, column + 1);
    }
}

/// The last place of the last row is the last place of the picture, and no
/// other is.
pub proof fn lemma_last_place(index: nat, width: nat, height: nat)
    requires
        width >= 1,
        height >= 1,
        index < width * height,
    ensures
        (index % width + 1 == width && index / width + 1 == height) <==> index + 1 == width
            * height,
{
    let row = index as int / width as int;
    let column = index as int % width as int;
    lemma_fundamental_div_mod(index as int, width as int);
    lemma_mod_bound(index as int, width as int);
    assert(width * row == row * width) by (nonlinear_arith);
    if column + 1 == width && row + 1 == height {
        assert(index + 1 == width * height) by (nonlinear_arith)
            requires
                index == row * width + column,
                column + 1 == width,
                row + 1 == height,
        ;
    }
    if index + 1 == width * height {
        assert(index == (height - 1) * width + (width - 1)) by (nonlinear_arith)
            requires
                index + 1 == width * height,
        ;
        lemma_fundamental_div_mod_converse(
            index as int,
            width as int,
            height - 1,
            width - 1,
        );
    }
}

/// The separators after the first `count` words of a picture hold: a
/// semicolon only once all words are there; a line break for every row that
/// is complete; between the words of a row one space each, or one comma each,
/// by the style; and a comma for every complete row but the last.
pub proof fn lemma_separator_occurrences(width: nat, height: nat, style: Style, count: nat)
    requires
        width >= 1,
        height >= 1,
        count <= width * height,
    ensures
        separator_occurrences(width, height, style, ';', count) == if count == width * height {
            1nat
        } else {
            0nat
        },
        separator_occurrences(width, height, style, '\n', count) == count / width,
        style == Style::SpaceSeparated ==> separator_occurrences(width, height, style, ' ', count)
            == count - count / width,
        style == Style::SpaceSeparated ==> separator_occurrences(width, height, style, ',', count)
            == count / width - if count == width * height {
            1nat
        } else {
            0nat
        },
        style == Style::CommaSeparated ==> separator_occurrences(width, height, style, ' ', count)
            == 0,
        style == Style::CommaSeparated ==> separator_occurrences(width, height, style, ',', count)
            == count - if count == width * height {
            1nat
        } else {
            0nat
        },
    decreases count,
{
    assert(width * height >= 1) by (nonlinear_arith)
        requires
            width >= 1,
            height >= 1,
    ;
    if count == 0 {
        assert(0nat / width == 0) by (nonlinear_arith)
            requires
                width >= 1,
        ;
    } else {
        let index = (count - 1) as nat;
        let boundary = boundary_after(index % width, index / width, width, height);
        lemma_separator_occurrences(width, height, style, index);
        lemma_next_place(index, width);
        lemma_last_place(index, width, height);
        lemma_separator_chars(boundary, style, ';');
        lemma_separator_chars(boundary, style, '\n');
        lemma_separator_chars(boundary, style, ' ');
        lemma_separator_chars(boundary, style, ',');
    }
}

} // verus!
