//! The file as a whole: a heading of comments, the radix, and the vector.

use crate::grid::PixelGrid;
use crate::numeral::{digits, push_digits, Representation};
use crate::pixel::{word_width, AlphaPolicy, ColorMode};
use crate::separator::Style;
use crate::vector::{build_memory_vector, vector_text};
use vstd::prelude::*;
use vstd::string::StringExecFns;

verus! {

/// All that the file says of one picture.
#[derive(Debug)]
pub struct CoeInfo {
    /// The colour mode of the words.
    pub mode: ColorMode,
    /// The number of columns of the picture.
    pub image_width: u32,
    /// The number of rows of the picture.
    pub image_height: u32,
    /// The number of bits in a memory word.
    pub mem_width: u32,
    /// The number of memory words: one for each pixel.
    pub mem_depth: u64,
    /// The rounded-up square root of the depth, which the heading reports as
    /// the width of the address. Mind that this is not the number of address
    /// bits that `mem_depth` words need: that would be the rounded-up
    /// logarithm to the base 2.
    pub address_width: u32,
    /// The radix in which the words are written: 2, 10 or 16. It goes by the
    /// representation alone, not by the width of the words.
    pub memory_init_radix: u8,
    /// The words, with their separators.
    pub memory_init_vector: String,
}

/// Whether `root` is the square root of `n`, rounded up: the least number
/// whose square reaches `n`.
pub open spec fn is_ceil_sqrt(root: nat, n: nat) -> bool {
    &&& root * root >= n
    &&& root == 0 || (root - 1) * (root - 1) < n
}

/// The text of the file.
pub open spec fn document_text(coe: CoeInfo) -> Seq<char> {
    ";This is a .COE file in a "@ + coe.mode.label_text()
        + " image generated via the coeconvertor_rs tool.\n"@ + ";The image has a width: "@
        + digits(coe.image_width as nat, 10) + " and height: "@ + digits(
        coe.image_height as nat,
        10,
    ) + "\n"@ + ";The memory has a width="@ + digits(coe.mem_width as nat, 10) + ", and depth="@
        + digits(coe.mem_depth as nat, 10) + "\n"@ + ";(So that means addra is "@ + digits(
        coe.address_width as nat,
        10,
    ) + " if minimum area 8kx2 is used) \n"@ + "memory_initialization_radix="@ + digits(
        coe.memory_init_radix as nat,
        10,
    ) + "\n"@ + "memory_initialization_vector="@ + coe.memory_init_vector@
}

/// The square root of a number, rounded up.
pub fn ceil_sqrt(n: u64) -> (root: u64)
    ensures
        is_ceil_sqrt(root as nat, n as nat),
        root <= 0x1_0000_0000,
{
    let mut low: u64 = 0;
    let mut high: u64 = 0x1_0000_0000;
    while low < high
        invariant
            low <= high <= 0x1_0000_0000,
            high * high >= n,
            low == 0 || (low - 1) * (low - 1) < n,
        decreases high - low,
    {
        let mid: u64 = low + (high - low) / 2;
        assert(mid * mid <= u64::MAX) by (nonlinear_arith)
            requires
                mid <= 0xFFFF_FFFF,
        ;
        if mid * mid >= n {
            high = mid;
        } else {
            low = mid + 1;
        }
    }
    low
}

/// Gathers all that the file says of a picture: its dimensions, the width
/// and the number of its memory words, the radix, and the vector itself.
pub fn build_info(
    grid: &PixelGrid,
    mode: ColorMode,
    policy: AlphaPolicy,
    threshold: u8,
    style: Style,
    representation: Representation,
) -> (coe: CoeInfo)
    ensures
        coe.mode == mode,
        coe.image_width == grid@.width,
        coe.image_height == grid@.height,
        coe.mem_width == word_width(mode, policy),
        coe.mem_depth == grid@.width * grid@.height,
        is_ceil_sqrt(coe.address_width as nat, grid@.width * grid@.height),
        coe.memory_init_radix == representation.spec_radix(),
        coe.memory_init_vector@ == vector_text(
            grid@,
            mode,
            policy,
            threshold,
            representation,
            style,
        ),
{
    let image_width: u32 = grid.width();
    let image_height: u32 = grid.height();
    assert(image_width * image_height <= 0xFFFF_FFFF * 0xFFFF_FFFF) by (nonlinear_arith)
        requires
            image_width <= 0xFFFF_FFFF,
            image_height <= 0xFFFF_FFFF,
    ;
    let mem_depth: u64 = (image_width as u64) * (image_height as u64);
    let root: u64 = ceil_sqrt(mem_depth);
    assert(root <= 0xFFFF_FFFF) by {
        if root == 0x1_0000_0000 {
            assert((root - 1) * (root - 1) == 0xFFFF_FFFF * 0xFFFF_FFFF);
        }
    }
    CoeInfo {
        memory_init_vector: build_memory_vector(grid, mode, policy, threshold, representation, style),
        image_width,
        image_height,
        mode,
        mem_depth,
        mem_width: (mode.width() + policy.width()) as u32,
        address_width: root as u32,
        memory_init_radix: representation.radix(),
    }
}

/// Writes the file: four lines of comment that restate what `coe` holds,
/// the line of the radix, and the line of the vector.
pub fn build_file(coe: CoeInfo) -> (text: String)
    ensures
        text@ == document_text(coe),
{
    let mut text = String::new();
    text.append(";This is a .COE file in a ");
    text.append(coe.mode.label());
    text.append(" image generated via the coeconvertor_rs tool.\n");
    text.append(";The image has a width: ");
    push_digits(&mut text, coe.image_width as u64, 10);
    text.append(" and height: ");
    push_digits(&mut text, coe.image_height as u64, 10);
    text.append("\n");
    text.append(";The memory has a width=");
    push_digits(&mut text, coe.mem_width as u64, 10);
    text.append(", and depth=");
    push_digits(&mut text, coe.mem_depth, 10);
    text.append("\n");
    text.append(";(So that means addra is ");
    push_digits(&mut text, coe.address_width as u64, 10);
    text.append(" if minimum area 8kx2 is used) \n");
    text.append("memory_initialization_radix=");
    push_digits(&mut text, coe.memory_init_radix as u64, 10);
    text.append("\n");
    text.append("memory_initialization_vector=");
    text.append(coe.memory_init_vector.as_str());
    assert(text@ =~= document_text(coe));
    text
}

/// A number has only one rounded-up square root.
pub proof fn lemma_ceil_sqrt_unique(a: nat, b: nat, n: nat)
    requires
        is_ceil_sqrt(a, n),
        is_ceil_sqrt(b, n),
    ensures
        a == b,
{
    if a < b {
        assert(a * a <= (b - 1) * (b - 1)) by (nonlinear_arith)
            requires
                0 <= a <= b - 1,
        ;
    } else if b < a {
        assert(b * b <= (a - 1) * (a - 1)) by (nonlinear_arith)
            requires
                0 <= b <= a - 1,
        ;
    }
}

} // verus!
