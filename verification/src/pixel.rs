//! Pixels, and the memory word that stands for one pixel.

use vstd::arithmetic::power2::{lemma2_to64, pow2};
use vstd::prelude::*;

verus! {

/// One picture element: four channels of eight bits each.
#[derive(Clone, Copy, Debug, PartialEq, Eq, Structural)]
pub struct Pixel {
    pub red: u8,
    pub green: u8,
    pub blue: u8,
    pub alpha: u8,
}

/// How the three colour channels of a pixel are turned into a colour code.
#[derive(Clone, Copy, Debug, PartialEq, Eq, Structural)]
pub enum ColorMode {
    /// All 24 bits of colour, red first.
    FullColor,
    /// Eight bits: the top three of red, the top three of green, the top two of blue.
    Reduced8,
    /// Eight bits of brightness.
    Grayscale8,
    /// One bit: bright or dark.
    Monochrome1,
}

/// How much of the alpha channel goes into a memory word.
#[derive(Clone, Copy, Debug, PartialEq, Eq, Structural)]
pub enum AlphaPolicy {
    /// No alpha: the word is the colour code alone.
    Opaque,
    /// One bit: whether alpha reaches the threshold.
    Threshold,
    /// All eight bits of alpha.
    Full,
}

impl ColorMode {
    /// The number of bits in a colour code of this mode.
    pub open spec fn spec_width(self) -> nat {
        match self {
            ColorMode::FullColor => 24,
            ColorMode::Reduced8 => 8,
            ColorMode::Grayscale8 => 8,
            ColorMode::Monochrome1 => 1,
        }
    }

    /// The number of bits in a colour code of this mode.
    pub fn width(&self) -> (bits: u8)
        ensures
            bits == self.spec_width(),
    {
        match self {
            ColorMode::FullColor => 24,
            ColorMode::Reduced8 => 8,
            ColorMode::Grayscale8 => 8,
            ColorMode::Monochrome1 => 1,
        }
    }

    /// The name by which the file's heading calls this mode.
    pub open spec fn label_text(self) -> Seq<char> {
        match self {
            ColorMode::FullColor => seq!['H', 'D', 'M', 'I'],
            ColorMode::Reduced8 => seq!['V', 'G', 'A'],
            ColorMode::Grayscale8 => seq!['G', 'r', 'a', 'y'],
            ColorMode::Monochrome1 => seq!['B', 'i', 't'],
        }
    }

    /// The name by which the file's heading calls this mode.
    pub fn label(&self) -> (text: &'static str)
        ensures
            text@ == self.label_text(),
    {
        proof {
            reveal_strlit("HDMI");
            reveal_strlit("VGA");
            reveal_strlit("Gray");
            reveal_strlit("Bit");
        }
        let text: &'static str = match self {
            ColorMode::FullColor => "HDMI",
            ColorMode::Reduced8 => "VGA",
            ColorMode::Grayscale8 => "Gray",
            ColorMode::Monochrome1 => "Bit",
        };
        assert(text@ =~= self.label_text());
        text
    }
}

impl AlphaPolicy {
    /// The number of bits that the alpha code adds to a word.
    pub open spec fn spec_width(self) -> nat {
        match self {
            AlphaPolicy::Opaque => 0,
            AlphaPolicy::Threshold => 1,
            AlphaPolicy::Full => 8,
        }
    }

    /// The number of bits that the alpha code adds to a word.
    pub fn width(&self) -> (bits: u8)
        ensures
            bits == self.spec_width(),
    {
        match self {
            AlphaPolicy::Opaque => 0,
            AlphaPolicy::Threshold => 1,
            AlphaPolicy::Full => 8,
        }
    }

    /// The policy asked for by repeating a flag: not at all for no alpha,
    /// once for one bit, more often for all eight bits.
    pub fn from_occurrences(count: u8) -> (policy: AlphaPolicy)
        ensures
            count == 0 ==> policy == AlphaPolicy::Opaque,
            count == 1 ==> policy == AlphaPolicy::Threshold,
            count >= 2 ==> policy == AlphaPolicy::Full,
    {
        if count == 0 {
            AlphaPolicy::Opaque
        } else if count == 1 {
            AlphaPolicy::Threshold
        } else {
            AlphaPolicy::Full
        }
    }
}

/// The eight-bit colour of a pixel: red and green cut down to their top three
/// bits, blue to its top two, packed as `rrrgggbb`.
pub open spec fn reduced8(red: u8, green: u8, blue: u8) -> u8 {
    (red & 0xE0) | ((green & 0xE0) >> 3) | ((blue & 0xC0) >> 6)
}

/// The brightness of a pixel: the channels weighted by 0.2126, 0.7152 and
/// 0.0722, each divided by 255, summed and cut off below the point.
///
/// The weights add up to one, so the sum only reaches 1 where all three
/// channels are 255; everywhere else the brightness is 0.
pub open spec fn grayscale8(red: u8, green: u8, blue: u8) -> nat {
    ((2126 * red + 7152 * green + 722 * blue) / 2_550_000) as nat
}

/// Whether a pixel counts as bright: at least two of its three colour
/// channels are 128 or more.
pub open spec fn monochrome1(red: u8, green: u8, blue: u8) -> bool {
    ||| red >= 128 && green >= 128
    ||| red >= 128 && blue >= 128
    ||| green >= 128 && blue >= 128
}

/// The colour code of a pixel under a mode.
pub open spec fn color_code(pixel: Pixel, mode: ColorMode) -> nat {
    match mode {
        ColorMode::FullColor => (pixel.red * 65536 + pixel.green * 256 + pixel.blue) as nat,
        ColorMode::Reduced8 => reduced8(pixel.red, pixel.green, pixel.blue) as nat,
        ColorMode::Grayscale8 => grayscale8(pixel.red, pixel.green, pixel.blue),
        ColorMode::Monochrome1 => if monochrome1(pixel.red, pixel.green, pixel.blue) {
            1
        } else {
            0
        },
    }
}

/// The alpha code of a pixel under a policy. The threshold only matters to
/// `Threshold`.
pub open spec fn alpha_code(alpha: u8, policy: AlphaPolicy, threshold: u8) -> nat {
    match policy {
        AlphaPolicy::Opaque => 0,
        AlphaPolicy::Threshold => if alpha >= threshold {
            1
        } else {
            0
        },
        AlphaPolicy::Full => alpha as nat,
    }
}

/// The number of bits in every memory word of one run.
pub open spec fn word_width(mode: ColorMode, policy: AlphaPolicy) -> nat {
    mode.spec_width() + policy.spec_width()
}

/// The memory word of a pixel: the colour code moved up by the width of the
/// alpha code, with the alpha code in the bits below it.
pub open spec fn memory_word(
    pixel: Pixel,
    mode: ColorMode,
    policy: AlphaPolicy,
    threshold: u8,
) -> nat {
    color_code(pixel, mode) * pow2(policy.spec_width()) + alpha_code(
        pixel.alpha,
        policy,
        threshold,
    )
}

/// Reduces a colour to eight bits, as `rrrgggbb`.
pub fn to_vga(red: u8, green: u8, blue: u8) -> (code: u8)
    ensures
        code == reduced8(red, green, blue),
        code == (red / 32) * 32 + (green / 32) * 4 + blue / 64,
{
    let code: u8 = (red & 0xE0) | ((green & 0xE0) >> 3) | ((blue & 0xC0) >> 6);
    proof {
        lemma_reduced8_by_division(red, green, blue);
    }
    code
}

/// Reduces a colour to its brightness, which is 1 for pure white and 0 for
/// every other colour.
pub fn to_gray(red: u8, green: u8, blue: u8) -> (code: u8)
    ensures
        code == grayscale8(red, green, blue),
        code == 1 <==> red == 255 && green == 255 && blue == 255,
        code == 0 <==> !(red == 255 && green == 255 && blue == 255),
{
    let sum: u32 = 2126 * (red as u32) + 7152 * (green as u32) + 722 * (blue as u32);
    (sum / 2_550_000) as u8
}

/// Reduces a colour to one bit by a vote of its channels: bright where at
/// least two of them are 128 or more.
pub fn to_bit(red: u8, green: u8, blue: u8) -> (bright: bool)
    ensures
        bright == monochrome1(red, green, blue),
{
    ((red >= 128) && (green >= 128)) || ((red >= 128) && (blue >= 128)) || ((green >= 128) && (blue
        >= 128))
}

/// The colour code of a pixel under a mode.
pub fn reduce_color(pixel: Pixel, mode: ColorMode) -> (code: u32)
    ensures
        code == color_code(pixel, mode),
        code < pow2(mode.spec_width()),
        mode == ColorMode::FullColor ==> code == ((pixel.red as u32) << 16) | ((pixel.green as u32)
            << 8) | (pixel.blue as u32),
{
    proof {
        lemma2_to64();
        lemma_color_code_fits(pixel, mode);
    }
    match mode {
        ColorMode::FullColor => {
            let red: u32 = pixel.red as u32;
            let green: u32 = pixel.green as u32;
            let blue: u32 = pixel.blue as u32;
            assert(((red << 16) | (green << 8) | blue) == red * 65536 + green * 256 + blue)
                by (bit_vector)
                requires
                    red < 256,
                    green < 256,
                    blue < 256,
            ;
            (red << 16) | (green << 8) | blue
        },
        ColorMode::Reduced8 => to_vga(pixel.red, pixel.green, pixel.blue) as u32,
        ColorMode::Grayscale8 => to_gray(pixel.red, pixel.green, pixel.blue) as u32,
        ColorMode::Monochrome1 => if to_bit(pixel.red, pixel.green, pixel.blue) {
            1
        } else {
            0
        },
    }
}

/// The alpha code of a pixel under a policy.
pub fn encode_alpha(alpha: u8, policy: AlphaPolicy, threshold: u8) -> (code: u8)
    ensures
        code == alpha_code(alpha, policy, threshold),
        code < pow2(policy.spec_width()),
{
    proof {
        lemma2_to64();
    }
    match policy {
        AlphaPolicy::Opaque => 0,
        AlphaPolicy::Threshold => if alpha >= threshold {
            1
        } else {
            0
        },
        AlphaPolicy::Full => alpha,
    }
}

/// The memory word of a pixel: its colour code, and below it its alpha code.
pub fn pixel_bit_twiddle(
    pixel: Pixel,
    mode: ColorMode,
    policy: AlphaPolicy,
    threshold: u8,
) -> (word: u32)
    ensures
        word == memory_word(pixel, mode, policy, threshold),
        word < pow2(word_width(mode, policy)),
        word == ((color_code(pixel, mode) as u32) << (policy.spec_width() as u32)) | (alpha_code(
            pixel.alpha,
            policy,
            threshold,
        ) as u32),
{
    let colour: u32 = reduce_color(pixel, mode);
    let alpha: u32 = encode_alpha(pixel.alpha, policy, threshold) as u32;
    proof {
        lemma2_to64();
        lemma_memory_word_fits(pixel, mode, policy, threshold);
    }
    match policy {
        AlphaPolicy::Opaque => {
            assert(colour * pow2(0) == colour);
            assert((colour << 0u32) | 0u32 == colour) by (bit_vector);
            colour
        },
        AlphaPolicy::Threshold => {
            assert(colour * pow2(1) == colour * 2);
            assert((colour << 1u32) == colour * 2 && (colour << 1u32) | alpha == colour * 2 + alpha)
                by (bit_vector)
                requires
                    colour < 0x100_0000,
                    alpha < 2,
            ;
            (colour << 1) + alpha
        },
        AlphaPolicy::Full => {
            assert(colour * pow2(8) == colour * 256);
            assert((colour << 8u32) == colour * 256 && (colour << 8u32) | alpha == colour * 256
                + alpha) by (bit_vector)
                requires
                    colour < 0x100_0000,
                    alpha < 256,
            ;
            (colour << 8) + alpha
        },
    }
}

/// The packed form of the eight-bit colour, written with division: each
/// channel counts only by its top bits.
pub proof fn lemma_reduced8_by_division(red: u8, green: u8, blue: u8)
    ensures
        reduced8(red, green, blue) == (red / 32) * 32 + (green / 32) * 4 + blue / 64,
{
    assert(((red & 0xE0) | ((green & 0xE0) >> 3) | ((blue & 0xC0) >> 6)) == (red / 32) * 32 + (green
        / 32) * 4 + blue / 64) by (bit_vector);
}

/// The eight-bit colour does not change while every channel keeps its top
/// bits: three of red, three of green, two of blue.
pub proof fn lemma_reduced8_ignores_low_bits(
    red: u8,
    green: u8,
    blue: u8,
    red2: u8,
    green2: u8,
    blue2: u8,
)
    requires
        red / 32 == red2 / 32,
        green / 32 == green2 / 32,
        blue / 64 == blue2 / 64,
    ensures
        reduced8(red, green, blue) == reduced8(red2, green2, blue2),
{
    lemma_reduced8_by_division(red, green, blue);
    lemma_reduced8_by_division(red2, green2, blue2);
}

/// A colour code has no more bits than its mode allows.
pub proof fn lemma_color_code_fits(pixel: Pixel, mode: ColorMode)
    ensures
        color_code(pixel, mode) < pow2(mode.spec_width()),
{
    lemma2_to64();
    lemma_reduced8_by_division(pixel.red, pixel.green, pixel.blue);
}

/// Every memory word of a run fits the one width that the mode and the alpha
/// policy fix, whatever the pixel and the threshold.
pub proof fn lemma_memory_word_fits(
    pixel: Pixel,
    mode: ColorMode,
    policy: AlphaPolicy,
    threshold: u8,
)
    ensures
        word_width(mode, policy) == mode.spec_width() + policy.spec_width(),
        1 <= word_width(mode, policy) <= 32,
        memory_word(pixel, mode, policy, threshold) < pow2(word_width(mode, policy)),
{
    lemma2_to64();
    lemma_color_code_fits(pixel, mode);
    let colour = color_code(pixel, mode);
    let alpha = alpha_code(pixel.alpha, policy, threshold);
    match policy {
        AlphaPolicy::Opaque => {
            assert(colour * pow2(0) + alpha == colour);
        },
        AlphaPolicy::Threshold => {
            assert(colour * pow2(1) + alpha <= colour * 2 + 1);
        },
        AlphaPolicy::Full => {
            assert(colour * pow2(8) + alpha <= colour * 256 + 255);
        },
    }
}

} // verus!
