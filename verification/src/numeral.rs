//! Numbers written out in digits, in radix 2, 10 or 16.

use vstd::arithmetic::div_mod::{
    lemma_div_decreases, lemma_fundamental_div_mod, lemma_mod_bound, lemma_small_mod,
};
use vstd::arithmetic::power2::{lemma2_to64, lemma_pow2_adds, lemma_pow2_strictly_increases, lemma_pow2_unfold, pow2};
use vstd::prelude::*;
use vstd::string::StringExecFns;

verus! {

/// The radix in which the memory words are written.
#[derive(Clone, Copy, Debug, PartialEq, Eq, Structural)]
pub enum Representation {
    Binary,
    Decimal,
    Hexadecimal,
}

impl Representation {
    /// The radix that the file declares for this representation.
    pub open spec fn spec_radix(self) -> nat {
        match self {
            Representation::Binary => 2,
            Representation::Decimal => 10,
            Representation::Hexadecimal => 16,
        }
    }

    /// The radix that the file declares for this representation.
    pub fn radix(&self) -> (radix: u8)
        ensures
            radix == self.spec_radix(),
    {
        match self {
            Representation::Binary => 2,
            Representation::Decimal => 10,
            Representation::Hexadecimal => 16,
        }
    }
}

/// The character for a digit below 16; letters are upper case.
pub open spec fn digit_char(digit: nat) -> char {
    if digit == 0 {
        '0'
    } else if digit == 1 {
        '1'
    } else if digit == 2 {
        '2'
    } else if digit == 3 {
        '3'
    } else if digit == 4 {
        '4'
    } else if digit == 5 {
        '5'
    } else if digit == 6 {
        '6'
    } else if digit == 7 {
        '7'
    } else if digit == 8 {
        '8'
    } else if digit == 9 {
        '9'
    } else if digit == 10 {
        'A'
    } else if digit == 11 {
        'B'
    } else if digit == 12 {
        'C'
    } else if digit == 13 {
        'D'
    } else if digit == 14 {
        'E'
    } else {
        'F'
    }
}

/// Whether a character is one of the sixteen digits.
pub open spec fn is_digit_char(c: char) -> bool {
    exists|digit: nat| digit < 16 && c == #[trigger] digit_char(digit)
}

/// The digit that a character stands for: what reading a numeral makes of it.
pub open spec fn digit_value(c: char) -> nat {
    if c == '1' {
        1
    } else if c == '2' {
        2
    } else if c == '3' {
        3
    } else if c == '4' {
        4
    } else if c == '5' {
        5
    } else if c == '6' {
        6
    } else if c == '7' {
        7
    } else if c == '8' {
        8
    } else if c == '9' {
        9
    } else if c == 'A' {
        10
    } else if c == 'B' {
        11
    } else if c == 'C' {
        12
    } else if c == 'D' {
        13
    } else if c == 'E' {
        14
    } else if c == 'F' {
        15
    } else {
        0
    }
}

/// A number written in a radix with as few digits as it needs: no leading
/// zero, and `0` for zero.
pub open spec fn digits(n: nat, radix: nat) -> Seq<char>
    decreases n,
    when 2 <= radix
    via digits_decreases
{
    if n < radix {
        seq![digit_char(n)]
    } else {
        digits(n / radix, radix).push(digit_char(n % radix))
    }
}

#[via_fn]
proof fn digits_decreases(n: nat, radix: nat) {
    if n >= radix {
        lemma_div_decreases(n as int, radix as int);
    }
}

/// A run of zeros.
pub open spec fn zeros(count: nat) -> Seq<char> {
    Seq::new(count, |i: int| '0')
}

/// A numeral with zeros put in front until it has at least `count` digits.
/// One that is long enough stays as it is.
pub open spec fn zero_padded(numeral: Seq<char>, count: nat) -> Seq<char> {
    if numeral.len() >= count {
        numeral
    } else {
        zeros((count - numeral.len()) as nat) + numeral
    }
}

/// The number that a numeral stands for in a radix, read from the left.
pub open spec fn numeral_value(numeral: Seq<char>, radix: nat) -> nat
    decreases numeral.len(),
{
    if numeral.len() == 0 {
        0
    } else {
        numeral_value(numeral.drop_last(), radix) * radix + digit_value(numeral.last())
    }
}

/// The number of hexadecimal digits that hold a word of `width` bits.
pub open spec fn hex_digit_count(width: nat) -> nat {
    (width + 3) / 4
}

/// A memory word of `width` bits as it stands in the file. Binary and
/// decimal words have no leading zeros. A hexadecimal word has leading zeros
/// up to the full width of the word, so that all words of a file are equally
/// long.
pub open spec fn word_text(word: nat, width: nat, representation: Representation) -> Seq<char> {
    match representation {
        Representation::Binary => digits(word, 2),
        Representation::Decimal => digits(word, 10),
        Representation::Hexadecimal => zero_padded(digits(word, 16), hex_digit_count(width)),
    }
}

/// The one-character string of a digit.
fn digit_str(digit: u8) -> (text: &'static str)
    requires
        digit < 16,
    ensures
        text@ == seq![digit_char(digit as nat)],
{
    proof {
        reveal_strlit("0");
        reveal_strlit("1");
        reveal_strlit("2");
        reveal_strlit("3");
        reveal_strlit("4");
        reveal_strlit("5");
        reveal_strlit("6");
        reveal_strlit("7");
        reveal_strlit("8");
        reveal_strlit("9");
        reveal_strlit("A");
        reveal_strlit("B");
        reveal_strlit("C");
        reveal_strlit("D");
        reveal_strlit("E");
        reveal_strlit("F");
    }
    let text: &'static str = match digit {
        0 => "0",
        1 => "1",
        2 => "2",
        3 => "3",
        4 => "4",
        5 => "5",
        6 => "6",
        7 => "7",
        8 => "8",
        9 => "9",
        10 => "A",
        11 => "B",
        12 => "C",
        13 => "D",
        14 => "E",
        _ => "F",
    };
    assert(text@ =~= seq![digit_char(digit as nat)]);
    text
}

/// Appends a number in a radix, without leading zeros.
pub fn push_digits(out: &mut String, n: u64, radix: u8)
    requires
        2 <= radix <= 16,
    ensures
        final(out)@ == old(out)@ + digits(n as nat, radix as nat),
    decreases n,
{
    let base: u64 = radix as u64;
    if n >= base {
        proof {
            lemma_div_decreases(n as int, base as int);
        }
        push_digits(out, n / base, radix);
    }
    let digit: u8 = (n % base) as u8;
    out.append(digit_str(digit));
    proof {
        let before = old(out)@;
        let last = digit_char(digit as nat);
        if n >= base {
            let front = digits((n / base) as nat, base as nat);
            assert(digits(n as nat, radix as nat) == front.push(last));
            assert((before + front) + seq![last] =~= before + front.push(last));
        } else {
            lemma_small_mod(n as nat, base as nat);
            assert(digits(n as nat, radix as nat) == seq![last]);
        }
    }
}

/// The number of digits that a number has in a radix.
pub fn digit_count(n: u64, radix: u8) -> (count: u32)
    requires
        2 <= radix <= 16,
    ensures
        count == digits(n as nat, radix as nat).len(),
        1 <= count <= 64,
{
    let base: u64 = radix as u64;
    let mut rest: u64 = n;
    let mut count: u32 = 1;
    proof {
        lemma_digits_len(n as nat, radix as nat);
    }
    while rest >= base
        invariant
            base == radix,
            2 <= radix <= 16,
            1 <= count,
            digits(n as nat, radix as nat).len() == digits(rest as nat, radix as nat).len() + count
                - 1,
            digits(n as nat, radix as nat).len() <= 64,
        decreases rest,
    {
        proof {
            lemma_div_decreases(rest as int, base as int);
        }
        rest = rest / base;
        count = count + 1;
    }
    count
}

/// A number below 2^64 has at most 64 digits.
proof fn lemma_digits_len(n: nat, radix: nat)
    requires
        2 <= radix,
        n <= u64::MAX,
    ensures
        1 <= digits(n, radix).len() <= 64,
{
    lemma2_to64();
    lemma_digits_len_bound(n, radix, 64);
}

/// A number below 2^bits has at most `bits` digits, and at least one.
proof fn lemma_digits_len_bound(n: nat, radix: nat, bits: nat)
    requires
        2 <= radix,
        1 <= bits,
        n < pow2(bits),
    ensures
        1 <= digits(n, radix).len() <= bits,
    decreases n,
{
    if n >= radix {
        lemma_div_decreases(n as int, radix as int);
        lemma_pow2_unfold(bits);
        lemma2_to64();
        assert(bits >= 2) by {
            if bits == 1 {
                assert(n < 2);
            }
        }
        assert(n / radix <= n / 2) by {
            vstd::arithmetic::div_mod::lemma_div_is_ordered_by_denominator(n as int, 2, radix as int);
        }
        lemma_digits_len_bound(n / radix, radix, (bits - 1) as nat);
    }
}

/// Writes a memory word of `width` bits in a representation.
pub fn format_word(word: u32, width: u8, representation: Representation) -> (text: String)
    ensures
        text@ == word_text(word as nat, width as nat, representation),
{
    let mut text = String::new();
    match representation {
        Representation::Binary => {
            push_digits(&mut text, word as u64, 2);
        },
        Representation::Decimal => {
            push_digits(&mut text, word as u64, 10);
        },
        Representation::Hexadecimal => {
            let wanted: u32 = (width as u32 + 3) / 4;
            let mut have: u32 = digit_count(word as u64, 16);
            let ghost numeral = digits(word as nat, 16);
            let ghost start = have;
            while have < wanted
                invariant
                    start <= have,
                    have <= wanted || have == start,
                    text@ == zeros((have - start) as nat),
                decreases wanted - have,
            {
                proof {
                    reveal_strlit("0");
                    assert(zeros((have - start) as nat) + "0"@ =~= zeros((have + 1 - start) as nat));
                }
                text.append("0");
                have = have + 1;
            }
            push_digits(&mut text, word as u64, 16);
            proof {
                if start >= wanted {
                    assert(zeros(0) + numeral =~= numeral);
                }
            }
        },
    }
    text
}

/// Every character of a number written out is a digit.
pub proof fn lemma_digits_are_digit_chars(n: nat, radix: nat)
    requires
        2 <= radix <= 16,
    ensures
        forall|i: int| 0 <= i < digits(n, radix).len() ==> is_digit_char(#[trigger] digits(n, radix)[i]),
    decreases n,
{
    let numeral = digits(n, radix);
    if n < radix {
        assert(is_digit_char(digit_char(n)));
    } else {
        lemma_div_decreases(n as int, radix as int);
        lemma_mod_bound(n as int, radix as int);
        lemma_digits_are_digit_chars(n / radix, radix);
        let front = digits(n / radix, radix);
        assert(is_digit_char(digit_char(n % radix)));
        assert forall|i: int| 0 <= i < numeral.len() implies is_digit_char(
            #[trigger] numeral[i],
        ) by {
            if i < front.len() {
                assert(numeral[i] == front[i]);
            }
        }
    }
}

/// Reading a number that was written out in a radix gives the number back.
pub proof fn lemma_digits_round_trip(n: nat, radix: nat)
    requires
        2 <= radix <= 16,
    ensures
        numeral_value(digits(n, radix), radix) == n,
    decreases n,
{
    let numeral = digits(n, radix);
    if n < radix {
        assert(numeral.drop_last() =~= Seq::<char>::empty());
        assert(numeral_value(numeral.drop_last(), radix) == 0);
        assert(numeral_value(numeral.drop_last(), radix) * radix == 0) by (nonlinear_arith)
            requires
                numeral_value(numeral.drop_last(), radix) == 0,
        ;
        assert(digit_value(digit_char(n)) == n);
    } else {
        lemma_div_decreases(n as int, radix as int);
        lemma_mod_bound(n as int, radix as int);
        lemma_fundamental_div_mod(n as int, radix as int);
        lemma_digits_round_trip(n / radix, radix);
        assert(numeral.drop_last() =~= digits(n / radix, radix));
        assert(digit_value(digit_char(n % radix)) == n % radix);
        assert((n / radix) * radix == radix * (n / radix)) by (nonlinear_arith);
    }
}

/// Zeros in front of a numeral do not change the number it stands for.
pub proof fn lemma_leading_zeros(count: nat, numeral: Seq<char>, radix: nat)
    ensures
        numeral_value(zeros(count) + numeral, radix) == numeral_value(numeral, radix),
    decreases numeral.len(),
{
    let padded = zeros(count) + numeral;
    if numeral.len() == 0 {
        assert(padded =~= zeros(count));
        lemma_zeros_value(count, radix);
    } else {
        assert(padded.drop_last() =~= zeros(count) + numeral.drop_last());
        lemma_leading_zeros(count, numeral.drop_last(), radix);
    }
}

/// A run of zeros stands for zero.
pub proof fn lemma_zeros_value(count: nat, radix: nat)
    ensures
        numeral_value(zeros(count), radix) == 0,
    decreases count,
{
    if count > 0 {
        assert(zeros(count).drop_last() =~= zeros((count - 1) as nat));
        lemma_zeros_value((count - 1) as nat, radix);
        assert(0 * radix == 0) by (nonlinear_arith);
    }
}

/// Reading a memory word back in the radix of its representation gives the
/// word, whatever its width.
pub proof fn lemma_word_text_round_trip(word: nat, width: nat, representation: Representation)
    ensures
        numeral_value(word_text(word, width, representation), representation.spec_radix()) == word,
{
    match representation {
        Representation::Binary => {
            lemma_digits_round_trip(word, 2);
        },
        Representation::Decimal => {
            lemma_digits_round_trip(word, 10);
        },
        Representation::Hexadecimal => {
            lemma_digits_round_trip(word, 16);
            let numeral = digits(word, 16);
            if numeral.len() < hex_digit_count(width) {
                lemma_leading_zeros((hex_digit_count(width) - numeral.len()) as nat, numeral, 16);
            }
        },
    }
}

/// Every character of a memory word as it stands in the file is a digit.
pub proof fn lemma_word_text_is_digits(word: nat, width: nat, representation: Representation)
    ensures
        word_text(word, width, representation).len() >= 1,
        forall|i: int|
            0 <= i < word_text(word, width, representation).len() ==> is_digit_char(
                #[trigger] word_text(word, width, representation)[i],
            ),
{
    lemma_digits_are_digit_chars(word, representation.spec_radix());
    assert(is_digit_char(digit_char(0)));
}

/// A number below 16^count has at most `count` hexadecimal digits.
pub proof fn lemma_hex_digits_len(n: nat, count: nat)
    requires
        1 <= count,
        n < pow2(4 * count),
    ensures
        1 <= digits(n, 16).len() <= count,
    decreases count,
{
    if n >= 16 {
        lemma2_to64();
        if count == 1 {
            assert(pow2(4 * count) == 16);
        } else {
            lemma_pow2_adds(4, (4 * (count - 1)) as nat);
            assert(4 + (4 * (count - 1)) as nat == 4 * count);
            assert(n / 16 < pow2((4 * (count - 1)) as nat));
            lemma_hex_digits_len(n / 16, (count - 1) as nat);
        }
    }
}

/// In hexadecimal all memory words of one run are equally long: as many
/// digits as the width of the words needs.
pub proof fn lemma_hex_words_equally_long(word: nat, width: nat)
    requires
        1 <= width,
        word < pow2(width),
    ensures
        word_text(word, width, Representation::Hexadecimal).len() == hex_digit_count(width),
{
    let count = hex_digit_count(width);
    if width < 4 * count {
        lemma_pow2_strictly_increases(width, 4 * count);
    }
    lemma_hex_digits_len(word, count);
}

} // verus!
