//! Rendering a 32-bit word in base 10, 2 or 16, within a bit width.
//!
//! The specification is arithmetic: a width of `w` bits keeps the value
//! modulo `2^w`, bit `j` of a value is `(value / 2^j) % 2`, and a negative
//! value of `w` bits has the magnitude `2^w - value`.

use vstd::prelude::*;
use vstd::arithmetic::div_mod::{lemma_fundamental_div_mod, lemma_mod_bound, lemma_small_mod};
use vstd::arithmetic::power2::{
    lemma2_to64, lemma_pow2_pos, lemma_pow2_strictly_increases, lemma_pow2_unfold, pow2,
};
use vstd::bits::{lemma_u32_low_bits_mask_is_mod, lemma_u32_shl_is_mul, lemma_u32_shr_is_div};

verus! {

/// The widths that can be rendered: at least one bit, at most the whole word.
pub open spec fn valid_width(width: u32) -> bool {
    1 <= width <= 32
}

/// The low `width` bits of `value`, as a number.
pub open spec fn low_bits(value: u32, width: u32) -> u32 {
    (value as nat % pow2(width as nat)) as u32
}

/// Whether bit `index` of `value` is set; bit 0 is the least significant.
pub open spec fn bit_is_set(value: u32, index: nat) -> bool {
    (value as nat / pow2(index)) % 2 == 1
}

/// The four bits of `value` that start at bit `4 * index`, as a number below 16.
pub open spec fn nibble(value: u32, index: nat) -> nat {
    (value as nat / pow2(4 * index)) % 16
}

/// The character that stands for a digit below 16: `0` to `9`, then `A` to `F`.
pub open spec fn digit_char(digit: nat) -> char {
    if digit < 10 {
        (digit + 48) as char
    } else {
        (digit + 55) as char
    }
}

/// Whether a value of `width` bits reads as negative: only when the flag asks
/// for sign-aware rendering and the top bit of the width is set.
pub open spec fn reads_negative(n_bit_value: u32, width: u32, unsigned_int: bool) -> bool {
    unsigned_int && bit_is_set(n_bit_value, (width - 1) as nat)
}

/// The decimal digits of `n`, most significant first, without leading zeros;
/// zero is the single digit `0`.
pub open spec fn decimal_digits(n: nat) -> Seq<char>
    decreases n,
{
    if n < 10 {
        seq![digit_char(n)]
    } else {
        decimal_digits(n / 10).push(digit_char(n % 10))
    }
}

/// The number that a value of `width` bits is rendered with in base 10: the
/// value itself, or its two's-complement magnitude `2^width - value` when it
/// reads as negative.
pub open spec fn magnitude(n_bit_value: u32, sign: bool, width: u32) -> nat {
    if sign {
        (pow2(width as nat) - n_bit_value) as nat
    } else {
        n_bit_value as nat
    }
}

/// Base 10: an optional minus sign, then the digits of the magnitude.
pub open spec fn decimal_text(n_bit_value: u32, sign: bool, width: u32) -> Seq<char> {
    let digits = decimal_digits(magnitude(n_bit_value, sign, width));
    if sign {
        seq!['-'] + digits
    } else {
        digits
    }
}

/// The binary digit at place `i` of a rendering of `width` bits; place 0 is
/// the most significant bit.
pub open spec fn binary_digit(value: u32, width: u32, i: int) -> char {
    if bit_is_set(value, (width - 1 - i) as nat) {
        '1'
    } else {
        '0'
    }
}

/// Base 2: `0b`, then exactly `width` bits, most significant first.
pub open spec fn binary_text(value: u32, width: u32) -> Seq<char> {
    seq!['0', 'b'] + Seq::new(width as nat, |i: int| binary_digit(value, width, i))
}

/// The number of hexadecimal digits that cover `width` bits.
pub open spec fn nibble_count(width: u32) -> nat {
    ((width + 3) / 4) as nat
}

/// The hexadecimal digit at place `i` of a rendering of `width` bits; place 0
/// is the most significant nibble.
pub open spec fn hexadecimal_digit(value: u32, width: u32, i: int) -> char {
    digit_char(nibble(low_bits(value, width), (nibble_count(width) - 1 - i) as nat))
}

/// Base 16: `0x`, then the low `width` bits in nibbles, most significant first.
pub open spec fn hexadecimal_text(value: u32, width: u32) -> Seq<char> {
    seq!['0', 'x'] + Seq::new(nibble_count(width), |i: int| hexadecimal_digit(value, width, i))
}

/// The rendering of `value` under a configuration.  Bases other than 10, 2
/// and 16 render as the empty text.
pub open spec fn format_text(value: u32, base: u32, width: u32, unsigned_int: bool) -> Seq<char> {
    if base == 10 {
        let n_bit_value = low_bits(value, width);
        decimal_text(n_bit_value, reads_negative(n_bit_value, width, unsigned_int), width)
    } else if base == 2 {
        binary_text(value, width)
    } else if base == 16 {
        hexadecimal_text(value, width)
    } else {
        Seq::empty()
    }
}

/// `2^width` is positive, and fits in 32 bits below a width of 32.
proof fn lemma_pow2_bounds(width: u32)
    requires
        width <= 32,
    ensures
        0 < pow2(width as nat) <= 0x1_0000_0000,
        width < 32 ==> pow2(width as nat) <= 0x8000_0000,
        width == 32 ==> pow2(width as nat) == 0x1_0000_0000,
{
    lemma2_to64();
    lemma_pow2_pos(width as nat);
    if width < 32 {
        if width < 31 {
            lemma_pow2_strictly_increases(width as nat, 31);
        }
    }
}

/// Reduces `value` to its low `width` bits.
pub fn mask_value(value: u32, width: u32) -> (n_bit_value: u32)
    requires
        valid_width(width),
    ensures
        n_bit_value == low_bits(value, width),
        n_bit_value < pow2(width as nat),
{
    proof {
        lemma_pow2_bounds(width);
    }
    if width != 32 {
        proof {
            lemma_u32_shl_is_mul(1, width);
            lemma_u32_low_bits_mask_is_mod(value, width as nat);
            lemma_mod_bound(value as int, pow2(width as nat) as int);
        }
        let mask: u32 = (1u32 << width) - 1;
        value & mask
    } else {
        proof {
            lemma_small_mod(value as nat, pow2(32));
        }
        value
    }
}

/// Whether bit `index` of `value` is set.
fn test_bit(value: u32, index: u32) -> (set: bool)
    requires
        index < 32,
    ensures
        set == bit_is_set(value, index as nat),
{
    let shifted: u32 = value >> index;
    proof {
        lemma_u32_shr_is_div(value, index);
        assert(shifted & 1 == shifted % 2) by (bit_vector);
    }
    shifted & 1 == 1
}

/// The nibble of `value` that starts at bit `4 * index`.
fn nibble_at(value: u32, index: u32) -> (digit: u32)
    requires
        index < 8,
    ensures
        digit == nibble(value, index as nat),
        digit < 16,
{
    let shift: u32 = 4 * index;
    let shifted: u32 = value >> shift;
    proof {
        lemma_u32_shr_is_div(value, shift);
        assert(shifted & 0xF == shifted % 16) by (bit_vector);
    }
    shifted & 0xF
}

/// The character of a digit below 16.
fn digit_to_char(digit: u32) -> (c: char)
    requires
        digit < 16,
    ensures
        c == digit_char(digit as nat),
{
    let d: u8 = digit as u8;
    if d < 10 {
        (d + 48u8) as char
    } else {
        (d + 55u8) as char
    }
}

/// Whether a value of `width` bits is rendered as a negative number in base
/// 10.  The flag `unsigned_int`, when set, turns sign-aware rendering on.
pub fn is_negative(n_bit_value: u32, width: u32, unsigned_int: bool) -> (sign: bool)
    requires
        valid_width(width),
    ensures
        sign == reads_negative(n_bit_value, width, unsigned_int),
{
    if unsigned_int {
        test_bit(n_bit_value, width - 1)
    } else {
        false
    }
}

/// Renders a value of `width` bits in base 10.  With `sign` set, the value is
/// rendered as minus its two's-complement magnitude, which must fit in 32
/// bits.
pub fn convert_to_decimal(n_bit_value: u32, sign: bool, width: u32) -> (text: String)
    requires
        valid_width(width),
        n_bit_value < pow2(width as nat),
        magnitude(n_bit_value, sign, width) <= u32::MAX,
    ensures
        text@ == decimal_text(n_bit_value, sign, width),
{
    let mut n: u32 = n_bit_value;
    proof {
        lemma_pow2_bounds(width);
    }
    if sign {
        if width != 32 {
            proof {
                lemma_u32_shl_is_mul(1, width);
            }
            let mask: u32 = (1u32 << width) - 1;
            assert(n ^ mask == mask - n) by (bit_vector)
                requires
                    width < 32,
                    mask == (1u32 << width) - 1,
                    n <= mask,
            ;
            n = (n ^ mask) + 1;
        } else {
            assert(!n == 0xFFFF_FFFFu32 - n) by (bit_vector);
            n = !n + 1;
        }
    }
    let ghost whole: nat = n as nat;
    assert(whole == magnitude(n_bit_value, sign, width));

    let mut text = String::new();
    if n == 0 {
        text.push('0');
        assert(text@ =~= decimal_digits(0));
        return text;
    }
    // The digits of the magnitude, least significant first.
    let mut digits: Vec<char> = Vec::new();
    while n != 0
        invariant
            n > 0 ==> decimal_digits(whole) == decimal_digits(n as nat) + digits@.reverse(),
            n == 0 ==> decimal_digits(whole) == digits@.reverse(),
        decreases n,
    {
        let ghost before = digits@;
        let digit: u32 = n % 10;
        digits.push(digit_to_char(digit));
        assert(digits@.reverse() =~= seq![digit_char(digit as nat)] + before.reverse());
        assert(n >= 10 ==> decimal_digits(n as nat) + before.reverse() =~= decimal_digits(
            (n / 10) as nat,
        ) + digits@.reverse());
        n = n / 10;
    }
    if sign {
        digits.push('-');
    }
    let mut i: usize = digits.len();
    while i > 0
        invariant
            i <= digits.len(),
            text@ == digits@.reverse().take(digits.len() - i),
        decreases i,
    {
        i = i - 1;
        text.push(digits[i]);
        assert(text@ =~= digits@.reverse().take(digits.len() - i));
    }
    assert(text@ =~= digits@.reverse());
    assert(sign ==> digits@.reverse() =~= seq!['-'] + digits@.drop_last().reverse());
    text
}

/// Renders the low `width` bits of `value` in base 2, most significant bit
/// first, after the prefix `0b`.
pub fn convert_to_binary(value: u32, width: u32) -> (text: String)
    requires
        valid_width(width),
    ensures
        text@ == binary_text(value, width),
        text@.len() == width + 2,
{
    let mut text = String::new();
    text.push('0');
    text.push('b');
    let mut i: u32 = 0;
    while i < width
        invariant
            i <= width <= 32,
            text@ == seq!['0', 'b'] + Seq::new(i as nat, |k: int| binary_digit(value, width, k)),
        decreases width - i,
    {
        let bit = if test_bit(value, width - 1 - i) { '1' } else { '0' };
        text.push(bit);
        i = i + 1;
        assert(text@ =~= seq!['0', 'b'] + Seq::new(
            i as nat,
            |k: int| binary_digit(value, width, k),
        ));
    }
    text
}

/// Renders the low `width` bits of `value` in base 16, most significant
/// nibble first, after the prefix `0x`.  The digits above 9 are `A` to `F`.
pub fn convert_to_hexadecimal(value: u32, width: u32) -> (text: String)
    requires
        valid_width(width),
    ensures
        text@ == hexadecimal_text(value, width),
        text@.len() == nibble_count(width) + 2,
{
    let masked: u32 = mask_value(value, width);
    let count: u32 = (width + 3) / 4;
    let mut text = String::new();
    text.push('0');
    text.push('x');
    let mut i: u32 = 0;
    while i < count
        invariant
            i <= count <= 8,
            count == nibble_count(width),
            masked == low_bits(value, width),
            text@ == seq!['0', 'x'] + Seq::new(
                i as nat,
                |k: int| hexadecimal_digit(value, width, k),
            ),
        decreases count - i,
    {
        let digit: u32 = nibble_at(masked, count - 1 - i);
        text.push(digit_to_char(digit));
        i = i + 1;
        assert(text@ =~= seq!['0', 'x'] + Seq::new(
            i as nat,
            |k: int| hexadecimal_digit(value, width, k),
        ));
    }
    assert(text@ =~= hexadecimal_text(value, width));
    text
}

/// Renders `value` in the given base, bit width and signedness.
///
/// Base 10 masks the value to `width` bits and, when `unsigned_int` is set
/// and the top bit of the width is set, renders it as a negative number.
/// Base 2 and base 16 render the low `width` bits after `0b` and `0x`.  Any
/// other base renders as the empty string.
///
/// The text depends on the four arguments and on nothing else: two calls
/// with the same arguments give the same text.
pub fn format_value(value: u32, base: u32, width: u32, unsigned_int: bool) -> (text: String)
    requires
        valid_width(width),
    ensures
        text@ == format_text(value, base, width, unsigned_int),
        base != 10 && base != 2 && base != 16 ==> text@.len() == 0,
{
    if base == 10 {
        let n_bit_value = mask_value(value, width);
        let sign = is_negative(n_bit_value, width, unsigned_int);
        proof {
            lemma_negative_magnitude(n_bit_value, width);
        }
        convert_to_decimal(n_bit_value, sign, width)
    } else if base == 2 {
        convert_to_binary(value, width)
    } else if base == 16 {
        convert_to_hexadecimal(value, width)
    } else {
        String::new()
    }
}

/// A value below `2^width` whose top bit is set is at least `2^(width-1)`,
/// so its magnitude lies between 1 and `2^(width-1)`.
pub proof fn lemma_negative_magnitude(n_bit_value: u32, width: u32)
    requires
        valid_width(width),
        n_bit_value < pow2(width as nat),
    ensures
        bit_is_set(n_bit_value, (width - 1) as nat) <==> n_bit_value >= pow2((width - 1) as nat),
        bit_is_set(n_bit_value, (width - 1) as nat) ==> 1 <= magnitude(n_bit_value, true, width)
            <= pow2((width - 1) as nat) <= 0x8000_0000,
{
    let half = pow2((width - 1) as nat);
    lemma_pow2_unfold(width as nat);
    lemma_pow2_bounds((width - 1) as u32);
    let q = n_bit_value as nat / half;
    let r = n_bit_value as nat % half;
    lemma_fundamental_div_mod(n_bit_value as int, half as int);
    lemma_mod_bound(n_bit_value as int, half as int);
    assert(n_bit_value == half * q + r);
    if q == 0 {
        assert(half * q == 0) by (nonlinear_arith)
            requires
                q == 0,
        ;
    } else if q == 1 {
        assert(half * q == half) by (nonlinear_arith)
            requires
                q == 1,
        ;
    } else {
        assert(half * q >= half * 2) by (nonlinear_arith)
            requires
                q >= 2,
                half > 0,
        ;
    }
}

} // verus!
