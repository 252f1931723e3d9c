//! The immediate field: a signed decimal literal, written as binary digits.
//!
//! A negative number gets one sign digit `1` in front; any other number gets
//! nothing in front, however its literal is written. Then comes the number's
//! 32-bit pattern in binary, without leading zeros but filled with zeros to at
//! least eight digits. So a number from 0 to 255 takes eight digits, and a
//! negative number takes thirty-three: the sign digit and all 32 digits of its
//! two's complement.

use crate::text::{begins_with, chars_of, is_bit_string};
use vstd::arithmetic::power2::{lemma2_to64, lemma_pow2_pos, lemma_pow2_unfold, pow2};
use vstd::prelude::*;
use vstd::string::StringExecFns;

verus! {

/// The least number of digits of a formatted number.
pub open spec fn min_width() -> nat {
    8
}

/// Whether `c` is a decimal digit.
pub open spec fn is_digit(c: char) -> bool {
    '0' <= c <= '9'
}

/// The number that the decimal digit `c` stands for.
pub open spec fn digit_value(c: char) -> nat {
    (c as u32 - '0' as u32) as nat
}

/// Whether `s` is made of decimal digits only.
pub open spec fn all_digits(s: Seq<char>) -> bool {
    forall|i: int| 0 <= i < s.len() ==> is_digit(#[trigger] s[i])
}

/// The number that a row of decimal digits stands for.
pub open spec fn decimal_value(digits: Seq<char>) -> nat
    decreases digits.len(),
{
    if digits.len() == 0 {
        0
    } else {
        decimal_value(digits.drop_last()) * 10 + digit_value(digits.last())
    }
}

/// The digits of a literal: the literal without its sign, if it has one.
pub open spec fn digits_of(token: Seq<char>) -> Seq<char> {
    if begins_with(token, '-') || begins_with(token, '+') {
        token.skip(1)
    } else {
        token
    }
}

/// The number that a literal stands for: an optional sign `+` or `-`, then at
/// least one decimal digit and nothing else, with a value that a signed 32-bit
/// integer can hold. Any other token stands for no number.
pub open spec fn parse_signed(token: Seq<char>) -> Option<int> {
    let digits = digits_of(token);
    let value: int = if begins_with(token, '-') {
        -(decimal_value(digits) as int)
    } else {
        decimal_value(digits) as int
    };
    if digits.len() > 0 && all_digits(digits) && i32::MIN <= value <= i32::MAX {
        Some(value)
    } else {
        None
    }
}

/// The binary digit for the lowest bit of `v`.
pub open spec fn bit_char(v: nat) -> char {
    if v % 2 == 1 {
        '1'
    } else {
        '0'
    }
}

/// `v` in binary, highest digit first, without leading zeros (`0` itself is
/// one digit).
pub open spec fn binary_digits(v: nat) -> Seq<char>
    decreases v,
{
    if v < 2 {
        seq![bit_char(v)]
    } else {
        binary_digits(v / 2).push(bit_char(v))
    }
}

/// The number that a row of binary digits stands for, highest digit first.
pub open spec fn binary_value(digits: Seq<char>) -> nat
    decreases digits.len(),
{
    if digits.len() == 0 {
        0
    } else {
        binary_value(digits.drop_last()) * 2 + (if digits.last() == '1' {
            1nat
        } else {
            0nat
        })
    }
}

/// A row of `count` zeros.
pub open spec fn zeros(count: nat) -> Seq<char> {
    Seq::new(count, |i: int| '0')
}

/// `digits` with zeros in front until it has `width` digits; unchanged where
/// it has that many already.
pub open spec fn zero_padded(digits: Seq<char>, width: nat) -> Seq<char> {
    if digits.len() >= width {
        digits
    } else {
        zeros((width - digits.len()) as nat) + digits
    }
}

/// The 32-bit pattern of `n` read as an unsigned number: `n` itself where it
/// is not negative, else its two's complement.
pub open spec fn bit_pattern(n: int) -> nat {
    if n >= 0 {
        n as nat
    } else {
        (n + 0x1_0000_0000) as nat
    }
}

/// The binary digits that a number is written with.
pub open spec fn formatted_binary(n: int) -> Seq<char> {
    zero_padded(binary_digits(bit_pattern(n)), min_width())
}

/// The sign digit of a number: `1` where the number is negative, nothing
/// where it is zero or more.
pub open spec fn sign_prefix(n: int) -> Seq<char> {
    if n < 0 {
        seq!['1']
    } else {
        Seq::<char>::empty()
    }
}

/// The immediate field of a literal, if the literal stands for a number: the
/// number's sign digit, then the digits that the number is written with.
pub open spec fn immediate_field(token: Seq<char>) -> Option<Seq<char>> {
    match parse_signed(token) {
        Some(n) => Some(sign_prefix(n) + formatted_binary(n)),
        None => None,
    }
}

/// A literal that stands for a number is not empty, holds no space and does
/// not begin with the register sigil.
pub proof fn lemma_literal_shape(token: Seq<char>)
    requires
        parse_signed(token) is Some,
    ensures
        token.len() > 0,
        !token.contains(' '),
        !begins_with(token, '$'),
{
    let digits = digits_of(token);
    if token.contains(' ') {
        let k: int = choose|k: int| 0 <= k < token.len() && token[k] == ' ';
        if digits.len() == token.len() {
            assert(is_digit(digits[k]));
        } else {
            assert(k > 0);
            assert(is_digit(digits[k - 1]));
        }
    }
    if begins_with(token, '$') {
        assert(is_digit(digits[0]));
    }
}

/// A number below `2^bits`, and not below `2^(bits - 1)` where `bits` is more
/// than one, has exactly `bits` binary digits, the first of which is `1`
/// unless the number is zero.
pub proof fn lemma_binary_digits_len(v: nat, bits: nat)
    requires
        bits >= 1,
        v < pow2(bits),
        bits > 1 ==> pow2((bits - 1) as nat) <= v,
    ensures
        binary_digits(v).len() == bits,
        v > 0 ==> binary_digits(v)[0] == '1',
    decreases bits,
{
    lemma2_to64();
    if bits > 1 {
        let fewer: nat = (bits - 1) as nat;
        lemma_pow2_unfold(bits);
        lemma_pow2_pos((fewer - 1) as nat);
        if fewer > 1 {
            lemma_pow2_unfold(fewer);
        }
        assert(v >= 2);
        lemma_binary_digits_len(v / 2, fewer);
    }
}

/// A number below `2^bits` has at most `bits` binary digits.
pub proof fn lemma_binary_digits_len_at_most(v: nat, bits: nat)
    requires
        bits >= 1,
        v < pow2(bits),
    ensures
        binary_digits(v).len() <= bits,
    decreases bits,
{
    lemma2_to64();
    if v >= 2 {
        if bits == 1 {
            assert(pow2(1) == 2);
        } else {
            lemma_pow2_unfold(bits);
            lemma_binary_digits_len_at_most(v / 2, (bits - 1) as nat);
        }
    }
}

/// An immediate field has at least eight digits and at most thirty-three.
pub proof fn lemma_immediate_field_len(token: Seq<char>)
    requires
        immediate_field(token) is Some,
    ensures
        8 <= immediate_field(token).unwrap().len() <= 33,
{
    let n: int = parse_signed(token).unwrap();
    lemma2_to64();
    lemma_binary_digits_len_at_most(bit_pattern(n), 32);
}

/// A number in binary is made of binary digits.
pub proof fn lemma_binary_digits_are_bits(v: nat)
    ensures
        is_bit_string(binary_digits(v)),
    decreases v,
{
    if v >= 2 {
        lemma_binary_digits_are_bits(v / 2);
    }
}

/// An immediate field is made of binary digits.
pub proof fn lemma_immediate_field_is_bits(token: Seq<char>)
    requires
        immediate_field(token) is Some,
    ensures
        is_bit_string(immediate_field(token).unwrap()),
{
    let n: int = parse_signed(token).unwrap();
    lemma_binary_digits_are_bits(bit_pattern(n));
}

/// A number written in binary stands for that number.
pub proof fn lemma_binary_digits_value(v: nat)
    ensures
        binary_value(binary_digits(v)) == v,
    decreases v,
{
    let digits = binary_digits(v);
    if v < 2 {
        assert(digits.drop_last() =~= Seq::<char>::empty());
        assert(binary_value(digits.drop_last()) == 0);
    } else {
        lemma_binary_digits_value(v / 2);
        assert(digits.drop_last() =~= binary_digits(v / 2));
    }
}

/// A row of zeros put in front of binary digits leaves the number that the
/// digits stand for as it is.
proof fn lemma_zeros_in_front(count: nat, digits: Seq<char>)
    ensures
        binary_value(zeros(count) + digits) == binary_value(digits),
    decreases digits.len(), count,
{
    let whole = zeros(count) + digits;
    if digits.len() > 0 {
        lemma_zeros_in_front(count, digits.drop_last());
        assert(whole.drop_last() =~= zeros(count) + digits.drop_last());
        assert(whole.last() == digits.last());
    } else if count > 0 {
        lemma_zeros_in_front((count - 1) as nat, digits);
        assert(whole.drop_last() =~= zeros((count - 1) as nat) + digits);
        assert(whole.last() == '0');
    } else {
        assert(whole =~= digits);
    }
}

/// Filling binary digits up to a width leaves the number that they stand for
/// as it is.
pub proof fn lemma_zero_padded_value(digits: Seq<char>, width: nat)
    ensures
        binary_value(zero_padded(digits, width)) == binary_value(digits),
{
    if digits.len() < width {
        let count: nat = (width - digits.len()) as nat;
        lemma_zeros_in_front(count, digits);
    }
}

/// The digits that a number is written with stand for its 32-bit pattern:
/// the number itself where it is not negative, else the number plus `2^32`.
pub proof fn lemma_formatted_binary_value(n: int)
    ensures
        binary_value(formatted_binary(n)) == bit_pattern(n),
{
    lemma_binary_digits_value(bit_pattern(n));
    lemma_zero_padded_value(binary_digits(bit_pattern(n)), min_width());
}

/// A number below 256 is written with exactly eight digits.
proof fn lemma_formatted_len_small(v: nat)
    requires
        v <= 255,
    ensures
        formatted_binary(v as int).len() == 8,
{
    lemma2_to64();
    if v < 2 {
        lemma_binary_digits_len(v, 1);
    } else if v < 4 {
        lemma_binary_digits_len(v, 2);
    } else if v < 8 {
        lemma_binary_digits_len(v, 3);
    } else if v < 16 {
        lemma_binary_digits_len(v, 4);
    } else if v < 32 {
        lemma_binary_digits_len(v, 5);
    } else if v < 64 {
        lemma_binary_digits_len(v, 6);
    } else if v < 128 {
        lemma_binary_digits_len(v, 7);
    } else {
        lemma_binary_digits_len(v, 8);
    }
}

/// A literal that stands for a number from 0 to 255 has a field of exactly
/// eight digits: the number itself, with no sign digit.
pub proof fn lemma_small_immediate_has_eight_digits(token: Seq<char>)
    requires
        parse_signed(token) is Some,
        0 <= parse_signed(token).unwrap() <= 255,
    ensures
        immediate_field(token) == Some(formatted_binary(parse_signed(token).unwrap())),
        immediate_field(token).unwrap().len() == 8,
        binary_value(immediate_field(token).unwrap()) == parse_signed(token).unwrap(),
{
    let n: int = parse_signed(token).unwrap();
    lemma_formatted_len_small(n as nat);
    lemma_formatted_binary_value(n);
    assert(sign_prefix(n) + formatted_binary(n) =~= formatted_binary(n));
}

/// A literal that stands for a negative number has a field of thirty-three
/// digits: the sign digit `1`, then all 32 digits of the number's two's
/// complement, the first of which is `1` as well.
pub proof fn lemma_negative_immediate_has_full_width(token: Seq<char>)
    requires
        parse_signed(token) is Some,
        parse_signed(token).unwrap() < 0,
    ensures
        immediate_field(token).unwrap().len() == 33,
        immediate_field(token).unwrap()[0] == '1',
        immediate_field(token).unwrap().skip(1) == binary_digits(
            (parse_signed(token).unwrap() + 0x1_0000_0000) as nat,
        ),
        immediate_field(token).unwrap()[1] == '1',
        binary_value(immediate_field(token).unwrap().skip(1)) == parse_signed(token).unwrap()
            + 0x1_0000_0000,
{
    let n: int = parse_signed(token).unwrap();
    let pattern: nat = bit_pattern(n);
    lemma_binary_digits_value(pattern);
    lemma2_to64();
    lemma_binary_digits_len(pattern, 32);
    assert(formatted_binary(n) == binary_digits(pattern));
    assert((sign_prefix(n) + formatted_binary(n)).skip(1) =~= binary_digits(pattern));
}

/// More digits never stand for a smaller number.
proof fn lemma_decimal_value_grows(digits: Seq<char>, count: int)
    requires
        0 <= count <= digits.len(),
    ensures
        decimal_value(digits.take(count)) <= decimal_value(digits),
    decreases digits.len(),
{
    if count < digits.len() {
        lemma_decimal_value_grows(digits.drop_last(), count);
        assert(digits.drop_last().take(count) =~= digits.take(count));
    } else {
        assert(digits.take(count) =~= digits);
    }
}

/// Reads a literal as a signed 32-bit number.
pub fn parse_i32(token: &str) -> (number: Option<i32>)
    ensures
        number is Some <==> parse_signed(token@) is Some,
        number matches Some(n) ==> parse_signed(token@) == Some(n as int),
{
    let chars = chars_of(token);
    let total: usize = chars.len();
    if total == 0 {
        return None;
    }
    let negative = chars[0] == '-';
    let start: usize = if negative || chars[0] == '+' {
        1
    } else {
        0
    };
    let ghost digits = digits_of(token@);
    assert(digits == token@.skip(start as int));
    if start == total {
        return None;
    }
    let mut magnitude: i64 = 0;
    let mut at: usize = start;
    assert(digits.take(0) =~= Seq::<char>::empty());
    while at < total
        invariant
            start <= at <= total,
            chars@ == token@,
            total == token@.len(),
            digits == token@.skip(start as int),
            digits == digits_of(token@),
            negative == begins_with(token@, '-'),
            all_digits(digits.take(at - start)),
            magnitude == decimal_value(digits.take(at - start)),
            0 <= magnitude <= 0x8000_0000,
        decreases total - at,
    {
        let c = chars[at];
        assert(digits[at - start] == c);
        if !('0' <= c && c <= '9') {
            assert(!is_digit(digits[at - start]));
            return None;
        }
        let digit: i64 = (c as u32 - '0' as u32) as i64;
        proof {
            let seen = digits.take(at - start + 1);
            assert(seen.drop_last() =~= digits.take(at - start));
            assert(seen.last() == c);
            assert(decimal_value(seen) == magnitude * 10 + digit);
            assert forall|i: int| 0 <= i < seen.len() implies is_digit(#[trigger] seen[i]) by {
                if i < seen.len() - 1 {
                    assert(seen[i] == digits.take(at - start)[i]);
                }
            }
        }
        magnitude = magnitude * 10 + digit;
        if magnitude > 0x8000_0000 {
            proof {
                lemma_decimal_value_grows(digits, at - start + 1);
            }
            return None;
        }
        at += 1;
    }
    assert(digits.take(at - start) =~= digits);
    if negative {
        Some((-magnitude) as i32)
    } else if magnitude <= 0x7fff_ffff {
        Some(magnitude as i32)
    } else {
        None
    }
}

/// Writes `v` in binary at the end of `text`.
fn push_binary(text: &mut String, v: u32)
    ensures
        final(text)@ == old(text)@ + binary_digits(v as nat),
    decreases v,
{
    if v >= 2 {
        push_binary(text, v / 2);
    }
    let ghost before = text@;
    proof {
        reveal_strlit("1");
        reveal_strlit("0");
    }
    if v % 2 == 1 {
        text.append("1");
        assert(text@ =~= before.push('1'));
    } else {
        text.append("0");
        assert(text@ =~= before.push('0'));
    }
    assert(final(text)@ =~= old(text)@ + binary_digits(v as nat));
}

/// The number of binary digits of `v`.
fn binary_width(v: u32) -> (width: usize)
    ensures
        width == binary_digits(v as nat).len(),
        1 <= width <= 32,
{
    let mut width: usize = 1;
    let mut rest: u32 = v;
    proof {
        lemma2_to64();
    }
    while rest >= 2
        invariant
            1 <= width <= 32,
            width + binary_digits(rest as nat).len() == binary_digits(v as nat).len() + 1,
            rest < pow2((33 - width) as nat),
        decreases rest,
    {
        proof {
            lemma2_to64();
            if width == 32 {
                assert(pow2(1) == 2);
            }
            lemma_pow2_unfold((33 - width) as nat);
        }
        rest = rest / 2;
        width += 1;
    }
    width
}

/// Writes a number as the assembler does: its 32-bit pattern in binary, filled
/// with zeros in front to at least eight digits.
pub fn format_binary(n: i32) -> (text: String)
    ensures
        text@ == formatted_binary(n as int),
{
    let pattern: u32 = if n >= 0 {
        n as u32
    } else {
        (n as i64 + 0x1_0000_0000) as u32
    };
    let width: usize = binary_width(pattern);
    let mut text = String::new();
    let mut filled: usize = width;
    assert(text@ =~= zeros(0));
    while filled < 8
        invariant
            width <= filled,
            filled <= 8 || filled == width,
            text@ == zeros((filled - width) as nat),
        decreases 8 - filled,
    {
        proof {
            reveal_strlit("0");
        }
        text.append("0");
        filled += 1;
        assert(text@ =~= zeros((filled - width) as nat));
    }
    push_binary(&mut text, pattern);
    assert(text@ =~= formatted_binary(n as int));
    text
}

/// The immediate field of a literal: the sign digit, if the number is
/// negative, then the formatted number. `None` where the literal stands for
/// no number.
pub fn encode_immediate(token: &str) -> (field: Option<String>)
    ensures
        field is Some <==> immediate_field(token@) is Some,
        field matches Some(text) ==> immediate_field(token@) == Some(text@),
{
    match parse_i32(token) {
        None => None,
        Some(n) => {
            let digits = format_binary(n);
            let mut text = String::new();
            if n < 0 {
                proof {
                    reveal_strlit("1");
                }
                text.append("1");
                assert(text@ =~= sign_prefix(n as int));
            }
            text.append(digits.as_str());
            Some(text)
        },
    }
}

} // verus!
