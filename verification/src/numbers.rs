//! Numbers as text: decimal sizes and hexadecimal byte literals.

use vstd::prelude::*;

verus! {

/// The digit that stands for `d` in bases up to sixteen, in lower case.
pub open spec fn digit(d: int) -> char {
    "0123456789abcdef"@[d]
}

/// `n` in decimal, without sign or leading zeros.
pub open spec fn decimal(n: nat) -> Seq<char>
    decreases n,
{
    if n < 10 {
        seq![digit(n as int)]
    } else {
        decimal(n / 10).push(digit((n % 10) as int))
    }
}

/// `b` as a C literal: `0x` and two hexadecimal digits.
pub open spec fn hex_byte(b: u8) -> Seq<char> {
    seq!['0', 'x', digit(b as int / 16), digit(b as int % 16)]
}

/// The value of a lower-case hexadecimal digit.
pub open spec fn digit_value(c: char) -> Option<int> {
    if '0' <= c <= '9' {
        Some(c as int - '0' as int)
    } else if 'a' <= c <= 'f' {
        Some(c as int - 'a' as int + 10)
    } else {
        None
    }
}

/// Reads a decimal number back: digits only, at least one.
pub open spec fn parse_decimal(text: Seq<char>) -> Option<nat>
    decreases text.len(),
{
    if text.len() == 0 || !('0' <= text.last() <= '9') {
        None
    } else if text.len() == 1 {
        Some(digit_value(text.last())->0 as nat)
    } else {
        match parse_decimal(text.drop_last()) {
            Some(front) => Some(front * 10 + digit_value(text.last())->0 as nat),
            None => None,
        }
    }
}

/// The sixteen digits, one by one.
pub proof fn lemma_digits()
    ensures
        digit(0) == '0',
        digit(1) == '1',
        digit(2) == '2',
        digit(3) == '3',
        digit(4) == '4',
        digit(5) == '5',
        digit(6) == '6',
        digit(7) == '7',
        digit(8) == '8',
        digit(9) == '9',
        digit(10) == 'a',
        digit(11) == 'b',
        digit(12) == 'c',
        digit(13) == 'd',
        digit(14) == 'e',
        digit(15) == 'f',
{
    reveal_strlit("0123456789abcdef");
}

/// A number written in decimal reads back as itself.
pub proof fn lemma_decimal_round_trip(n: nat)
    ensures
        parse_decimal(decimal(n)) == Some(n),
    decreases n,
{
    lemma_digits();
    if n >= 10 {
        lemma_decimal_round_trip(n / 10);
        assert(decimal(n).drop_last() == decimal(n / 10));
        lemma_decimal_nonempty(n / 10);
    }
}

/// A number in decimal has at least one digit.
pub proof fn lemma_decimal_nonempty(n: nat)
    ensures
        decimal(n).len() >= 1,
    decreases n,
{
    if n >= 10 {
        lemma_decimal_nonempty(n / 10);
    }
}

/// The digit for `d`.
pub(crate) fn digit_char(d: u8) -> (c: char)
    requires
        d < 16,
    ensures
        c == digit(d as int),
{
    proof {
        lemma_digits();
    }
    match d {
        0 => '0',
        1 => '1',
        2 => '2',
        3 => '3',
        4 => '4',
        5 => '5',
        6 => '6',
        7 => '7',
        8 => '8',
        9 => '9',
        10 => 'a',
        11 => 'b',
        12 => 'c',
        13 => 'd',
        14 => 'e',
        _ => 'f',
    }
}

/// Appends `n` in decimal.
pub fn push_decimal(output: &mut String, n: u64)
    ensures
        final(output)@ == old(output)@ + decimal(n as nat),
    decreases n,
{
    if n >= 10 {
        push_decimal(output, n / 10);
    }
    output.push(digit_char((n % 10) as u8));
}

/// Appends `b` as a hexadecimal literal.
pub fn push_hex_byte(output: &mut String, b: u8)
    ensures
        final(output)@ == old(output)@ + hex_byte(b),
{
    output.push('0');
    output.push('x');
    output.push(digit_char(b / 16));
    output.push(digit_char(b % 16));
}

} // verus!
