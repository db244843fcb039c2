//! A file's bytes as the body of a C array initializer, and back.

use vstd::prelude::*;
use crate::numbers::{digit_value, hex_byte, lemma_digits, push_hex_byte};

verus! {

/// How many byte literals stand on one line.
pub const BYTES_PER_LINE: usize = 16;

/// The byte literals of `bytes`, each followed by a comma and a space, with
/// a line break after every sixteenth.
pub open spec fn byte_rows(bytes: Seq<u8>) -> Seq<char>
    decreases bytes.len(),
{
    if bytes.len() == 0 {
        Seq::empty()
    } else {
        byte_rows(bytes.drop_last()) + hex_byte(bytes.last()) + ", "@ + if bytes.len()
            % BYTES_PER_LINE as nat == 0 {
            "\n"@
        } else {
            Seq::empty()
        }
    }
}

/// The lines that list `bytes`: the rows, and a line break that ends the last
/// row where it is not full.
pub open spec fn byte_lines(bytes: Seq<u8>) -> Seq<char> {
    byte_rows(bytes) + if bytes.len() % BYTES_PER_LINE as nat != 0 {
        "\n"@
    } else {
        Seq::empty()
    }
}

/// Reads a list of byte literals back: items of the form `0xhh, ` with line
/// breaks between them, and nothing else.
pub open spec fn parse_byte_lines(text: Seq<char>) -> Option<Seq<u8>>
    decreases text.len(),
{
    if text.len() == 0 {
        Some(Seq::empty())
    } else if text[0] == '\n' {
        parse_byte_lines(text.skip(1))
    } else if text.len() >= 6 && text[0] == '0' && text[1] == 'x' && text[4] == ',' && text[5]
        == ' ' {
        match (digit_value(text[2]), digit_value(text[3]), parse_byte_lines(text.skip(6))) {
            (Some(high), Some(low), Some(rest)) => Some(seq![(high * 16 + low) as u8] + rest),
            _ => None,
        }
    } else {
        None
    }
}

/// Two lists read one after the other give the bytes of both.
proof fn lemma_parse_concat(a: Seq<char>, b: Seq<char>)
    requires
        parse_byte_lines(a) is Some,
        parse_byte_lines(b) is Some,
    ensures
        parse_byte_lines(a + b) == Some(parse_byte_lines(a)->0 + parse_byte_lines(b)->0),
    decreases a.len(),
{
    if a.len() > 0 {
        let n = if a[0] == '\n' {
            1
        } else {
            6
        };
        assert((a + b).skip(n) == a.skip(n) + b);
        lemma_parse_concat(a.skip(n), b);
    }
}

/// One item, with or without a line break behind it, reads back as its byte.
proof fn lemma_parse_item(b: u8, tail: Seq<char>)
    requires
        tail == Seq::<char>::empty() || tail == "\n"@,
    ensures
        parse_byte_lines(hex_byte(b) + ", "@ + tail) == Some(seq![b]),
{
    reveal_strlit(", ");
    reveal_strlit("\n");
    lemma_digits();
    let text = hex_byte(b) + ", "@ + tail;
    assert(text.skip(6) == tail);
    lemma_parse_line_break(tail);
}

/// A line break alone, or nothing at all, reads back as no bytes.
proof fn lemma_parse_line_break(tail: Seq<char>)
    requires
        tail == Seq::<char>::empty() || tail == "\n"@,
    ensures
        parse_byte_lines(tail) == Some(Seq::<u8>::empty()),
{
    reveal_strlit("\n");
    if tail.len() > 0 {
        assert(parse_byte_lines(tail.skip(1)) == Some(Seq::<u8>::empty()));
    }
}

/// The rows of a list read back as the bytes they were made from.
proof fn lemma_parse_rows(bytes: Seq<u8>)
    ensures
        parse_byte_lines(byte_rows(bytes)) == Some(bytes),
    decreases bytes.len(),
{
    if bytes.len() > 0 {
        let front = bytes.drop_last();
        let tail = if bytes.len() % BYTES_PER_LINE as nat == 0 {
            "\n"@
        } else {
            Seq::empty()
        };
        let item = hex_byte(bytes.last()) + ", "@ + tail;
        lemma_parse_rows(front);
        lemma_parse_item(bytes.last(), tail);
        lemma_parse_concat(byte_rows(front), item);
        assert(byte_rows(bytes) == byte_rows(front) + item);
    }
}

/// Reading back the lines that list `bytes` gives exactly `bytes`: no byte
/// is lost, added or changed by the listing.
pub proof fn lemma_byte_lines_round_trip(bytes: Seq<u8>)
    ensures
        parse_byte_lines(byte_lines(bytes)) == Some(bytes),
{
    lemma_parse_rows(bytes);
    let tail = if bytes.len() % BYTES_PER_LINE as nat != 0 {
        "\n"@
    } else {
        Seq::empty()
    };
    lemma_parse_line_break(tail);
    lemma_parse_concat(byte_rows(bytes), tail);
}

/// Appends the lines that list `bytes`.
pub fn push_byte_lines(output: &mut String, bytes: &[u8])
    ensures
        final(output)@ == old(output)@ + byte_lines(bytes@),
{
    let mut bytes_in_line: usize = 0;
    let mut i: usize = 0;
    while i < bytes.len()
        invariant
            i <= bytes@.len(),
            bytes_in_line == i % BYTES_PER_LINE,
            output@ == old(output)@ + byte_rows(bytes@.take(i as int)),
        decreases bytes@.len() - i,
    {
        proof {
            assert(bytes@.take(i + 1).drop_last() == bytes@.take(i as int));
        }
        push_hex_byte(output, bytes[i]);
        output.append(", ");
        bytes_in_line += 1;
        if bytes_in_line == BYTES_PER_LINE {
            output.append("\n");
            bytes_in_line = 0;
        }
        i += 1;
    }
    assert(bytes@.take(bytes@.len() as int) == bytes@);
    if bytes_in_line != 0 {
        output.append("\n");
    }
}

} // verus!
