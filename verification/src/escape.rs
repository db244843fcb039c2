//! Escaping text for a C string literal.

use vstd::prelude::*;
use vstd::utf8::{encode_utf8, is_ascii_chars, is_ascii_chars_encode_utf8};

verus! {

/// `s` with every occurrence of the character `from` replaced by `to`.
pub open spec fn replaced(s: Seq<char>, from: char, to: Seq<char>) -> Seq<char>
    decreases s.len(),
{
    if s.len() == 0 {
        Seq::empty()
    } else {
        replaced(s.drop_last(), from, to) + if s.last() == from {
            to
        } else {
            seq![s.last()]
        }
    }
}

/// `s` as it stands between the quotes of a C string literal: line feed,
/// carriage return, tab and double quote are escaped with a backslash, one
/// after the other, each over the whole text. Nothing else is touched, a
/// backslash included.
pub open spec fn escaped(s: Seq<char>) -> Seq<char> {
    replaced(
        replaced(replaced(replaced(s, '\n', "\\n"@), '\r', "\\r"@), '\t', "\\t"@),
        '"',
        "\\\""@,
    )
}

/// What stands for the character `c` in a C string literal.
pub open spec fn escaped_char(c: char) -> Seq<char> {
    if c == '\n' {
        "\\n"@
    } else if c == '\r' {
        "\\r"@
    } else if c == '\t' {
        "\\t"@
    } else if c == '"' {
        "\\\""@
    } else {
        seq![c]
    }
}

/// The characters of `s`, each escaped by itself.
pub open spec fn escaped_each(s: Seq<char>) -> Seq<char>
    decreases s.len(),
{
    if s.len() == 0 {
        Seq::empty()
    } else {
        escaped_each(s.drop_last()) + escaped_char(s.last())
    }
}

/// The number of bytes that `s` takes in UTF-8.
pub open spec fn utf8_len(s: Seq<char>) -> nat {
    encode_utf8(s).len()
}

/// Replacing distributes over concatenation.
pub proof fn lemma_replaced_concat(a: Seq<char>, b: Seq<char>, from: char, to: Seq<char>)
    ensures
        replaced(a + b, from, to) == replaced(a, from, to) + replaced(b, from, to),
    decreases b.len(),
{
    if b.len() > 0 {
        assert((a + b).drop_last() == a + b.drop_last());
        lemma_replaced_concat(a, b.drop_last(), from, to);
    }
}

/// A text without the character `from` is left as it is.
proof fn lemma_replaced_absent(s: Seq<char>, from: char, to: Seq<char>)
    requires
        !s.contains(from),
    ensures
        replaced(s, from, to) == s,
    decreases s.len(),
{
    if s.len() > 0 {
        lemma_replaced_absent(s.drop_last(), from, to);
    }
}

/// The four passes never meet each other's work: escaping a text is
/// escaping each of its characters by itself.
pub proof fn lemma_escaped_by_character(s: Seq<char>)
    ensures
        escaped(s) == escaped_each(s),
    decreases s.len(),
{
    reveal_strlit("\\n");
    reveal_strlit("\\r");
    reveal_strlit("\\t");
    reveal_strlit("\\\"");
    if s.len() > 0 {
        let front = s.drop_last();
        let c = s.last();
        lemma_escaped_by_character(front);
        let a0 = replaced(front, '\n', "\\n"@);
        let b0 = replaced(a0, '\r', "\\r"@);
        let c0 = replaced(b0, '\t', "\\t"@);
        let pa = if c == '\n' {
            "\\n"@
        } else {
            seq![c]
        };
        let pb = replaced(pa, '\r', "\\r"@);
        let pc = replaced(pb, '\t', "\\t"@);
        let pd = replaced(pc, '"', "\\\""@);
        lemma_replaced_concat(a0, pa, '\r', "\\r"@);
        lemma_replaced_concat(b0, pb, '\t', "\\t"@);
        lemma_replaced_concat(c0, pc, '"', "\\\""@);
        assert(pd == escaped_char(c)) by {
            if c == '\n' {
                lemma_replaced_absent(pa, '\r', "\\r"@);
                lemma_replaced_absent(pa, '\t', "\\t"@);
                lemma_replaced_absent(pa, '"', "\\\""@);
            } else if c == '\r' {
                lemma_replaced_one(c, '\r', "\\r"@);
                lemma_replaced_absent(pb, '\t', "\\t"@);
                lemma_replaced_absent(pb, '"', "\\\""@);
            } else if c == '\t' {
                lemma_replaced_one(c, '\r', "\\r"@);
                lemma_replaced_one(c, '\t', "\\t"@);
                lemma_replaced_absent(pc, '"', "\\\""@);
            } else {
                lemma_replaced_one(c, '\r', "\\r"@);
                lemma_replaced_one(c, '\t', "\\t"@);
                lemma_replaced_one(c, '"', "\\\""@);
            }
        }
    }
}

/// An escaped text stands on one line: it holds no line feed, no carriage
/// return and no tab.
pub proof fn lemma_escaped_is_one_line(s: Seq<char>)
    ensures
        !escaped(s).contains('\n'),
        !escaped(s).contains('\r'),
        !escaped(s).contains('\t'),
    decreases s.len(),
{
    reveal_strlit("\\n");
    reveal_strlit("\\r");
    reveal_strlit("\\t");
    reveal_strlit("\\\"");
    lemma_escaped_by_character(s);
    if s.len() > 0 {
        let front = s.drop_last();
        lemma_escaped_is_one_line(front);
        lemma_escaped_by_character(front);
        let head = escaped_each(front);
        let text = head + escaped_char(s.last());
        assert forall|i: int| 0 <= i < text.len() implies text[i] != '\n' && text[i] != '\r'
            && text[i] != '\t' by {
            if i < head.len() {
                assert(head.contains(head[i]));
            }
        }
    }
}

/// Replacing in a text of one character.
proof fn lemma_replaced_one(c: char, from: char, to: Seq<char>)
    ensures
        replaced(seq![c], from, to) == if c == from {
            to
        } else {
            seq![c]
        },
{
    assert(replaced(seq![c].drop_last(), from, to) == Seq::<char>::empty());
}

/// The encoding of a concatenation is the concatenation of the encodings.
pub proof fn lemma_encode_concat(a: Seq<char>, b: Seq<char>)
    ensures
        encode_utf8(a + b) == encode_utf8(a) + encode_utf8(b),
    decreases a.len(),
{
    if a.len() > 0 {
        assert((a + b).drop_first() == a.drop_first() + b);
        lemma_encode_concat(a.drop_first(), b);
    }
}

/// A replacement that takes at least as many bytes as the character it stands
/// for cannot make a text shorter.
pub proof fn lemma_replaced_grows(s: Seq<char>, from: char, to: Seq<char>)
    requires
        utf8_len(to) >= utf8_len(seq![from]),
    ensures
        utf8_len(replaced(s, from, to)) >= utf8_len(s),
    decreases s.len(),
{
    if s.len() > 0 {
        let front = s.drop_last();
        let piece = if s.last() == from {
            to
        } else {
            seq![s.last()]
        };
        lemma_replaced_grows(front, from, to);
        lemma_encode_concat(replaced(front, from, to), piece);
        lemma_encode_concat(front, seq![s.last()]);
        assert(front + seq![s.last()] == s);
    }
}

/// A text of ASCII characters takes one byte for each.
proof fn lemma_ascii_len(s: Seq<char>)
    requires
        is_ascii_chars(s),
    ensures
        utf8_len(s) == s.len(),
{
    is_ascii_chars_encode_utf8(s);
}

/// Escaping never shortens a text: the escaped form takes at least as many
/// bytes as the text itself.
pub proof fn lemma_escaped_grows(s: Seq<char>)
    ensures
        utf8_len(escaped(s)) >= utf8_len(s),
{
    reveal_strlit("\\n");
    reveal_strlit("\\r");
    reveal_strlit("\\t");
    reveal_strlit("\\\"");
    lemma_ascii_len(seq!['\n']);
    lemma_ascii_len(seq!['\r']);
    lemma_ascii_len(seq!['\t']);
    lemma_ascii_len(seq!['"']);
    lemma_ascii_len("\\n"@);
    lemma_ascii_len("\\r"@);
    lemma_ascii_len("\\t"@);
    lemma_ascii_len("\\\""@);
    let a = replaced(s, '\n', "\\n"@);
    let b = replaced(a, '\r', "\\r"@);
    let c = replaced(b, '\t', "\\t"@);
    lemma_replaced_grows(s, '\n', "\\n"@);
    lemma_replaced_grows(a, '\r', "\\r"@);
    lemma_replaced_grows(b, '\t', "\\t"@);
    lemma_replaced_grows(c, '"', "\\\""@);
}

/// `s` with every `from` replaced by `to`.
pub fn replace(s: &str, from: char, to: &str) -> (r: String)
    ensures
        r@ == replaced(s@, from, to@),
{
    let mut r = String::new();
    let chars = s.chars();
    for c in it: chars
        invariant
            it.seq() == s@,
            r@ == replaced(s@.take(it.index()), from, to@),
    {
        proof {
            assert(s@.take(it.index() + 1).drop_last() == s@.take(it.index()));
        }
        if c == from {
            r.append(to);
        } else {
            r.push(c);
        }
    }
    assert(s@.take(s@.len() as int) == s@);
    r
}

/// `s`, escaped for a C string literal.
pub fn escape(s: &str) -> (r: String)
    ensures
        r@ == escaped(s@),
{
    let r = replace(s, '\n', "\\n");
    let r = replace(r.as_str(), '\r', "\\r");
    let r = replace(r.as_str(), '\t', "\\t");
    replace(r.as_str(), '"', "\\\"")
}

} // verus!
