//! What a directory declares and what it defines: the members of its struct
//! and the initializers that fill them, one to one.

use vstd::prelude::*;
use vstd::utf8::{decode_utf8, decode_utf8_encode_utf8};
use crate::escape::{escaped, utf8_len};
use crate::kind::{output_type, AssetOutputType};
use crate::names::identifier;
use crate::tree::{all_renderable, AssetView};

verus! {

/// One member of a struct in the header.
pub enum Field {
    /// `const char name[size + 1];`: room for the text and a closing zero.
    Text { name: Seq<char>, size: nat },
    /// `const uint8_t name[size];`
    Bytes { name: Seq<char>, size: nat },
    /// `const size_t name_len;`
    Length { name: Seq<char> },
    /// `struct { .. } name;`
    Struct { name: Seq<char>, fields: Seq<Field> },
}

/// One initializer of the definition.
pub enum Value {
    /// A string literal that spells `text`.
    Text { text: Seq<char> },
    /// A list of byte literals.
    Bytes { bytes: Seq<u8> },
    /// A length.
    Length { len: nat },
    /// A brace-delimited list.
    Struct { values: Seq<Value> },
}

/// The members that one entry declares: a directory one nested struct, a file
/// its data and the length of its data.
pub open spec fn entry_fields(entry: AssetView) -> Seq<Field>
    decreases entry, 1int,
{
    match entry {
        AssetView::Directory { name, children } => seq![
            Field::Struct { name: identifier(name), fields: fields_of(children) },
        ],
        AssetView::File { name, contents } => seq![
            match output_type(name) {
                AssetOutputType::String => Field::Text {
                    name: identifier(name),
                    size: contents.len(),
                },
                AssetOutputType::Bytes => Field::Bytes {
                    name: identifier(name),
                    size: contents.len(),
                },
            },
            Field::Length { name: identifier(name) },
        ],
    }
}

/// The members that the entries of a directory declare, in the order of the
/// entries.
pub open spec fn fields_of(entries: Seq<AssetView>) -> Seq<Field>
    decreases entries, 0int,
{
    if entries.len() == 0 {
        Seq::empty()
    } else {
        fields_of(entries.drop_last()) + entry_fields(entries.last())
    }
}

/// The initializers that one entry gives: a directory one nested list, a file
/// its data and a length. The length that goes with a text is that of the
/// escaped literal, in bytes, not that of the file.
pub open spec fn entry_values(entry: AssetView) -> Seq<Value>
    decreases entry, 1int,
{
    match entry {
        AssetView::Directory { name, children } => seq![
            Value::Struct { values: values_of(children) },
        ],
        AssetView::File { name, contents } => match output_type(name) {
            AssetOutputType::String => seq![
                Value::Text { text: decode_utf8(contents) },
                Value::Length { len: utf8_len(escaped(decode_utf8(contents))) },
            ],
            AssetOutputType::Bytes => seq![
                Value::Bytes { bytes: contents },
                Value::Length { len: contents.len() },
            ],
        },
    }
}

/// The initializers that the entries of a directory give, in the order of
/// the entries.
pub open spec fn values_of(entries: Seq<AssetView>) -> Seq<Value>
    decreases entries, 0int,
{
    if entries.len() == 0 {
        Seq::empty()
    } else {
        values_of(entries.drop_last()) + entry_values(entries.last())
    }
}

/// Whether `value` is an initializer for `field`: of the same kind and, for
/// data, of the declared size; for a struct, member by member.
pub open spec fn binds(field: Field, value: Value) -> bool
    decreases field,
{
    match (field, value) {
        (Field::Text { name, size }, Value::Text { text }) => utf8_len(text) == size,
        (Field::Bytes { name, size }, Value::Bytes { bytes }) => bytes.len() == size,
        (Field::Length { name }, Value::Length { len }) => true,
        (Field::Struct { name, fields }, Value::Struct { values }) => {
            &&& fields.len() == values.len()
            &&& forall|i: int|
                0 <= i < fields.len() ==> binds(#[trigger] fields[i], values[i])
        },
        _ => false,
    }
}

/// How many of `entries` are files.
pub open spec fn files_in(entries: Seq<AssetView>) -> nat
    decreases entries.len(),
{
    if entries.len() == 0 {
        0
    } else if entries.last() is File {
        files_in(entries.drop_last()) + 1
    } else {
        files_in(entries.drop_last())
    }
}

/// How many of `entries` are directories.
pub open spec fn directories_in(entries: Seq<AssetView>) -> nat
    decreases entries.len(),
{
    if entries.len() == 0 {
        0
    } else if entries.last() is Directory {
        directories_in(entries.drop_last()) + 1
    } else {
        directories_in(entries.drop_last())
    }
}

/// A directory declares two members for each file in it and one for each
/// directory in it, and gives exactly as many initializers.
pub proof fn lemma_field_count(entries: Seq<AssetView>)
    ensures
        fields_of(entries).len() == 2 * files_in(entries) + directories_in(entries),
        values_of(entries).len() == fields_of(entries).len(),
    decreases entries.len(),
{
    if entries.len() > 0 {
        let last = entries.last();
        lemma_field_count(entries.drop_last());
        assert(entry_fields(last).len() == if last is File {
            2nat
        } else {
            1nat
        });
        assert(entry_values(last).len() == entry_fields(last).len());
    }
}

/// Members and initializers stand in the same order: the initializer at each
/// place is one for the member declared at that place, at every level.
pub proof fn lemma_values_bind_fields(entries: Seq<AssetView>)
    requires
        all_renderable(entries),
    ensures
        values_of(entries).len() == fields_of(entries).len(),
        forall|i: int|
            0 <= i < fields_of(entries).len() ==> binds(
                #[trigger] fields_of(entries)[i],
                values_of(entries)[i],
            ),
    decreases entries,
{
    lemma_field_count(entries);
    if entries.len() > 0 {
        let front = entries.drop_last();
        let last = entries.last();
        assert(all_renderable(front));
        lemma_values_bind_fields(front);
        match last {
            AssetView::Directory { name, children } => {
                lemma_values_bind_fields(children);
            },
            AssetView::File { name, contents } => {
                if output_type(name) == AssetOutputType::String {
                    decode_utf8_encode_utf8(contents);
                }
            },
        }
        let fields = fields_of(entries);
        let values = values_of(entries);
        assert forall|i: int| 0 <= i < fields.len() implies binds(
            #[trigger] fields[i],
            values[i],
        ) by {
            let n = fields_of(front).len();
            if i >= n {
                assert(fields[i] == entry_fields(last)[i - n]);
                assert(values[i] == entry_values(last)[i - n]);
            }
        }
    }
}

} // verus!
