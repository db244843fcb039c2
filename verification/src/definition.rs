//! The definition: the one instance of the struct, initialized with the
//! contents of the files.

use vstd::prelude::*;
use vstd::utf8::{decode_utf8, decode_utf8_encode_utf8, encode_utf8_decode_utf8, valid_utf8};
use crate::byte_list::{byte_lines, lemma_byte_lines_round_trip, parse_byte_lines, push_byte_lines};
use crate::escape::{escape, escaped, lemma_escaped_grows, utf8_len};
use crate::header::{linkage_close, linkage_open, push_linkage_close, push_linkage_open};
use crate::kind::{output_type, AssetOutputType};
use crate::layout::{entry_values, values_of, Value};
use crate::numbers::{decimal, lemma_decimal_round_trip, parse_decimal, push_decimal};
use crate::strings::uppercase;
use crate::tree::{
    all_are_renderable, all_renderable, lemma_directory_view, renderable, views, Asset,
    AssetView,
};

verus! {

/// Why a definition could not be written.
#[derive(Debug, Clone, Copy, PartialEq, Eq, Structural)]
pub enum GenerateError {
    /// A file that is embedded as text does not hold well-formed UTF-8.
    InvalidUtf8,
}

/// One initializer, as it stands in the definition, with the comma that
/// follows it.
pub open spec fn value_text(value: Value) -> Seq<char>
    decreases value, 1int,
{
    match value {
        Value::Text { text } => "\""@ + escaped(text) + "\",\n"@,
        Value::Bytes { bytes } => "{\n"@ + byte_lines(bytes) + "},\n"@,
        Value::Length { len } => decimal(len) + ",\n"@,
        Value::Struct { values } => "{\n"@ + values_text(values) + "},\n"@,
    }
}

/// The initializers `values`, one after the other.
pub open spec fn values_text(values: Seq<Value>) -> Seq<char>
    decreases values, 0int,
{
    if values.len() == 0 {
        Seq::empty()
    } else {
        values_text(values.drop_last()) + value_text(values.last())
    }
}

/// The line that begins a definition: in a file of its own the include of
/// the header, in the header itself the test of the macro that asks for the
/// definition.
pub open spec fn implementation_open(base: Seq<char>, guard: Seq<char>, single_file: bool) -> Seq<
    char,
> {
    if single_file {
        "#ifdef "@ + guard + "_IMPLEMENTATION\n"@
    } else {
        "#include \""@ + base + ".h\"\n"@
    }
}

/// The lines that end a definition inside the header: the macro is
/// undefined again, so that the definition is compiled once.
pub open spec fn implementation_close(guard: Seq<char>, single_file: bool) -> Seq<char> {
    if single_file {
        "#undef "@ + guard + "_IMPLEMENTATION\n"@ + "#endif\n"@
    } else {
        Seq::empty()
    }
}

/// The definition of `{base}`, initialized with `values`.
pub open spec fn instance_definition(base: Seq<char>, values: Seq<Value>) -> Seq<char> {
    "const __"@ + base + "_t "@ + base + " = {\n"@ + values_text(values) + "};\n"@
}

/// The definition with the initializers `values`, for a file of its own or,
/// where `single_file` holds, for the end of the header: the opening line,
/// the two standard includes and, inside a C++ linkage guard, the instance.
pub open spec fn implementation_text(
    base: Seq<char>,
    guard: Seq<char>,
    single_file: bool,
    values: Seq<Value>,
) -> Seq<char> {
    implementation_open(base, guard, single_file) + "#include <stddef.h>\n"@
        + "#include <stdint.h>\n"@ + linkage_open() + instance_definition(base, values)
        + linkage_close() + implementation_close(guard, single_file)
}

/// The text of two lists of initializers, joined, is that of the joined
/// list.
pub proof fn lemma_values_text_concat(a: Seq<Value>, b: Seq<Value>)
    ensures
        values_text(a + b) == values_text(a) + values_text(b),
    decreases b.len(),
{
    if b.len() > 0 {
        assert((a + b).drop_last() == a + b.drop_last());
        lemma_values_text_concat(a, b.drop_last());
    }
}

/// A single initializer's text.
pub proof fn lemma_values_text_one(value: Value)
    ensures
        values_text(seq![value]) == value_text(value),
{
    assert(seq![value].drop_last() == Seq::<Value>::empty());
    assert(values_text(seq![value]) == values_text(Seq::<Value>::empty()) + value_text(value));
}

/// What a file that is embedded as bytes gives: the list of its bytes and
/// their number. Read back, the list is the file's contents and the number
/// is the file's size.
pub proof fn lemma_bytes_file_round_trip(name: Seq<char>, contents: Seq<u8>)
    requires
        output_type(name) == AssetOutputType::Bytes,
    ensures
        values_text(entry_values(AssetView::File { name, contents })) == "{\n"@ + byte_lines(
            contents,
        ) + "},\n"@ + decimal(contents.len()) + ",\n"@,
        parse_byte_lines(byte_lines(contents)) == Some(contents),
        parse_decimal(decimal(contents.len())) == Some(contents.len()),
{
    let values = entry_values(AssetView::File { name, contents });
    assert(values == seq![values[0]] + seq![values[1]]);
    lemma_values_text_concat(seq![values[0]], seq![values[1]]);
    lemma_values_text_one(values[0]);
    lemma_values_text_one(values[1]);
    lemma_byte_lines_round_trip(contents);
    lemma_decimal_round_trip(contents.len());
}

/// What a file that is embedded as text gives: its text, escaped, between
/// quotes, and the length of the escaped text in bytes. That length is
/// never less than the file's size.
pub proof fn lemma_text_file_length(name: Seq<char>, contents: Seq<u8>)
    requires
        output_type(name) == AssetOutputType::String,
        valid_utf8(contents),
    ensures
        values_text(entry_values(AssetView::File { name, contents })) == "\""@ + escaped(
            decode_utf8(contents),
        ) + "\",\n"@ + decimal(utf8_len(escaped(decode_utf8(contents)))) + ",\n"@,
        utf8_len(escaped(decode_utf8(contents))) >= contents.len(),
{
    let values = entry_values(AssetView::File { name, contents });
    assert(values == seq![values[0]] + seq![values[1]]);
    lemma_values_text_concat(seq![values[0]], seq![values[1]]);
    lemma_values_text_one(values[0]);
    lemma_values_text_one(values[1]);
    decode_utf8_encode_utf8(contents);
    lemma_escaped_grows(decode_utf8(contents));
}

/// The text of the initializers that one more entry adds to a directory.
proof fn lemma_values_text_step(entries: Seq<Asset>, i: int)
    requires
        0 <= i < entries.len(),
    ensures
        values_text(values_of(views(entries).take(i + 1))) == values_text(
            values_of(views(entries).take(i)),
        ) + values_text(entry_values(entries[i]@)),
{
    let all = views(entries);
    assert(all.take(i + 1).drop_last() == all.take(i));
    lemma_values_text_concat(values_of(all.take(i)), entry_values(entries[i]@));
}

/// Appends the initializers that `node` stands for: for a directory a
/// brace-delimited list of what its entries give, for a file its data, as
/// a string literal or a list of bytes, and a length.
pub fn struct_fieldify_impl(node: &Asset, output: &mut String)
    requires
        renderable(node@),
    ensures
        final(output)@ == old(output)@ + values_text(entry_values(node@)),
    decreases node,
{
    match node {
        Asset::Directory { name, children } => {
            proof {
                lemma_directory_view(*node);
            }
            output.append("{\n");
            let ghost start = output@;
            for i in 0..children.len()
                invariant
                    node matches Asset::Directory { children: c, .. } && c == children,
                    all_renderable(views(children@)),
                    output@ == start + values_text(values_of(views(children@).take(i as int))),
            {
                proof {
                    lemma_values_text_step(children@, i as int);
                }
                struct_fieldify_impl(&children[i], output);
            }
            output.append("},\n");
            proof {
                assert(views(children@).take(children@.len() as int) == views(children@));
                let value = Value::Struct { values: values_of(views(children@)) };
                lemma_values_text_one(value);
            }
        },
        Asset::File { name, contents } => {
            match AssetOutputType::guess_from_filepath(name.as_str()) {
                AssetOutputType::String => {
                    let text = core::str::from_utf8(contents.as_slice()).unwrap();
                    proof {
                        encode_utf8_decode_utf8(text@);
                    }
                    let literal = escape(text);
                    let len = literal.as_str().as_bytes().len();
                    output.append("\"");
                    output.append(literal.as_str());
                    output.append("\",\n");
                    push_decimal(output, len as u64);
                    output.append(",\n");
                },
                AssetOutputType::Bytes => {
                    output.append("{\n");
                    push_byte_lines(output, contents.as_slice());
                    output.append("},\n");
                    push_decimal(output, contents.len() as u64);
                    output.append(",\n");
                },
            }
            proof {
                let values = entry_values(node@);
                assert(values == seq![values[0]] + seq![values[1]]);
                lemma_values_text_concat(seq![values[0]], seq![values[1]]);
                lemma_values_text_one(values[0]);
                lemma_values_text_one(values[1]);
            }
        },
    }
}

/// Appends the line that begins the definition.
fn push_implementation_open(output: &mut String, output_name: &str, guard: &str, single_file: bool)
    ensures
        final(output)@ == old(output)@ + implementation_open(output_name@, guard@, single_file),
{
    if single_file {
        output.append("#ifdef ");
        output.append(guard);
        output.append("_IMPLEMENTATION\n");
    } else {
        output.append("#include \"");
        output.append(output_name);
        output.append(".h\"\n");
    }
}

/// Appends the lines that end a definition inside the header.
fn push_implementation_close(output: &mut String, guard: &str, single_file: bool)
    ensures
        final(output)@ == old(output)@ + implementation_close(guard@, single_file),
{
    if single_file {
        output.append("#undef ");
        output.append(guard);
        output.append("_IMPLEMENTATION\n");
        output.append("#endif\n");
    }
}

/// Appends the definition of the instance for the entries of `directory`.
fn push_instance_definition(output: &mut String, directory: &[Asset], output_name: &str)
    requires
        all_renderable(views(directory@)),
    ensures
        final(output)@ == old(output)@ + instance_definition(
            output_name@,
            values_of(views(directory@)),
        ),
{
    output.append("const __");
    output.append(output_name);
    output.append("_t ");
    output.append(output_name);
    output.append(" = {\n");
    let ghost start = output@;
    for i in 0..directory.len()
        invariant
            all_renderable(views(directory@)),
            output@ == start + values_text(values_of(views(directory@).take(i as int))),
    {
        proof {
            lemma_values_text_step(directory@, i as int);
        }
        struct_fieldify_impl(&directory[i], output);
    }
    proof {
        assert(views(directory@).take(directory@.len() as int) == views(directory@));
    }
    output.append("};\n");
}

/// Appends the definition for the entries of `directory`, with `guard` in
/// the name of the macro that asks for it. Where a file that is embedded as
/// text does not hold well-formed UTF-8, nothing is appended.
pub fn emit_impl(
    directory: &[Asset],
    output_name: &str,
    guard: &str,
    output: &mut String,
    single_file: bool,
) -> (result: Result<(), GenerateError>)
    ensures
        result is Ok <==> all_renderable(views(directory@)),
        result is Ok ==> final(output)@ == old(output)@ + implementation_text(
            output_name@,
            guard@,
            single_file,
            values_of(views(directory@)),
        ),
        result matches Err(error) ==> error == GenerateError::InvalidUtf8 && final(output)@
            == old(output)@,
{
    if !all_are_renderable(directory) {
        return Err(GenerateError::InvalidUtf8);
    }
    push_implementation_open(output, output_name, guard, single_file);
    output.append("#include <stddef.h>\n");
    output.append("#include <stdint.h>\n");
    push_linkage_open(output);
    push_instance_definition(output, directory, output_name);
    push_linkage_close(output);
    push_implementation_close(output, guard, single_file);
    Ok(())
}

/// Appends the definition for the entries of `directory`: for a file of its
/// own or, where `single_file` holds, for the end of the header, inside the
/// test of a macro named after `output_name` in upper case. Where a file that
/// is embedded as text does not hold well-formed UTF-8, nothing is appended.
pub fn generate_impl(
    directory: &[Asset],
    output_name: &str,
    output: &mut String,
    single_file: bool,
) -> (result: Result<(), GenerateError>)
    ensures
        result is Ok <==> all_renderable(views(directory@)),
        result is Ok ==> final(output)@ == old(output)@ + implementation_text(
            output_name@,
            uppercase(output_name@),
            single_file,
            values_of(views(directory@)),
        ),
        result matches Err(error) ==> error == GenerateError::InvalidUtf8 && final(output)@
            == old(output)@,
{
    let guard = output_name.to_uppercase();
    emit_impl(directory, output_name, guard.as_str(), output, single_file)
}

} // verus!
