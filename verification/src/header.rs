//! The header: the struct type that mirrors the directory, and the
//! declaration of its one instance.

use vstd::prelude::*;
use crate::kind::AssetOutputType;
use crate::layout::{entry_fields, fields_of, Field};
use crate::names::identifier_of;
use crate::numbers::{decimal, push_decimal};
use crate::strings::uppercase;
use crate::tree::{lemma_directory_view, views, Asset};

verus! {

/// The declaration of one member, as it stands in the header.
pub open spec fn field_text(field: Field) -> Seq<char>
    decreases field, 1int,
{
    match field {
        Field::Text { name, size } => "const char "@ + name + "["@ + decimal(size) + " + 1];\n"@,
        Field::Bytes { name, size } => "const uint8_t "@ + name + "["@ + decimal(size) + "];\n"@,
        Field::Length { name } => "const size_t "@ + name + "_len;\n"@,
        Field::Struct { name, fields } => "struct {\n"@ + fields_text(fields) + "} "@ + name
            + ";\n"@,
    }
}

/// The declarations of `fields`, one after the other.
pub open spec fn fields_text(fields: Seq<Field>) -> Seq<char>
    decreases fields, 0int,
{
    if fields.len() == 0 {
        Seq::empty()
    } else {
        fields_text(fields.drop_last()) + field_text(fields.last())
    }
}

/// The lines that open the include guard named after `guard`.
pub open spec fn guard_open(guard: Seq<char>) -> Seq<char> {
    "#ifndef "@ + guard + "_H\n"@ + "#define "@ + guard + "_H\n"@
}

/// The lines that open the C++ linkage guard.
pub open spec fn linkage_open() -> Seq<char> {
    "#ifdef __cplusplus\n"@ + "extern \"C\" {\n"@ + "#endif\n"@
}

/// The lines that close the C++ linkage guard.
pub open spec fn linkage_close() -> Seq<char> {
    "#ifdef __cplusplus\n"@ + "}\n"@ + "#endif\n"@
}

/// The definition of the type `__{base}_t`: a struct with the members
/// `fields`.
pub open spec fn struct_type(base: Seq<char>, fields: Seq<Field>) -> Seq<char> {
    "typedef struct {\n"@ + fields_text(fields) + "} __"@ + base + "_t;\n"@
}

/// The declaration of `{base}`, the one instance of `__{base}_t`.
pub open spec fn instance_declaration(base: Seq<char>) -> Seq<char> {
    "extern const __"@ + base + "_t "@ + base + ";\n"@
}

/// The header for the struct with the members `fields`: inside an include
/// guard named after `guard`, the two standard includes and, inside a C++
/// linkage guard, the type `__{base}_t` and the declaration of its instance
/// `{base}`.
pub open spec fn header_text(base: Seq<char>, guard: Seq<char>, fields: Seq<Field>) -> Seq<char> {
    guard_open(guard) + "#include <stdint.h>\n"@ + "#include <stddef.h>\n"@ + linkage_open()
        + struct_type(base, fields) + instance_declaration(base) + linkage_close() + "#endif\n"@
}

/// The declarations of two lists of members, joined, are those of the joined
/// list.
pub proof fn lemma_fields_text_concat(a: Seq<Field>, b: Seq<Field>)
    ensures
        fields_text(a + b) == fields_text(a) + fields_text(b),
    decreases b.len(),
{
    if b.len() > 0 {
        assert((a + b).drop_last() == a + b.drop_last());
        lemma_fields_text_concat(a, b.drop_last());
    }
}

/// A single member's declaration.
pub proof fn lemma_fields_text_one(field: Field)
    ensures
        fields_text(seq![field]) == field_text(field),
{
    assert(seq![field].drop_last() == Seq::<Field>::empty());
    assert(fields_text(seq![field]) == fields_text(Seq::<Field>::empty()) + field_text(field));
}

/// The text of the members that one more entry adds to a directory.
proof fn lemma_fields_text_step(entries: Seq<Asset>, i: int)
    requires
        0 <= i < entries.len(),
    ensures
        fields_text(fields_of(views(entries).take(i + 1))) == fields_text(
            fields_of(views(entries).take(i)),
        ) + fields_text(entry_fields(entries[i]@)),
{
    let all = views(entries);
    assert(all.take(i + 1).drop_last() == all.take(i));
    lemma_fields_text_concat(fields_of(all.take(i)), entry_fields(entries[i]@));
}

/// Appends the declaration of the members that `node` stands for: for a
/// directory a nested struct named after it, for a file its data and the
/// length of its data.
pub fn struct_fieldify(node: &Asset, output: &mut String)
    ensures
        final(output)@ == old(output)@ + fields_text(entry_fields(node@)),
    decreases node,
{
    match node {
        Asset::Directory { name, children } => {
            let id = identifier_of(name.as_str());
            output.append("struct {\n");
            let ghost start = output@;
            for i in 0..children.len()
                invariant
                    node matches Asset::Directory { children: c, .. } && c == children,
                    output@ == start + fields_text(fields_of(views(children@).take(i as int))),
            {
                proof {
                    lemma_fields_text_step(children@, i as int);
                }
                struct_fieldify(&children[i], output);
            }
            output.append("} ");
            output.append(id.as_str());
            output.append(";\n");
            proof {
                lemma_directory_view(*node);
                assert(views(children@).take(children@.len() as int) == views(children@));
                let field = Field::Struct {
                    name: id@,
                    fields: fields_of(views(children@)),
                };
                lemma_fields_text_one(field);
            }
        },
        Asset::File { name, contents } => {
            let id = identifier_of(name.as_str());
            let size = contents.len() as u64;
            match AssetOutputType::guess_from_filepath(name.as_str()) {
                AssetOutputType::String => {
                    output.append("const char ");
                    output.append(id.as_str());
                    output.append("[");
                    push_decimal(output, size);
                    output.append(" + 1];\n");
                },
                AssetOutputType::Bytes => {
                    output.append("const uint8_t ");
                    output.append(id.as_str());
                    output.append("[");
                    push_decimal(output, size);
                    output.append("];\n");
                },
            }
            output.append("const size_t ");
            output.append(id.as_str());
            output.append("_len;\n");
            proof {
                let fields = entry_fields(node@);
                assert(fields == seq![fields[0]] + seq![fields[1]]);
                lemma_fields_text_concat(seq![fields[0]], seq![fields[1]]);
                lemma_fields_text_one(fields[0]);
                lemma_fields_text_one(fields[1]);
            }
        },
    }
}

/// Appends the lines that open the include guard.
fn push_guard_open(output: &mut String, guard: &str)
    ensures
        final(output)@ == old(output)@ + guard_open(guard@),
{
    output.append("#ifndef ");
    output.append(guard);
    output.append("_H\n");
    output.append("#define ");
    output.append(guard);
    output.append("_H\n");
}

/// Appends the lines that open the C++ linkage guard.
pub(crate) fn push_linkage_open(output: &mut String)
    ensures
        final(output)@ == old(output)@ + linkage_open(),
{
    output.append("#ifdef __cplusplus\n");
    output.append("extern \"C\" {\n");
    output.append("#endif\n");
}

/// Appends the lines that close the C++ linkage guard.
pub(crate) fn push_linkage_close(output: &mut String)
    ensures
        final(output)@ == old(output)@ + linkage_close(),
{
    output.append("#ifdef __cplusplus\n");
    output.append("}\n");
    output.append("#endif\n");
}

/// Appends the definition of the struct type for the entries of `directory`.
fn push_struct_type(output: &mut String, directory: &[Asset], output_name: &str)
    ensures
        final(output)@ == old(output)@ + struct_type(output_name@, fields_of(views(directory@))),
{
    output.append("typedef struct {\n");
    let ghost start = output@;
    for i in 0..directory.len()
        invariant
            output@ == start + fields_text(fields_of(views(directory@).take(i as int))),
    {
        proof {
            lemma_fields_text_step(directory@, i as int);
        }
        struct_fieldify(&directory[i], output);
    }
    proof {
        assert(views(directory@).take(directory@.len() as int) == views(directory@));
    }
    output.append("} __");
    output.append(output_name);
    output.append("_t;\n");
}

/// Appends the declaration of the instance.
fn push_instance_declaration(output: &mut String, output_name: &str)
    ensures
        final(output)@ == old(output)@ + instance_declaration(output_name@),
{
    output.append("extern const __");
    output.append(output_name);
    output.append("_t ");
    output.append(output_name);
    output.append(";\n");
}

/// Appends the header for the entries of `directory`, with `guard` in the
/// name of the include guard.
pub fn emit_header(directory: &[Asset], output_name: &str, guard: &str, output: &mut String)
    ensures
        final(output)@ == old(output)@ + header_text(
            output_name@,
            guard@,
            fields_of(views(directory@)),
        ),
{
    push_guard_open(output, guard);
    output.append("#include <stdint.h>\n");
    output.append("#include <stddef.h>\n");
    push_linkage_open(output);
    push_struct_type(output, directory, output_name);
    push_instance_declaration(output, output_name);
    push_linkage_close(output);
    output.append("#endif\n");
}

/// Appends the header for the entries of `directory`. The include guard is
/// named after `output_name` in upper case.
pub fn generate_header(directory: &[Asset], output_name: &str, output: &mut String)
    ensures
        final(output)@ == old(output)@ + header_text(
            output_name@,
            uppercase(output_name@),
            fields_of(views(directory@)),
        ),
{
    let guard = output_name.to_uppercase();
    emit_header(directory, output_name, guard.as_str(), output);
}

} // verus!
