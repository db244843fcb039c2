//! How a file is embedded: as a string literal or as an array of bytes.

use vstd::prelude::*;
use crate::names::{extension, split_point};
use crate::strings::chars_of;

verus! {

/// The two ways of embedding a file.
#[derive(Debug, Clone, Copy, PartialEq, Eq, Structural)]
pub enum AssetOutputType {
    /// An escaped C string literal.
    String,
    /// A brace-delimited list of byte literals.
    Bytes,
}

/// The extensions of the files that are embedded as text.
pub open spec fn is_text_extension(ext: Seq<char>) -> bool {
    ||| ext == "txt"@
    ||| ext == "json"@
    ||| ext == "xml"@
    ||| ext == "csv"@
    ||| ext == "html"@
    ||| ext == "htm"@
    ||| ext == "css"@
    ||| ext == "js"@
    ||| ext == "md"@
    ||| ext == "toml"@
    ||| ext == "rs"@
    ||| ext == "glsl"@
    ||| ext == "frag"@
    ||| ext == "vert"@
}

/// The kind of the file named `name`: text where its extension is one of the
/// text extensions, bytes otherwise, a name without extension included.
pub open spec fn output_type(name: Seq<char>) -> AssetOutputType {
    match extension(name) {
        Some(ext) => if is_text_extension(ext) {
            AssetOutputType::String
        } else {
            AssetOutputType::Bytes
        },
        None => AssetOutputType::Bytes,
    }
}

/// Whether the characters `v[from..]` spell `word`.
fn tail_is(v: &[char], from: usize, word: &str) -> (r: bool)
    requires
        from <= v@.len(),
    ensures
        r == (v@.skip(from as int) == word@),
{
    let mut i: usize = from;
    let chars = word.chars();
    for c in it: chars
        invariant
            it.seq() == word@,
            i == from + it.index(),
            i <= v@.len(),
            v@.subrange(from as int, i as int) == word@.take(it.index()),
    {
        if i >= v.len() || v[i] != c {
            assert(v@.skip(from as int) != word@);
            return false;
        }
        i += 1;
    }
    assert(word@.take(word@.len() as int) == word@);
    i == v.len()
}

impl AssetOutputType {
    /// Classifies a file by its name alone. `file_name` is the last component
    /// of the file's path.
    pub fn guess_from_filepath(file_name: &str) -> (kind: AssetOutputType)
        ensures
            kind == output_type(file_name@),
    {
        let name = chars_of(file_name);
        let v = name.as_slice();
        match split_point(v) {
            Some(dot) => {
                let from = dot + 1;
                let text = tail_is(v, from, "txt")
                    || tail_is(v, from, "json")
                    || tail_is(v, from, "xml")
                    || tail_is(v, from, "csv")
                    || tail_is(v, from, "html")
                    || tail_is(v, from, "htm")
                    || tail_is(v, from, "css")
                    || tail_is(v, from, "js")
                    || tail_is(v, from, "md")
                    || tail_is(v, from, "toml")
                    || tail_is(v, from, "rs")
                    || tail_is(v, from, "glsl")
                    || tail_is(v, from, "frag")
                    || tail_is(v, from, "vert");
                if text {
                    AssetOutputType::String
                } else {
                    AssetOutputType::Bytes
                }
            },
            None => AssetOutputType::Bytes,
        }
    }
}

} // verus!
