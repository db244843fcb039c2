//! The names of what is generated.

use vstd::prelude::*;
use crate::names::{file_stem, file_stem_of};

verus! {

/// The base name of the generated files and of the generated type: the name
/// that was asked for or, where none was, the stem of the directory's name.
/// There is none where no name was asked for and the directory has none.
pub fn output_name(given: Option<String>, directory_name: Option<&str>) -> (name: Option<String>)
    ensures
        match (given, directory_name) {
            (Some(asked), _) => name is Some && name->0@ == asked@,
            (None, Some(directory)) => name is Some && name->0@ == file_stem(directory@),
            (None, None) => name is None,
        },
{
    match given {
        Some(asked) => Some(asked),
        None => match directory_name {
            Some(directory) => Some(file_stem_of(directory)),
            None => None,
        },
    }
}

/// The files to write: the header `{output_name}.h` in any case, and the
/// source file `{output_name}.c` where the definition goes to a file of its
/// own.
pub fn output_files(output_name: &str, c_file: bool) -> (files: (String, Option<String>))
    ensures
        files.0@ == output_name@ + ".h"@,
        files.1 is Some <==> c_file,
        files.1 matches Some(source) ==> source@ == output_name@ + ".c"@,
{
    let mut header = output_name.to_owned();
    header.append(".h");
    if c_file {
        let mut source = output_name.to_owned();
        source.append(".c");
        (header, Some(source))
    } else {
        (header, None)
    }
}

} // verus!
