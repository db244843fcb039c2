//! Embeds a directory of assets in a C header.
//!
//! A directory is taken as a tree of [`Asset`]s: a snapshot, read once. From
//! it come two texts. The declaration, [`generate_header`], is a struct type
//! that mirrors the tree, with a nested struct for each directory and, for
//! each file, an array for its data and a `size_t` for the length. The
//! definition, [`generate_impl`], is the one instance of that type,
//! initialized with the contents of the files: text files as string literals,
//! all others as lists of bytes. The definition goes to a source file of its
//! own or, behind a macro, to the end of the header.
//!
//! Both texts are built from the same tree in the same order, so that each
//! initializer meets the member it is meant for; `layout` states this and
//! proves it.

pub mod byte_list;
pub mod definition;
pub mod escape;
pub mod header;
pub mod kind;
pub mod layout;
pub mod names;
pub mod numbers;
pub mod output;
pub mod strings;
pub mod tree;

pub use definition::{emit_impl, generate_impl, struct_fieldify_impl, GenerateError};
pub use header::{emit_header, generate_header, struct_fieldify};
pub use kind::AssetOutputType;
pub use output::{output_files, output_name};
pub use tree::Asset;
