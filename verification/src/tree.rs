//! The asset tree: a snapshot of a directory, taken once and rendered twice.

use vstd::prelude::*;
use vstd::utf8::valid_utf8;
use crate::kind::{output_type, AssetOutputType};

verus! {

/// One entry of a directory, with all that lies below it.
#[derive(Debug, PartialEq, Eq)]
pub enum Asset {
    /// A directory: its name and its entries, in the order in which they were
    /// read.
    Directory { name: String, children: Vec<Asset> },
    /// A file: its name and its contents.
    File { name: String, contents: Vec<u8> },
}

/// An asset as a mathematical value.
pub enum AssetView {
    /// A directory: its name and the values of its entries, in order.
    Directory { name: Seq<char>, children: Seq<AssetView> },
    /// A file: its name and its bytes.
    File { name: Seq<char>, contents: Seq<u8> },
}

/// The value that `asset` stands for.
pub open spec fn asset_view(asset: Asset) -> AssetView
    decreases asset,
{
    match asset {
        Asset::Directory { name, children } => AssetView::Directory {
            name: name@,
            children: Seq::new(
                children@.len(),
                |i: int|
                    if 0 <= i < children@.len() {
                        asset_view(children@[i])
                    } else {
                        arbitrary()
                    },
            ),
        },
        Asset::File { name, contents } => AssetView::File { name: name@, contents: contents@ },
    }
}

impl View for Asset {
    type V = AssetView;

    open spec fn view(&self) -> AssetView {
        asset_view(*self)
    }
}

/// The values that the entries of a directory stand for, in order.
pub open spec fn views(entries: Seq<Asset>) -> Seq<AssetView> {
    Seq::new(entries.len(), |i: int| entries[i]@)
}

/// Whether `asset` can be written out in full: every file below it that is
/// embedded as text holds well-formed UTF-8.
pub open spec fn renderable(asset: AssetView) -> bool
    decreases asset,
{
    match asset {
        AssetView::Directory { name, children } => forall|i: int|
            0 <= i < children.len() ==> renderable(#[trigger] children[i]),
        AssetView::File { name, contents } => output_type(name) == AssetOutputType::String
            ==> valid_utf8(contents),
    }
}

/// Whether every one of `entries` can be written out in full.
pub open spec fn all_renderable(entries: Seq<AssetView>) -> bool {
    forall|i: int| 0 <= i < entries.len() ==> renderable(#[trigger] entries[i])
}

/// The children of a directory are the views of its entries.
pub proof fn lemma_directory_view(asset: Asset)
    requires
        asset is Directory,
    ensures
        asset@ is Directory,
        asset@->Directory_name == asset->Directory_name@,
        asset@->children == views(asset->children@),
{
}

impl Asset {
    /// Whether this asset can be written out in full: every file below it
    /// that is embedded as text holds well-formed UTF-8.
    pub fn is_renderable(&self) -> (ok: bool)
        ensures
            ok == renderable(self@),
        decreases self,
    {
        match self {
            Asset::Directory { name, children } => {
                proof {
                    lemma_directory_view(*self);
                }
                for i in 0..children.len()
                    invariant
                        self matches Asset::Directory { children: c, .. } && c == children,
                        self@ is Directory,
                        self@->children == views(children@),
                        forall|k: int| 0 <= k < i ==> renderable(#[trigger] views(children@)[k]),
                {
                    if !children[i].is_renderable() {
                        assert(!renderable(views(children@)[i as int]));
                        return false;
                    }
                }
                true
            },
            Asset::File { name, contents } => {
                match AssetOutputType::guess_from_filepath(name.as_str()) {
                    AssetOutputType::String => core::str::from_utf8(contents.as_slice()).is_ok(),
                    AssetOutputType::Bytes => true,
                }
            },
        }
    }
}

/// Whether every one of `entries` can be written out in full.
pub fn all_are_renderable(entries: &[Asset]) -> (ok: bool)
    ensures
        ok == all_renderable(views(entries@)),
{
    for i in 0..entries.len()
        invariant
            forall|k: int| 0 <= k < i ==> renderable(#[trigger] views(entries@)[k]),
    {
        if !entries[i].is_renderable() {
            assert(!renderable(views(entries@)[i as int]));
            return false;
        }
    }
    true
}

} // verus!
