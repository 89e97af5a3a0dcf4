use vstd::prelude::*;

verus! {

/// What can go wrong while storing or reading an object.
#[derive(Debug, PartialEq, Eq)]
pub enum ObjectError {
    /// No object is stored at the address.
    NotFound,
    /// The stored bytes do not decompress, or their frame is malformed.
    CorruptObject,
    /// The frame's header names a kind other than blob, tree or commit.
    UnsupportedKind,
    /// A tree entry's name is not valid UTF-8.
    InvalidEncoding,
    /// A tree payload ends in the middle of an entry.
    TruncatedEntry,
    /// The file system failed; the text names the path or the operation.
    IoFailure(String),
}

} // verus!
