//! A small content-addressed object store in the loose-object layout of git:
//! the frame `<kind> <length>\0<payload>`, its SHA-1 address, the zlib
//! envelope and the parser for tree payloads, each with a verified contract.
//! Reading and writing the files themselves is left to the caller.

pub mod codec;
pub mod digest;
pub mod error;
pub mod frame;
pub mod object;
pub mod tree;

pub use error::ObjectError;
pub use frame::{decode_frame, encode_frame, GitType, ObjectKind};
pub use object::{GitObject, ReadMode, WriteMode};
pub use tree::{parse_tree, TreeEntry};
