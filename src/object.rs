use vstd::prelude::*;
use vstd::string::{StrSliceExecFns, StringExecFns};

use core::marker::PhantomData;

use crate::codec::{deflate, inflate, zlib_fast, zlib_inflate};
use crate::digest::{hex_encode, hex_of, sha1_digest, sha1_of};
use crate::error::ObjectError;
use crate::frame::{
    decode_frame, encode_frame, frame, lemma_unframe_frame, record_result, unframe, GitType,
    ObjectKind,
};

verus! {

/// Marks a handle that reads a stored object.
pub struct ReadMode;

/// Marks a handle that prepares an object to be stored.
pub struct WriteMode;

/// The directory under which objects are stored.
pub open spec fn objects_root() -> Seq<char> {
    seq!['.', 'g', 'i', 't', '/', 'o', 'b', 'j', 'e', 'c', 't', 's', '/']
}

/// Where the object with `address` is stored: its first two characters name
/// the shard directory, the rest the file in it.
pub open spec fn object_path(address: Seq<char>) -> Seq<char> {
    objects_root() + address.subrange(0, 2) + seq!['/'] + address.subrange(2, address.len() as int)
}

/// The address of the object of kind `k` with payload `b`: the hexadecimal
/// SHA-1 digest of its frame.
pub open spec fn address_of(k: ObjectKind, b: Seq<u8>) -> Seq<char> {
    hex_of(sha1_of(frame(k, b)))
}

/// What the stored (compressed) bytes of an object decode to.
pub open spec fn stored_record(s: Seq<u8>) -> Result<(ObjectKind, Seq<u8>), ObjectError> {
    match zlib_inflate(s) {
        Some(f) => unframe(f),
        None => Err(ObjectError::CorruptObject),
    }
}

/// A handle on a stored object: its address, the path of its file and, when
/// it is being written, its framed bytes.
pub struct GitObject<T> {
    phantom: PhantomData<T>,
    file_path: String,
    hash: String,
    file_content: Option<Vec<u8>>,
}

impl<T> View for GitObject<T> {
    type V = (Seq<char>, Seq<char>, Option<Seq<u8>>);

    closed spec fn view(&self) -> (Seq<char>, Seq<char>, Option<Seq<u8>>) {
        (
            self.hash@,
            self.file_path@,
            match self.file_content {
                Some(v) => Some(v@),
                None => None,
            },
        )
    }
}

/// The path of the object with `address`, as a string.
fn path_of(address: &str) -> (r: String)
    requires
        address@.len() >= 2,
    ensures
        r@ == object_path(address@),
{
    let n = address.unicode_len();
    let mut path = <String as StringExecFns>::from_str(".git/objects/");
    proof {
        reveal_strlit(".git/objects/");
        reveal_strlit("/");
    }
    assert(path@ =~= objects_root());
    path.append(address.substring_char(0, 2));
    path.append("/");
    path.append(address.substring_char(2, n));
    assert(path@ =~= object_path(address@));
    path
}

impl<T> GitObject<T> {
    /// The object's address, 40 lowercase hexadecimal characters.
    pub fn hash(&self) -> (r: &str)
        ensures
            r@ == self@.0,
    {
        self.hash.as_str()
    }

    /// Where the object's file is stored.
    pub fn file_path(&self) -> (r: &str)
        ensures
            r@ == self@.1,
    {
        self.file_path.as_str()
    }

    /// The framed bytes to be stored, where the handle writes.
    pub fn file_content(&self) -> (r: Option<&Vec<u8>>)
        ensures
            match r {
                Some(v) => self@.2 == Some(v@),
                None => self@.2 is None,
            },
    {
        match &self.file_content {
            Some(v) => Some(v),
            None => None,
        }
    }
}

impl GitObject<ReadMode> {
    /// A handle for reading the object stored at `hash`.
    pub fn from_hash(hash: &str) -> (r: Self)
        requires
            hash@.len() >= 2,
        ensures
            r@ == (hash@, object_path(hash@), None::<Seq<u8>>),
    {
        let path = path_of(hash);
        GitObject {
            phantom: PhantomData,
            file_path: path,
            hash: <String as StringExecFns>::from_str(hash),
            file_content: None,
        }
    }

    /// Decodes the bytes read from the object's file: decompresses them and
    /// reads the frame. Bytes that the encoder wrote for a frame give back
    /// that frame's kind and payload; a proper prefix of them is corrupt.
    pub fn decode(&self, stored: &[u8]) -> (r: Result<GitType, ObjectError>)
        ensures
            record_result(r) == stored_record(stored@),
            forall|k: ObjectKind, p: Seq<u8>|
                #[trigger] zlib_fast(frame(k, p)) == stored@ ==> record_result(r) == Ok::<
                    (ObjectKind, Seq<u8>),
                    ObjectError,
                >((k, p)),
            forall|k: ObjectKind, p: Seq<u8>, j: int|
                0 <= j < zlib_fast(frame(k, p)).len() && #[trigger] zlib_fast(frame(k, p)).subrange(0, j)
                    == stored@ ==> r == Err::<GitType, ObjectError>(ObjectError::CorruptObject),
    {
        let r = match inflate(stored) {
            Some(framed) => decode_frame(framed.as_slice()),
            None => Err(ObjectError::CorruptObject),
        };
        assert forall|k: ObjectKind, p: Seq<u8>|
            #[trigger] zlib_fast(frame(k, p)) == stored@ implies record_result(r) == Ok::<
                (ObjectKind, Seq<u8>),
                ObjectError,
            >((k, p)) by {
            lemma_unframe_frame(k, p);
        }
        r
    }
}

impl GitObject<WriteMode> {
    /// A handle for storing `content` as an object of kind `kind`: frames it
    /// and derives its address and path from the frame.
    pub fn from_content(kind: ObjectKind, content: &[u8]) -> (r: Self)
        ensures
            r@ == (
                address_of(kind, content@),
                object_path(address_of(kind, content@)),
                Some(frame(kind, content@)),
            ),
            r@.0.len() == 40,
    {
        let framed = encode_frame(kind, content);
        let digest = sha1_digest(framed.as_slice());
        let hash = hex_encode(digest.as_slice());
        let path = path_of(hash.as_str());
        GitObject { phantom: PhantomData, file_path: path, hash, file_content: Some(framed) }
    }

    /// A handle for storing the bytes of a file as a blob.
    pub fn from_file(file_bytes: &[u8]) -> (r: Self)
        ensures
            r@ == (
                address_of(ObjectKind::Blob, file_bytes@),
                object_path(address_of(ObjectKind::Blob, file_bytes@)),
                Some(frame(ObjectKind::Blob, file_bytes@)),
            ),
            r@.0.len() == 40,
    {
        Self::from_content(ObjectKind::Blob, file_bytes)
    }

    /// The compressed bytes to write to the object's file.
    pub fn encode(&self) -> (r: Result<Vec<u8>, ObjectError>)
        requires
            self@.2 is Some,
        ensures
            r is Ok,
            r.unwrap()@ == zlib_fast(self@.2.unwrap()),
    {
        match &self.file_content {
            Some(framed) => match deflate(framed.as_slice()) {
                Some(v) => Ok(v),
                None => Err(ObjectError::IoFailure(<String as StringExecFns>::from_str("compression failed"))),
            },
            None => Err(ObjectError::IoFailure(<String as StringExecFns>::from_str("no content to write"))),
        }
    }
}

/// Building a handle for the same kind and content always gives the same
/// address: the address is a function of the frame alone.
pub proof fn lemma_address_deterministic(k: ObjectKind, b1: Seq<u8>, b2: Seq<u8>)
    requires
        b1 == b2,
    ensures
        address_of(k, b1) == address_of(k, b2),
        object_path(address_of(k, b1)) == object_path(address_of(k, b2)),
{
}

} // verus!
