use std::io::{Read, Write};

use git_starter_rust::{
    decode_frame, encode_frame, parse_tree, GitObject, GitType, ObjectError, ObjectKind,
    ReadMode, WriteMode,
};

fn zlib(bytes: &[u8]) -> Vec<u8> {
    let mut e = flate2::write::ZlibEncoder::new(Vec::new(), flate2::Compression::default());
    e.write_all(bytes).unwrap();
    e.finish().unwrap()
}

fn unzlib(bytes: &[u8]) -> Vec<u8> {
    let mut out = Vec::new();
    flate2::read::ZlibDecoder::new(bytes).read_to_end(&mut out).unwrap();
    out
}

fn store(kind: ObjectKind, content: &[u8]) -> (String, Vec<u8>) {
    let obj = GitObject::<WriteMode>::from_content(kind, content);
    let stored = obj.encode().unwrap();
    (obj.hash().to_string(), stored)
}

fn fetch(hash: &str, stored: &[u8]) -> Result<(ObjectKind, Vec<u8>), ObjectError> {
    let obj = GitObject::<ReadMode>::from_hash(hash);
    obj.decode(stored).map(|t| (t.object_type(), t.content().clone()))
}

fn tree_record(mode: &str, name: &str, target: [u8; 20]) -> Vec<u8> {
    let mut v = Vec::new();
    v.extend_from_slice(mode.as_bytes());
    v.push(b' ');
    v.extend_from_slice(name.as_bytes());
    v.push(0);
    v.extend_from_slice(&target);
    v
}

#[test]
fn it_works() {
    let obj = GitObject::<WriteMode>::from_file(b"Do this");
    let stored = obj.encode().unwrap();
    let read = GitObject::<ReadMode>::from_hash(obj.hash());
    assert_eq!(read.file_path(), obj.file_path());
    let record = read.decode(&stored).unwrap();
    assert_eq!(record.object_type(), ObjectKind::Blob);
    assert_eq!(record.content(), &b"Do this".to_vec());
}

#[test]
fn round_trip_every_kind() {
    let payloads: Vec<Vec<u8>> = vec![
        Vec::new(),
        b"hello\n".to_vec(),
        (0..=255u8).collect(),
        vec![0u8; 5000],
    ];
    for kind in [ObjectKind::Blob, ObjectKind::Tree, ObjectKind::Commit] {
        for p in &payloads {
            let (hash, stored) = store(kind, p);
            assert_eq!(fetch(&hash, &stored), Ok((kind, p.clone())));
        }
    }
}

#[test]
fn same_content_same_address() {
    let (a, _) = store(ObjectKind::Blob, b"same bytes");
    let (b, _) = store(ObjectKind::Blob, b"same bytes");
    assert_eq!(a, b);
    let (c, _) = store(ObjectKind::Commit, b"same bytes");
    assert_ne!(a, c);
}

#[test]
fn known_blob_addresses() {
    let empty = GitObject::<WriteMode>::from_file(b"");
    assert_eq!(empty.hash(), "e69de29bb2d1d6434b8b29ae775ad8c2e48c5391");
    let hello = GitObject::<WriteMode>::from_file(b"hello\n");
    assert_eq!(hello.hash(), "ce013625030ba8dba906f756967f9e9ca394464a");
    assert_eq!(
        hello.file_path(),
        ".git/objects/ce/013625030ba8dba906f756967f9e9ca394464a"
    );
    assert_eq!(hello.file_content(), Some(&b"blob 6\0hello\n".to_vec()));
}

#[test]
fn stored_bytes_are_the_compressed_frame() {
    let obj = GitObject::<WriteMode>::from_file(b"some content");
    let stored = obj.encode().unwrap();
    assert_ne!(stored, b"blob 12\0some content".to_vec());
    assert_eq!(unzlib(&stored), b"blob 12\0some content".to_vec());
}

#[test]
fn decodes_other_encoders_output() {
    let stored = zlib(b"commit 4\0tree");
    assert_eq!(fetch("0000", &stored), Ok((ObjectKind::Commit, b"tree".to_vec())));
}

#[test]
fn declared_length_mismatch_is_corrupt() {
    assert_eq!(fetch("abcd", &zlib(b"blob 5\0abc")), Err(ObjectError::CorruptObject));
    assert_eq!(fetch("abcd", &zlib(b"blob 2\0abc")), Err(ObjectError::CorruptObject));
    assert!(matches!(decode_frame(b"tree 10\0abc"), Err(ObjectError::CorruptObject)));
}

#[test]
fn malformed_headers_are_corrupt() {
    for f in [
        &b"blob"[..],
        &b"blob 3abc"[..],
        &b"blob x\0abc"[..],
        &b"blob \0"[..],
        &b"blob -3\0abc"[..],
        &b"blob 99999999999999999999999\0abc"[..],
        &b""[..],
    ] {
        assert!(matches!(decode_frame(f), Err(ObjectError::CorruptObject)), "{:?}", f);
    }
}

#[test]
fn leading_zeros_in_length_are_read() {
    let t = decode_frame(b"blob 003\0abc").unwrap();
    assert_eq!(t.object_type(), ObjectKind::Blob);
    assert_eq!(t.content(), &b"abc".to_vec());
}

#[test]
fn frame_layout() {
    assert_eq!(encode_frame(ObjectKind::Blob, b""), b"blob 0\0".to_vec());
    assert_eq!(encode_frame(ObjectKind::Tree, &[7u8; 12]), {
        let mut v = b"tree 12\0".to_vec();
        v.extend_from_slice(&[7u8; 12]);
        v
    });
    assert_eq!(encode_frame(ObjectKind::Commit, b"x"), b"commit 1\0x".to_vec());
    let big = vec![1u8; 1234567];
    assert_eq!(&encode_frame(ObjectKind::Blob, &big)[..13], b"blob 1234567\0");
}

#[test]
fn tree_entries_keep_their_order() {
    let mut addr1 = [0u8; 20];
    addr1[0] = 0xab;
    addr1[19] = 0x01;
    let addr2 = [0xffu8; 20];
    let mut payload = tree_record("100644", "a.txt", addr1);
    payload.extend(tree_record("040000", "dir", addr2));
    let entries = parse_tree(&payload).unwrap();
    assert_eq!(entries.len(), 2);
    assert_eq!(entries[0].mode(), b"100644");
    assert_eq!(entries[0].name(), "a.txt");
    assert_eq!(entries[0].target(), "ab00000000000000000000000000000000000001");
    assert_eq!(entries[1].mode(), b"040000");
    assert_eq!(entries[1].name(), "dir");
    assert_eq!(entries[1].target(), "ffffffffffffffffffffffffffffffffffffffff");
}

#[test]
fn tree_names_may_hold_spaces_and_unicode() {
    let payload = tree_record("100644", "my file é.txt", [0x12u8; 20]);
    let entries = parse_tree(&payload).unwrap();
    assert_eq!(entries.len(), 1);
    assert_eq!(entries[0].name(), "my file é.txt");
    assert_eq!(entries[0].target(), "1212121212121212121212121212121212121212");
}

#[test]
fn empty_tree_has_no_entries() {
    assert_eq!(parse_tree(b"").unwrap().len(), 0);
}

#[test]
fn tree_read_through_the_store() {
    let mut payload = tree_record("100644", "a.txt", [1u8; 20]);
    payload.extend(tree_record("040000", "dir", [2u8; 20]));
    let (hash, stored) = store(ObjectKind::Tree, &payload);
    let (kind, content) = fetch(&hash, &stored).unwrap();
    assert_eq!(kind, ObjectKind::Tree);
    let names: Vec<String> = parse_tree(&content)
        .unwrap()
        .iter()
        .map(|e| e.name().to_string())
        .collect();
    assert_eq!(names, vec!["a.txt".to_string(), "dir".to_string()]);
}

#[test]
fn truncated_tree_entries() {
    let full = tree_record("100644", "a.txt", [3u8; 20]);
    assert!(matches!(parse_tree(b"100644"), Err(ObjectError::TruncatedEntry)));
    assert!(matches!(parse_tree(b"100644 a.txt"), Err(ObjectError::TruncatedEntry)));
    assert!(matches!(parse_tree(&full[..full.len() - 1]), Err(ObjectError::TruncatedEntry)));
    let mut two = full.clone();
    two.extend_from_slice(&full[..10]);
    assert!(matches!(parse_tree(&two), Err(ObjectError::TruncatedEntry)));
}

#[test]
fn non_utf8_tree_name() {
    let mut payload = b"100644 ".to_vec();
    payload.extend_from_slice(&[0xff, 0xfe]);
    payload.push(0);
    payload.extend_from_slice(&[0u8; 20]);
    assert!(matches!(parse_tree(&payload), Err(ObjectError::InvalidEncoding)));
}

#[test]
fn non_utf8_mode_is_kept_as_bytes() {
    let mut payload = vec![0xffu8, b' '];
    payload.extend_from_slice(b"a\0");
    payload.extend_from_slice(&[0x5au8; 20]);
    let entries = parse_tree(&payload).unwrap();
    assert_eq!(entries.len(), 1);
    assert_eq!(entries[0].mode(), &[0xffu8][..]);
    assert_eq!(entries[0].name(), "a");
    assert_eq!(entries[0].target(), "5a5a5a5a5a5a5a5a5a5a5a5a5a5a5a5a5a5a5a5a");
    let tree = GitType::new(ObjectKind::Tree, payload);
    assert_eq!(tree.print(), Ok(b"a\n".to_vec()));
}

#[test]
fn storing_twice_gives_the_same_bytes() {
    let first = GitObject::<WriteMode>::from_file(b"twice");
    let second = GitObject::<WriteMode>::from_file(b"twice");
    let a = first.encode().unwrap();
    let b = second.encode().unwrap();
    assert_eq!(first.hash(), second.hash());
    assert_eq!(a, b);
    assert_eq!(unzlib(&b), b"blob 5\0twice".to_vec());
}

#[test]
fn shard_derivation() {
    let address = "abcdef0123456789abcdef0123456789abcdef01";
    let obj = GitObject::<ReadMode>::from_hash(address);
    assert_eq!(obj.hash(), address);
    assert_eq!(obj.file_path(), ".git/objects/ab/cdef0123456789abcdef0123456789abcdef01");
    assert_eq!(obj.file_content(), None);
}

#[test]
fn truncated_stored_object_is_corrupt() {
    let (hash, stored) = store(ObjectKind::Blob, b"a payload long enough to be cut short");
    for cut in [0, 1, 2, stored.len() / 2, stored.len() - 1] {
        assert_eq!(fetch(&hash, &stored[..cut]), Err(ObjectError::CorruptObject));
    }
    assert_eq!(fetch(&hash, b"not zlib at all"), Err(ObjectError::CorruptObject));
}

#[test]
fn unknown_kind_is_refused() {
    assert_eq!(fetch("abcd", &zlib(b"widget 3\0xyz")), Err(ObjectError::UnsupportedKind));
    assert!(matches!(decode_frame(b"widget 3\0xyz"), Err(ObjectError::UnsupportedKind)));
    assert!(matches!(decode_frame(b"Blob 3\0xyz"), Err(ObjectError::UnsupportedKind)));
}

#[test]
fn printing_blobs_and_commits_writes_the_payload() {
    let blob = GitType::new(ObjectKind::Blob, b"line one\nline two".to_vec());
    assert_eq!(blob.print(), Ok(b"line one\nline two".to_vec()));
    let commit = GitType::new(ObjectKind::Commit, b"tree abc\n".to_vec());
    assert_eq!(commit.print(), Ok(b"tree abc\n".to_vec()));
}

#[test]
fn printing_a_tree_lists_its_names() {
    let mut payload = tree_record("100644", "a.txt", [9u8; 20]);
    payload.extend(tree_record("040000", "sous dossier", [8u8; 20]));
    let tree = GitType::new(ObjectKind::Tree, payload);
    assert_eq!(tree.print(), Ok(b"a.txt\nsous dossier\n".to_vec()));
    let broken = GitType::new(ObjectKind::Tree, b"100644 a".to_vec());
    assert_eq!(broken.print(), Err(ObjectError::TruncatedEntry));
    let empty = GitType::new(ObjectKind::Tree, Vec::new());
    assert_eq!(empty.print(), Ok(Vec::new()));
}
