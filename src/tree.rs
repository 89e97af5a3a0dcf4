use vstd::prelude::*;
use vstd::utf8::{decode_utf8, encode_utf8, valid_utf8};

use crate::digest::{hex_encode, hex_of, utf8_string};
use crate::error::ObjectError;
use crate::frame::{
    copy_range, find_byte, index_of, lemma_index_of_bounds, push_all, GitType,
    ObjectKind,
};

verus! {

/// The length of the raw address that closes each tree entry.
pub const TARGET_LEN: usize = 20;

/// The model of a tree entry: its mode bytes, its name and its address.
pub type EntryView = (Seq<u8>, Seq<char>, Seq<char>);

/// One entry of a tree: mode, name and the hexadecimal address it points at.
/// The mode is kept as the bytes that the tree stores.
pub struct TreeEntry {
    mode: Vec<u8>,
    name: String,
    target: String,
}

impl View for TreeEntry {
    type V = EntryView;

    closed spec fn view(&self) -> EntryView {
        (self.mode@, self.name@, self.target@)
    }
}

impl TreeEntry {
    pub fn mode(&self) -> (r: &[u8])
        ensures
            r@ == self@.0,
    {
        self.mode.as_slice()
    }

    pub fn name(&self) -> (r: &str)
        ensures
            r@ == self@.1,
    {
        self.name.as_str()
    }

    pub fn target(&self) -> (r: &str)
        ensures
            r@ == self@.2,
    {
        self.target.as_str()
    }
}

/// The entries of a tree payload from position `at` on, in storage order:
/// each is `<mode> <name>\0` followed by 20 raw address bytes.
pub open spec fn tree_from(p: Seq<u8>, at: int) -> Result<
    Seq<EntryView>,
    ObjectError,
>
    decreases p.len() - at,
    via tree_from_decreases
{
    if at < 0 || at >= p.len() {
        Ok(Seq::empty())
    } else {
        let sp = index_of(p, 32, at);
        let nul = index_of(p, 0, sp + 1);
        if sp >= p.len() || nul >= p.len() || nul + 21 > p.len() {
            Err(ObjectError::TruncatedEntry)
        } else if !valid_utf8(p.subrange(sp + 1, nul)) {
            Err(ObjectError::InvalidEncoding)
        } else {
            let entry = (
                p.subrange(at, sp),
                decode_utf8(p.subrange(sp + 1, nul)),
                hex_of(p.subrange(nul + 1, nul + 21)),
            );
            match tree_from(p, nul + 21) {
                Ok(rest) => Ok(seq![entry] + rest),
                Err(e) => Err(e),
            }
        }
    }
}

#[via_fn]
proof fn tree_from_decreases(p: Seq<u8>, at: int) {
    if 0 <= at < p.len() {
        lemma_index_of_bounds(p, 32, at);
        let sp = index_of(p, 32, at);
        lemma_index_of_bounds(p, 0, sp + 1);
    }
}

/// The entries of a whole tree payload.
pub open spec fn tree_entries(p: Seq<u8>) -> Result<Seq<EntryView>, ObjectError> {
    tree_from(p, 0)
}

pub open spec fn entries_view(v: Seq<TreeEntry>) -> Seq<EntryView> {
    v.map_values(|e: TreeEntry| e@)
}

/// The model of a parsing result: the entries' views, or the error.
pub open spec fn entries_result(r: Result<Vec<TreeEntry>, ObjectError>) -> Result<
    Seq<EntryView>,
    ObjectError,
> {
    match r {
        Ok(v) => Ok(entries_view(v@)),
        Err(e) => Err(e),
    }
}

/// `done` followed by what a parse gives.
pub open spec fn after(
    done: Seq<EntryView>,
    r: Result<Seq<EntryView>, ObjectError>,
) -> Result<Seq<EntryView>, ObjectError> {
    match r {
        Ok(rest) => Ok(done + rest),
        Err(e) => Err(e),
    }
}

/// Parses a tree payload into its entries, in the order they are stored.
pub fn parse_tree(payload: &[u8]) -> (r: Result<Vec<TreeEntry>, ObjectError>)
    ensures
        entries_result(r) == tree_entries(payload@),
{
    let ghost p = payload@;
    let mut out: Vec<TreeEntry> = Vec::new();
    let mut at: usize = 0;
    assert(after(entries_view(out@), tree_from(p, 0)) == tree_from(p, 0)) by {
        assert(entries_view(out@) =~= Seq::empty());
        match tree_from(p, 0) {
            Ok(rest) => {
                assert(Seq::<EntryView>::empty() + rest =~= rest);
            },
            Err(_) => {},
        }
    }
    while at < payload.len()
        invariant
            p == payload@,
            at <= p.len(),
            tree_from(p, 0) == after(entries_view(out@), tree_from(p, at as int)),
        decreases p.len() - at,
    {
        let sp = find_byte(payload, 32u8, at);
        proof {
            lemma_index_of_bounds(p, 32, at as int);
        }
        if sp >= payload.len() {
            return Err(ObjectError::TruncatedEntry);
        }
        let nul = find_byte(payload, 0u8, sp + 1);
        proof {
            lemma_index_of_bounds(p, 0, sp + 1);
        }
        if nul >= payload.len() || payload.len() - nul < TARGET_LEN + 1 {
            return Err(ObjectError::TruncatedEntry);
        }
        let mode = copy_range(payload, at, sp);
        let name = match utf8_string(copy_range(payload, sp + 1, nul)) {
            Some(s) => s,
            None => {
                return Err(ObjectError::InvalidEncoding);
            },
        };
        let raw = copy_range(payload, nul + 1, nul + 1 + TARGET_LEN);
        let target = hex_encode(raw.as_slice());
        let entry = TreeEntry { mode, name, target };
        let ghost before = entries_view(out@);
        out.push(entry);
        proof {
            let next = nul + 21;
            assert(entries_view(out@) =~= before.push(entry@));
            match tree_from(p, next as int) {
                Ok(rest) => {
                    assert(before + (seq![entry@] + rest) =~= before.push(entry@) + rest);
                },
                Err(_) => {},
            }
        }
        at = nul + 1 + TARGET_LEN;
    }
    proof {
        assert(entries_view(out@) + Seq::empty() =~= entries_view(out@));
    }
    Ok(out)
}


/// The names of the entries, each as UTF-8 followed by a newline.
pub open spec fn names_listing(es: Seq<EntryView>) -> Seq<u8>
    decreases es.len(),
{
    if es.len() == 0 {
        Seq::empty()
    } else {
        names_listing(es.drop_last()) + encode_utf8(es.last().1) + seq![10u8]
    }
}

/// What printing a record writes: the payload of a blob or a commit, the
/// names of a tree's entries one per line.
pub open spec fn printed(t: (ObjectKind, Seq<u8>)) -> Result<Seq<u8>, ObjectError> {
    match t.0 {
        ObjectKind::Tree => match tree_entries(t.1) {
            Ok(es) => Ok(names_listing(es)),
            Err(e) => Err(e),
        },
        _ => Ok(t.1),
    }
}

/// The names of `entries`, each followed by a newline.
pub fn list_names(entries: &Vec<TreeEntry>) -> (r: Vec<u8>)
    ensures
        r@ == names_listing(entries_view(entries@)),
{
    let ghost es = entries_view(entries@);
    let mut out: Vec<u8> = Vec::new();
    let mut i: usize = 0;
    assert(es.subrange(0, 0) =~= Seq::<EntryView>::empty());
    while i < entries.len()
        invariant
            es == entries_view(entries@),
            i <= entries@.len(),
            out@ == names_listing(es.subrange(0, i as int)),
        decreases entries@.len() - i,
    {
        push_all(&mut out, entries[i].name().as_bytes());
        out.push(10u8);
        proof {
            let next = es.subrange(0, i + 1);
            assert(next.drop_last() =~= es.subrange(0, i as int));
            assert(next.last() == entries@[i as int]@);
        }
        i = i + 1;
    }
    assert(es.subrange(0, i as int) =~= es);
    out
}

impl GitType {
    /// The bytes that printing the record writes: the payload of a blob or a
    /// commit as it stands, the names of a tree's entries one per line.
    pub fn print(&self) -> (r: Result<Vec<u8>, ObjectError>)
        ensures
            match r {
                Ok(v) => printed(self@) == Ok::<Seq<u8>, ObjectError>(v@),
                Err(e) => printed(self@) == Err::<Seq<u8>, ObjectError>(e),
            },
    {
        match self.object_type() {
            ObjectKind::Tree => match parse_tree(self.content().as_slice()) {
                Ok(entries) => Ok(list_names(&entries)),
                Err(e) => Err(e),
            },
            _ => Ok(self.content().clone()),
        }
    }
}

} // verus!
