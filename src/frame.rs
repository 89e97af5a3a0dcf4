use vstd::prelude::*;

use crate::error::ObjectError;

verus! {

/// The three kinds of stored object.
#[derive(Debug, Clone, Copy, PartialEq, Eq)]
pub enum ObjectKind {
    Blob,
    Tree,
    Commit,
}

/// The ASCII tag that names a kind in a frame's header.
pub open spec fn kind_tag(k: ObjectKind) -> Seq<u8> {
    match k {
        ObjectKind::Blob => seq![98u8, 108u8, 111u8, 98u8],
        ObjectKind::Tree => seq![116u8, 114u8, 101u8, 101u8],
        ObjectKind::Commit => seq![99u8, 111u8, 109u8, 109u8, 105u8, 116u8],
    }
}

/// The kind that a header tag names, if any.
pub open spec fn kind_of_tag(t: Seq<u8>) -> Option<ObjectKind> {
    if t == kind_tag(ObjectKind::Blob) {
        Some(ObjectKind::Blob)
    } else if t == kind_tag(ObjectKind::Tree) {
        Some(ObjectKind::Tree)
    } else if t == kind_tag(ObjectKind::Commit) {
        Some(ObjectKind::Commit)
    } else {
        None
    }
}

pub open spec fn is_digit(b: u8) -> bool {
    48 <= b <= 57
}

/// The decimal digits of `n`, most significant first, without leading zeros.
pub open spec fn decimal(n: nat) -> Seq<u8>
    decreases n,
{
    if n < 10 {
        seq![(48 + n) as u8]
    } else {
        decimal(n / 10).push((48 + n % 10) as u8)
    }
}

/// A non-empty run of ASCII digits.
pub open spec fn is_decimal(s: Seq<u8>) -> bool {
    s.len() > 0 && forall|i: int| 0 <= i < s.len() ==> is_digit(#[trigger] s[i])
}

/// The number that a run of ASCII digits spells.
pub open spec fn decimal_value(s: Seq<u8>) -> nat
    decreases s.len(),
{
    if s.len() == 0 {
        0
    } else {
        decimal_value(s.drop_last()) * 10 + (s.last() - 48) as nat
    }
}

/// The first position at or after `from` that holds `c`, or the length of `s`.
pub open spec fn index_of(s: Seq<u8>, c: u8, from: int) -> int
    decreases s.len() - from,
{
    if from < 0 || from >= s.len() {
        s.len() as int
    } else if s[from] == c {
        from
    } else {
        index_of(s, c, from + 1)
    }
}

/// The framed form of an object: `<kind> <decimal length>\0<payload>`.
pub open spec fn frame(k: ObjectKind, payload: Seq<u8>) -> Seq<u8> {
    kind_tag(k) + seq![32u8] + decimal(payload.len()) + seq![0u8] + payload
}

/// What reading a framed buffer gives: the kind and the payload, or why not.
pub open spec fn unframe(f: Seq<u8>) -> Result<(ObjectKind, Seq<u8>), ObjectError> {
    let sp = index_of(f, 32, 0);
    let nul = index_of(f, 0, sp + 1);
    let digits = f.subrange(sp + 1, nul);
    if sp >= f.len() || nul >= f.len() {
        Err(ObjectError::CorruptObject)
    } else if !is_decimal(digits) || decimal_value(digits) != f.len() - nul - 1 {
        Err(ObjectError::CorruptObject)
    } else {
        match kind_of_tag(f.subrange(0, sp)) {
            Some(k) => Ok((k, f.subrange(nul + 1, f.len() as int))),
            None => Err(ObjectError::UnsupportedKind),
        }
    }
}


/// The decoded form of a stored object: its kind and its payload.
pub struct GitType {
    object_type: ObjectKind,
    content: Vec<u8>,
}

impl View for GitType {
    type V = (ObjectKind, Seq<u8>);

    closed spec fn view(&self) -> (ObjectKind, Seq<u8>) {
        (self.object_type, self.content@)
    }
}

impl GitType {
    pub fn new(object_type: ObjectKind, content: Vec<u8>) -> (r: GitType)
        ensures
            r@ == (object_type, content@),
    {
        GitType { object_type, content }
    }

    pub fn object_type(&self) -> (r: ObjectKind)
        ensures
            r == self@.0,
    {
        self.object_type
    }

    pub fn content(&self) -> (r: &Vec<u8>)
        ensures
            r@ == self@.1,
    {
        &self.content
    }
}

/// The model of a decoding result: the record's view, or the error.
pub open spec fn record_result(r: Result<GitType, ObjectError>) -> Result<(ObjectKind, Seq<u8>), ObjectError> {
    match r {
        Ok(t) => Ok(t@),
        Err(e) => Err(e),
    }
}

/// The tag of `k`, as bytes.
pub fn kind_tag_bytes(k: ObjectKind) -> (r: Vec<u8>)
    ensures
        r@ == kind_tag(k),
{
    let r: Vec<u8> = match k {
        ObjectKind::Blob => vec![98u8, 108u8, 111u8, 98u8],
        ObjectKind::Tree => vec![116u8, 114u8, 101u8, 101u8],
        ObjectKind::Commit => vec![99u8, 111u8, 109u8, 109u8, 105u8, 116u8],
    };
    assert(r@ =~= kind_tag(k));
    r
}

/// Whether `s[lo..hi]` holds exactly the bytes of `t`.
fn range_equals(s: &[u8], lo: usize, hi: usize, t: &[u8]) -> (r: bool)
    requires
        lo <= hi <= s@.len(),
    ensures
        r == (s@.subrange(lo as int, hi as int) == t@),
{
    if hi - lo != t.len() {
        return false;
    }
    let mut i: usize = 0;
    while i < t.len()
        invariant
            lo <= hi <= s@.len(),
            hi - lo == t@.len(),
            i <= t@.len(),
            forall|j: int| 0 <= j < i ==> s@[lo + j] == t@[j],
        decreases t@.len() - i,
    {
        if s[lo + i] != t[i] {
            assert(s@.subrange(lo as int, hi as int)[i as int] != t@[i as int]);
            return false;
        }
        i = i + 1;
    }
    assert(s@.subrange(lo as int, hi as int) =~= t@);
    true
}

/// The kind that the tag `s[lo..hi]` names, if any.
pub fn kind_from_tag(s: &[u8], lo: usize, hi: usize) -> (r: Option<ObjectKind>)
    requires
        lo <= hi <= s@.len(),
    ensures
        r == kind_of_tag(s@.subrange(lo as int, hi as int)),
{
    let blob = kind_tag_bytes(ObjectKind::Blob);
    let tree = kind_tag_bytes(ObjectKind::Tree);
    let commit = kind_tag_bytes(ObjectKind::Commit);
    if range_equals(s, lo, hi, blob.as_slice()) {
        Some(ObjectKind::Blob)
    } else if range_equals(s, lo, hi, tree.as_slice()) {
        Some(ObjectKind::Tree)
    } else if range_equals(s, lo, hi, commit.as_slice()) {
        Some(ObjectKind::Commit)
    } else {
        None
    }
}

/// Appends the bytes of `src` to `out`.
pub fn push_all(out: &mut Vec<u8>, src: &[u8])
    ensures
        final(out)@ == old(out)@ + src@,
{
    let mut i: usize = 0;
    while i < src.len()
        invariant
            i <= src@.len(),
            out@ == old(out)@ + src@.subrange(0, i as int),
        decreases src@.len() - i,
    {
        out.push(src[i]);
        i = i + 1;
        assert(out@ =~= old(out)@ + src@.subrange(0, i as int));
    }
    assert(src@.subrange(0, i as int) =~= src@);
}

/// Appends the decimal digits of `n` to `out`.
pub fn push_decimal(out: &mut Vec<u8>, n: usize)
    ensures
        final(out)@ == old(out)@ + decimal(n as nat),
    decreases n,
{
    if n >= 10 {
        push_decimal(out, n / 10);
    }
    out.push((48 + n % 10) as u8);
    assert(out@ =~= old(out)@ + decimal(n as nat));
}

/// The first position at or after `from` that holds `c`, or the length of `s`.
pub fn find_byte(s: &[u8], c: u8, from: usize) -> (r: usize)
    ensures
        r == index_of(s@, c, from as int),
{
    if from >= s.len() {
        return s.len();
    }
    let mut i: usize = from;
    while i < s.len() && s[i] != c
        invariant
            from <= i <= s@.len(),
            forall|j: int| from <= j < i ==> s@[j] != c,
        decreases s@.len() - i,
    {
        i = i + 1;
    }
    proof {
        lemma_index_of_first(s@, c, from as int, i as int);
    }
    i
}

/// `index_of` gives the first hit, or the length where there is none.
pub proof fn lemma_index_of_first(s: Seq<u8>, c: u8, from: int, to: int)
    requires
        0 <= from <= to <= s.len(),
        to == s.len() || s[to] == c,
        forall|j: int| from <= j < to ==> s[j] != c,
    ensures
        index_of(s, c, from) == to,
    decreases to - from,
{
    if from < to {
        lemma_index_of_first(s, c, from + 1, to);
    }
}

/// `decimal(n)` is a run of digits that spells `n`.
pub proof fn lemma_decimal(n: nat)
    ensures
        is_decimal(decimal(n)),
        decimal_value(decimal(n)) == n,
        decimal(n).len() >= 1,
    decreases n,
{
    if n < 10 {
        assert(decimal(n).drop_last() =~= Seq::<u8>::empty());
        assert(decimal_value(decimal(n)) == decimal_value(Seq::<u8>::empty()) * 10 + n);
    } else {
        lemma_decimal(n / 10);
        let d = decimal(n / 10);
        assert(decimal(n).drop_last() =~= d);
        assert(decimal(n).last() == (48 + n % 10) as u8);
        assert(decimal_value(decimal(n)) == decimal_value(d) * 10 + n % 10);
        assert forall|i: int| 0 <= i < decimal(n).len() implies is_digit(#[trigger] decimal(n)[i]) by {
            if i < d.len() {
                assert(d[i] == decimal(n)[i]);
            }
        }
    }
}

/// Each prefix of a run of digits spells at most what the whole run spells.
pub proof fn lemma_decimal_prefix(s: Seq<u8>, k: int)
    requires
        0 <= k <= s.len(),
        forall|i: int| 0 <= i < s.len() ==> is_digit(#[trigger] s[i]),
    ensures
        decimal_value(s.subrange(0, k)) <= decimal_value(s),
    decreases s.len(),
{
    if k < s.len() {
        let t = s.drop_last();
        assert forall|i: int| 0 <= i < t.len() implies is_digit(#[trigger] t[i]) by {
            assert(t[i] == s[i]);
        }
        lemma_decimal_prefix(t, k);
        assert(t.subrange(0, k) =~= s.subrange(0, k));
    } else {
        assert(s.subrange(0, k) =~= s);
    }
}

/// The number that `s[lo..hi]` spells, where it is a run of digits whose value fits.
pub fn parse_decimal(s: &[u8], lo: usize, hi: usize) -> (r: Option<usize>)
    requires
        lo <= hi <= s@.len(),
    ensures
        ({
            let d = s@.subrange(lo as int, hi as int);
            match r {
                Some(v) => is_decimal(d) && v == decimal_value(d),
                None => !is_decimal(d) || decimal_value(d) > usize::MAX,
            }
        }),
{
    let ghost d = s@.subrange(lo as int, hi as int);
    if lo == hi {
        return None;
    }
    let mut i: usize = lo;
    while i < hi
        invariant
            lo <= i <= hi <= s@.len(),
            d == s@.subrange(lo as int, hi as int),
            forall|j: int| lo <= j < i ==> is_digit(#[trigger] s@[j]),
        decreases hi - i,
    {
        if s[i] < 48 || s[i] > 57 {
            assert(!is_digit(d[i - lo]));
            return None;
        }
        i = i + 1;
    }
    assert forall|j: int| 0 <= j < d.len() implies is_digit(#[trigger] d[j]) by {
        assert(d[j] == s@[lo + j]);
    }
    let mut v: usize = 0;
    let mut i: usize = lo;
    while i < hi
        invariant
            lo <= i <= hi <= s@.len(),
            d == s@.subrange(lo as int, hi as int),
            forall|j: int| 0 <= j < d.len() ==> is_digit(#[trigger] d[j]),
            v == decimal_value(d.subrange(0, i - lo)),
        decreases hi - i,
    {
        assert(d[i - lo] == s@[i as int]);
        assert(is_digit(d[i - lo]));
        let digit = (s[i] - 48) as usize;
        assert(d.subrange(0, i + 1 - lo).drop_last() =~= d.subrange(0, i - lo));
        if v > (usize::MAX - digit) / 10 {
            assert(v * 10 + digit > usize::MAX) by (nonlinear_arith)
                requires
                    v > (usize::MAX - digit) / 10,
                    digit <= 9,
            ;
            proof {
                lemma_decimal_prefix(d, i + 1 - lo);
            }
            return None;
        }
        assert(v * 10 + digit <= usize::MAX) by (nonlinear_arith)
            requires
                v <= (usize::MAX - digit) / 10,
                digit <= 9,
        ;
        v = v * 10 + digit;
        i = i + 1;
    }
    assert(d.subrange(0, d.len() as int) =~= d);
    Some(v)
}

/// A copy of `s[lo..hi]`.
pub fn copy_range(s: &[u8], lo: usize, hi: usize) -> (r: Vec<u8>)
    requires
        lo <= hi <= s@.len(),
    ensures
        r@ == s@.subrange(lo as int, hi as int),
{
    let mut r: Vec<u8> = Vec::new();
    let mut i: usize = lo;
    while i < hi
        invariant
            lo <= i <= hi <= s@.len(),
            r@ == s@.subrange(lo as int, i as int),
        decreases hi - i,
    {
        r.push(s[i]);
        i = i + 1;
        assert(r@ =~= s@.subrange(lo as int, i as int));
    }
    r
}

/// Frames `payload` under `kind`: `<kind> <decimal length>\0<payload>`.
pub fn encode_frame(kind: ObjectKind, payload: &[u8]) -> (r: Vec<u8>)
    ensures
        r@ == frame(kind, payload@),
{
    let mut r = kind_tag_bytes(kind);
    r.push(32u8);
    push_decimal(&mut r, payload.len());
    r.push(0u8);
    push_all(&mut r, payload);
    assert(r@ =~= frame(kind, payload@));
    r
}

/// Splits a framed buffer into its kind and payload, checking the declared length.
pub fn decode_frame(f: &[u8]) -> (r: Result<GitType, ObjectError>)
    ensures
        record_result(r) == unframe(f@),
{
    let sp = find_byte(f, 32u8, 0);
    if sp >= f.len() {
        return Err(ObjectError::CorruptObject);
    }
    let nul = find_byte(f, 0u8, sp + 1);
    if nul >= f.len() {
        return Err(ObjectError::CorruptObject);
    }
    proof {
        lemma_index_of_bounds(f@, 0u8, sp + 1);
    }
    let size = match parse_decimal(f, sp + 1, nul) {
        Some(v) => v,
        None => {
            return Err(ObjectError::CorruptObject);
        },
    };
    if size != f.len() - nul - 1 {
        return Err(ObjectError::CorruptObject);
    }
    match kind_from_tag(f, 0, sp) {
        Some(k) => Ok(GitType::new(k, copy_range(f, nul + 1, f.len()))),
        None => Err(ObjectError::UnsupportedKind),
    }
}

/// `index_of` never lands before where the search starts.
pub proof fn lemma_index_of_bounds(s: Seq<u8>, c: u8, from: int)
    requires
        0 <= from,
    ensures
        from <= index_of(s, c, from) <= s.len() || (from > s.len() && index_of(s, c, from) == s.len()),
    decreases s.len() - from,
{
    if from < s.len() && s[from] != c {
        lemma_index_of_bounds(s, c, from + 1);
    }
}


/// Each kind's tag names that kind back.
pub proof fn lemma_kind_of_tag(k: ObjectKind)
    ensures
        kind_of_tag(kind_tag(k)) == Some(k),
{
    assert(kind_tag(ObjectKind::Blob)[0] != kind_tag(ObjectKind::Tree)[0]);
    assert(kind_tag(ObjectKind::Blob)[0] != kind_tag(ObjectKind::Commit)[0]);
    assert(kind_tag(ObjectKind::Tree)[0] != kind_tag(ObjectKind::Commit)[0]);
}

/// Reading a frame gives back the kind and the payload that it was built from.
pub proof fn lemma_unframe_frame(k: ObjectKind, payload: Seq<u8>)
    ensures
        unframe(frame(k, payload)) == Ok::<(ObjectKind, Seq<u8>), ObjectError>((k, payload)),
{
    let f = frame(k, payload);
    let tag = kind_tag(k);
    let dec = decimal(payload.len());
    lemma_decimal(payload.len());
    lemma_kind_of_tag(k);
    let sp = tag.len() as int;
    let nul = sp + 1 + dec.len();
    assert forall|j: int| 0 <= j < sp implies f[j] != 32 by {
        assert(f[j] == tag[j]);
    }
    assert(f[sp] == 32);
    lemma_index_of_first(f, 32, 0, sp);
    assert forall|j: int| sp + 1 <= j < nul implies f[j] != 0 by {
        assert(f[j] == dec[j - sp - 1]);
        assert(is_digit(dec[j - sp - 1]));
    }
    assert(f[nul] == 0);
    lemma_index_of_first(f, 0, sp + 1, nul);
    assert(f.subrange(sp + 1, nul) =~= dec);
    assert(f.subrange(0, sp) =~= tag);
    assert(f.subrange(nul + 1, f.len() as int) =~= payload);
}

/// A frame whose header is well formed but declares a length other than the
/// payload's is refused as corrupt, whatever its kind tag says.
pub proof fn lemma_unframe_wrong_length(tag: Seq<u8>, declared: nat, payload: Seq<u8>)
    requires
        forall|j: int| 0 <= j < tag.len() ==> tag[j] != 32,
        declared != payload.len(),
    ensures
        unframe(tag + seq![32u8] + decimal(declared) + seq![0u8] + payload) == Err::<
            (ObjectKind, Seq<u8>),
            ObjectError,
        >(ObjectError::CorruptObject),
{
    let f = tag + seq![32u8] + decimal(declared) + seq![0u8] + payload;
    let dec = decimal(declared);
    lemma_decimal(declared);
    let sp = tag.len() as int;
    let nul = sp + 1 + dec.len();
    assert forall|j: int| 0 <= j < sp implies f[j] != 32 by {
        assert(f[j] == tag[j]);
    }
    assert(f[sp] == 32);
    lemma_index_of_first(f, 32, 0, sp);
    assert forall|j: int| sp + 1 <= j < nul implies f[j] != 0 by {
        assert(f[j] == dec[j - sp - 1]);
        assert(is_digit(dec[j - sp - 1]));
    }
    assert(f[nul] == 0);
    lemma_index_of_first(f, 0, sp + 1, nul);
    assert(f.subrange(sp + 1, nul) =~= dec);
}

} // verus!
