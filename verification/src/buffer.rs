//! Byte buffers shared with the `bytes` crate, and byte search from `memchr`.
//!
//! `Bytes` and `BytesMut` are opaque to the verifier. What they hold is named
//! by [`contents`] and [`pending`]; the functions below are the only places
//! where the two crates are called, and their contracts are taken on trust.

use bytes::Bytes;
use bytes::BytesMut;
use vstd::prelude::*;
use vstd::slice::slice_to_vec;
use vstd::string::StringSliceAdditionalSpecFns;

verus! {

#[verifier::external_type_specification]
#[verifier::external_body]
pub struct ExBytes(bytes::Bytes);

#[verifier::external_type_specification]
#[verifier::external_body]
pub struct ExBytesMut(bytes::BytesMut);

/// The byte sequence that a `Bytes` handle refers to.
pub uninterp spec fn contents(b: Bytes) -> Seq<u8>;

/// The byte sequence currently held by a `BytesMut` buffer.
pub uninterp spec fn pending(b: BytesMut) -> Seq<u8>;

/// `<Bytes as AsRef<[u8]>>::as_ref`: borrows the bytes of the handle; the
/// slice is exactly what the handle refers to.
#[verifier::external_body]
pub(crate) fn bytes_of(b: &Bytes) -> (s: &[u8])
    ensures
        s@ == contents(*b),
{
    b.as_ref()
}

/// `<Bytes as From<Vec<u8>>>::from`: takes over the vector's storage; the
/// handle refers to the vector's elements, in order.
#[verifier::external_body]
pub(crate) fn bytes_from_vec(v: Vec<u8>) -> (b: Bytes)
    ensures
        contents(b) == v@,
{
    Bytes::from(v)
}

/// `<Bytes as Clone>::clone`: a second handle to the same bytes.
pub assume_specification[ <Bytes as Clone>::clone ](b: &Bytes) -> (c: Bytes)
    ensures
        contents(c) == contents(*b),
;

/// `Bytes::slice` on the range `begin..end`: a handle to that part of the
/// bytes. The crate panics unless `begin <= end <= len`, hence the `requires`.
#[verifier::external_body]
pub(crate) fn sub_bytes(b: &Bytes, begin: usize, end: usize) -> (c: Bytes)
    requires
        begin <= end <= contents(*b).len(),
    ensures
        contents(c) == contents(*b).subrange(begin as int, end as int),
{
    b.slice(begin..end)
}

/// `<BytesMut as AsRef<[u8]>>::as_ref`: borrows the bytes held by the buffer.
#[verifier::external_body]
pub(crate) fn pending_of(b: &BytesMut) -> (s: &[u8])
    ensures
        s@ == pending(*b),
{
    b.as_ref()
}

/// `BytesMut::split_to`: the first `at` bytes leave the buffer and are
/// returned; the buffer keeps the rest. The crate panics if `at > len`.
#[verifier::external_body]
pub(crate) fn split_front(b: &mut BytesMut, at: usize) -> (front: BytesMut)
    requires
        at <= pending(*old(b)).len(),
    ensures
        pending(front) == pending(*old(b)).take(at as int),
        pending(*final(b)) == pending(*old(b)).skip(at as int),
{
    b.split_to(at)
}

/// `BytesMut::freeze`: the buffer becomes an immutable handle to the same
/// bytes.
#[verifier::external_body]
pub(crate) fn freeze(b: BytesMut) -> (f: Bytes)
    ensures
        contents(f) == pending(b),
{
    b.freeze()
}

/// `BytesMut::extend_from_slice`: the slice is appended to the buffer, which
/// grows as needed.
#[verifier::external_body]
pub(crate) fn append(b: &mut BytesMut, extra: &[u8])
    ensures
        pending(*final(b)) == pending(*old(b)) + extra@,
{
    b.extend_from_slice(extra)
}

/// `memchr::memchr`: the index of the first occurrence of `needle` in
/// `haystack`, or `None` when the byte does not occur.
#[verifier::external_body]
pub(crate) fn find_byte(needle: u8, haystack: &[u8]) -> (found: Option<usize>)
    ensures
        match found {
            Some(i) => first_index_of(haystack@, needle) == Some(i as int),
            None => first_index_of(haystack@, needle) is None,
        },
{
    memchr::memchr(needle, haystack)
}

/// The least index at which `needle` occurs in `s`, if any.
pub open spec fn first_index_of(s: Seq<u8>, needle: u8) -> Option<int>
    decreases s.len(),
{
    if s.len() == 0 {
        None
    } else if s[0] == needle {
        Some(0)
    } else {
        match first_index_of(s.skip(1), needle) {
            Some(i) => Some(i + 1),
            None => None,
        }
    }
}

/// What `first_index_of` finds is in range, holds the needle, and nothing
/// before it does; what it misses does not occur at all.
pub proof fn lemma_first_index_of(s: Seq<u8>, needle: u8)
    ensures
        match first_index_of(s, needle) {
            Some(i) => 0 <= i < s.len() && s[i] == needle && forall|j: int|
                0 <= j < i ==> s[j] != needle,
            None => forall|j: int| 0 <= j < s.len() ==> s[j] != needle,
        },
    decreases s.len(),
{
    if s.len() > 0 && s[0] != needle {
        let t = s.skip(1);
        lemma_first_index_of(t, needle);
        match first_index_of(t, needle) {
            Some(i) => {
                assert forall|j: int| 0 <= j < i + 1 implies s[j] != needle by {
                    if j > 0 {
                        assert(t[j - 1] == s[j]);
                    }
                }
            },
            None => {
                assert forall|j: int| 0 <= j < s.len() implies s[j] != needle by {
                    if j > 0 {
                        assert(t[j - 1] == s[j]);
                    }
                }
            },
        }
    }
}

/// The first occurrence is found where it stands.
pub proof fn lemma_first_index_at(s: Seq<u8>, needle: u8, k: int)
    requires
        0 <= k < s.len(),
        s[k] == needle,
        forall|j: int| 0 <= j < k ==> s[j] != needle,
    ensures
        first_index_of(s, needle) == Some(k),
{
    lemma_first_index_of(s, needle);
}

/// Copies a slice into a fresh handle.
pub fn bytes_from_slice(s: &[u8]) -> (b: Bytes)
    ensures
        contents(b) == s@,
{
    bytes_from_vec(slice_to_vec(s))
}

/// Whether two byte slices hold the same bytes.
pub fn same_bytes(a: &[u8], b: &[u8]) -> (eq: bool)
    ensures
        eq == (a@ == b@),
{
    if a.len() != b.len() {
        return false;
    }
    let mut i: usize = 0;
    while i < a.len()
        invariant
            a@.len() == b@.len(),
            i <= a@.len(),
            forall|j: int| 0 <= j < i ==> a@[j] == b@[j],
        decreases a@.len() - i,
    {
        if a[i] != b[i] {
            return false;
        }
        i = i + 1;
    }
    assert(a@ =~= b@);
    true
}


/// The bytes of a piece of text.
pub open spec fn text(s: &str) -> Seq<u8> {
    s.spec_bytes()
}

/// The bytes of a text of ASCII characters are its characters.
pub proof fn lemma_text_ascii(s: &str)
    requires
        vstd::string::is_ascii(s),
    ensures
        text(s) == Seq::new(s@.len(), |i: int| s@[i] as u8),
{
    vstd::string::is_ascii_spec_bytes(s);
}

/// A handle to the bytes of a piece of text.
pub fn bytes_from_text(s: &str) -> (b: Bytes)
    ensures
        contents(b) == text(s),
{
    bytes_from_slice(s.as_bytes())
}

/// Whether a handle holds exactly the bytes of a piece of text.
pub fn holds_text(b: &Bytes, s: &str) -> (eq: bool)
    ensures
        eq == (contents(*b) == text(s)),
{
    same_bytes(bytes_of(b), s.as_bytes())
}

/// What each handle of a run refers to.
pub open spec fn all_contents(v: Seq<Bytes>) -> Seq<Seq<u8>> {
    Seq::new(v.len(), |i: int| contents(v[i]))
}

/// New handles to the byte strings `v[from..]`.
pub fn share_from(v: &Vec<Bytes>, from: usize) -> (tail: Vec<Bytes>)
    requires
        from <= v@.len(),
    ensures
        all_contents(tail@) == all_contents(v@).skip(from as int),
{
    let mut tail: Vec<Bytes> = Vec::new();
    let mut i: usize = from;
    while i < v.len()
        invariant
            from <= i <= v.len(),
            tail@.len() == i - from,
            forall|j: int| 0 <= j < tail@.len() ==> contents(tail@[j]) == contents(v@[from + j]),
        decreases v.len() - i,
    {
        tail.push(v[i].clone());
        i = i + 1;
    }
    assert(all_contents(tail@) =~= all_contents(v@).skip(from as int));
    tail
}

} // verus!
