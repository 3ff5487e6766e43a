//! Byte-level vocabulary: little-endian fields inside byte sequences, and
//! replacing a stretch of bytes.

use vstd::bytes::{
    spec_u32_from_le_bytes, spec_u32_to_le_bytes, spec_u64_from_le_bytes, spec_u64_to_le_bytes,
    u32_from_le_bytes, u32_to_le_bytes, u64_from_le_bytes, u64_to_le_bytes,
};
use vstd::prelude::*;
use vstd::slice::slice_subrange;

verus! {

/// The four little-endian bytes of `x`.
pub open spec fn le32(x: u32) -> Seq<u8> {
    spec_u32_to_le_bytes(x)
}

/// The eight little-endian bytes of `x`.
pub open spec fn le64(x: u64) -> Seq<u8> {
    spec_u64_to_le_bytes(x)
}

/// The little-endian `u32` that stands at byte `at` of `s`.
pub open spec fn u32_at(s: Seq<u8>, at: int) -> u32 {
    spec_u32_from_le_bytes(s.subrange(at, at + 4))
}

/// The little-endian `u64` that stands at byte `at` of `s`.
pub open spec fn u64_at(s: Seq<u8>, at: int) -> u64 {
    spec_u64_from_le_bytes(s.subrange(at, at + 8))
}

/// `n` zero bytes.
pub open spec fn zeros(n: int) -> Seq<u8> {
    Seq::new(n as nat, |i: int| 0u8)
}

/// `s` with the bytes from `at` on replaced by those of `d`.
pub open spec fn splice(s: Seq<u8>, at: int, d: Seq<u8>) -> Seq<u8> {
    Seq::new(s.len(), |i: int| if at <= i < at + d.len() { d[i - at] } else { s[i] })
}

/// Page number `page` of the file `f`.
pub open spec fn page_of(f: Seq<u8>, page: int, page_size: int) -> Seq<u8> {
    f.subrange(page * page_size, page * page_size + page_size)
}

/// Encodings have their fixed length and decode to what was encoded.
pub broadcast proof fn lemma_le32(x: u32)
    ensures
        (#[trigger] le32(x)).len() == 4,
        spec_u32_from_le_bytes(le32(x)) == x,
{
    vstd::bytes::lemma_auto_spec_u32_to_from_le_bytes();
    assert(spec_u32_to_le_bytes(x).len() == 4);
}

pub broadcast proof fn lemma_le64(x: u64)
    ensures
        (#[trigger] le64(x)).len() == 8,
        spec_u64_from_le_bytes(le64(x)) == x,
{
    vstd::bytes::lemma_auto_spec_u64_to_from_le_bytes();
    assert(spec_u64_to_le_bytes(x).len() == 8);
}

/// Reads the little-endian `u32` at byte `at`.
pub fn read_u32(data: &[u8], at: usize) -> (x: u32)
    requires
        at + 4 <= data.len(),
    ensures
        x == u32_at(data@, at as int),
{
    u32_from_le_bytes(slice_subrange(data, at, at + 4))
}

/// Reads the little-endian `u64` at byte `at`.
pub fn read_u64(data: &[u8], at: usize) -> (x: u64)
    requires
        at + 8 <= data.len(),
    ensures
        x == u64_at(data@, at as int),
{
    u64_from_le_bytes(slice_subrange(data, at, at + 8))
}

/// Replaces the bytes of `buf` from `at` on by those of `src`.
pub fn copy_into(buf: &mut [u8], at: usize, src: &[u8])
    requires
        at + src.len() <= old(buf).len(),
    ensures
        final(buf)@ == splice(old(buf)@, at as int, src@),
{
    let mut i: usize = 0;
    while i < src.len()
        invariant
            0 <= i <= src.len(),
            at + src.len() <= old(buf).len(),
            buf@ == splice(old(buf)@, at as int, src@.take(i as int)),
        decreases src.len() - i,
    {
        buf[at + i] = src[i];
        i += 1;
        assert(buf@ =~= splice(old(buf)@, at as int, src@.take(i as int)));
    }
    assert(src@.take(i as int) =~= src@);
}

/// Replaces the bytes of `buf` from `from` up to `to` by zeros.
pub fn fill_zero(buf: &mut [u8], from: usize, to: usize)
    requires
        from <= to <= old(buf).len(),
    ensures
        final(buf)@ == splice(old(buf)@, from as int, zeros(to - from)),
{
    let mut i: usize = from;
    while i < to
        invariant
            from <= i <= to <= old(buf).len(),
            buf@ == splice(old(buf)@, from as int, zeros(i - from)),
        decreases to - i,
    {
        buf[i] = 0;
        i += 1;
        assert(buf@ =~= splice(old(buf)@, from as int, zeros(i - from)));
    }
}

/// Writes `x` at byte `at` of `buf`.
pub fn put_u32(buf: &mut [u8], at: usize, x: u32)
    requires
        at + 4 <= old(buf).len(),
    ensures
        final(buf)@ == splice(old(buf)@, at as int, le32(x)),
{
    let field = u32_to_le_bytes(x);
    copy_into(buf, at, field.as_slice());
}

/// Writes `x` at byte `at` of `buf`.
pub fn put_u64(buf: &mut [u8], at: usize, x: u64)
    requires
        at + 8 <= old(buf).len(),
    ensures
        final(buf)@ == splice(old(buf)@, at as int, le64(x)),
{
    let field = u64_to_le_bytes(x);
    copy_into(buf, at, field.as_slice());
}

/// A fresh buffer of `len` zero bytes.
pub fn zeroed(len: usize) -> (v: Vec<u8>)
    ensures
        v@ == zeros(len as int),
{
    let v = vec![0u8; len];
    assert(v@ =~= zeros(len as int));
    v
}

} // verus!
