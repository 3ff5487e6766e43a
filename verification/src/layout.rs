//! Where each field stands in the file, and when a file, or a part of it, can be read.

use vstd::arithmetic::power2::pow2;
use vstd::bytes::{
    spec_u32_from_le_bytes, spec_u32_to_le_bytes, spec_u64_from_le_bytes, spec_u64_to_le_bytes,
};
use vstd::prelude::*;

use crate::bytes::{le32, le64, page_of, splice, u32_at, u64_at};
use crate::checksum::{crc32_of, is_sealed, lemma_sealed, sealed};
use crate::directory::{
    DirBlockRef, DirEntry, DirView, encode_entries, encode_refs, encode_section,
    lemma_entries_len, lemma_entries_part, lemma_refs_len, lemma_refs_part, parse_section, ref_at,
    section_body,
};
use crate::error::MappedPageError;
use crate::image::{
    StateView, fresh_file, load_block, load_dirs, load_superblock, log2_of, page0_of, recover,
    superblock_of, valid_page_size,
};
use crate::meta::{MAGIC, MetaSelector, MetaView, Superblock};
use crate::page::{page_in_map, with_page};
use crate::plan::StepView;
use crate::protected::flush_request;
use crate::task::RequestView;

verus! {

// ── Bytes ─────────────────────────────────────────────────────────────────────

/// Numbers stand in the file low byte first.
pub proof fn law_numbers_are_little_endian(x: u32, y: u64, s: Seq<u8>, at: int)
    ensures
        le32(x) == spec_u32_to_le_bytes(x),
        le64(y) == seq![
            (y & 0xff) as u8,
            ((y >> 8) & 0xff) as u8,
            ((y >> 16) & 0xff) as u8,
            ((y >> 24) & 0xff) as u8,
            ((y >> 32) & 0xff) as u8,
            ((y >> 40) & 0xff) as u8,
            ((y >> 48) & 0xff) as u8,
            ((y >> 56) & 0xff) as u8,
        ],
        0 <= at <= s.len() - 4 ==> (u32_at(s, at) == x <==> s.subrange(at, at + 4) == le32(x)),
        0 <= at <= s.len() - 8 ==> (u64_at(s, at) == y <==> s.subrange(at, at + 8) == le64(y)),
{
    vstd::bytes::spec_u64_to_le_bytes_to_open(y);
    vstd::bytes::lemma_auto_spec_u32_to_from_le_bytes();
    vstd::bytes::lemma_auto_spec_u64_to_from_le_bytes();
    if 0 <= at <= s.len() - 4 {
        let part = s.subrange(at, at + 4);
        assert(spec_u32_to_le_bytes(spec_u32_from_le_bytes(part)) == part);
        crate::bytes::lemma_le32(x);
    }
    if 0 <= at <= s.len() - 8 {
        let part = s.subrange(at, at + 8);
        assert(spec_u64_to_le_bytes(spec_u64_from_le_bytes(part)) == part);
        crate::bytes::lemma_le64(y);
    }
}

/// Bytes that are stored replace those from their place on, and no other.
pub proof fn law_stored_bytes(s: Seq<u8>, at: int, d: Seq<u8>, k: int)
    requires
        0 <= at,
        at + d.len() <= s.len(),
        0 <= k < s.len(),
    ensures
        splice(s, at, d).len() == s.len(),
        splice(s, at, d)[k] == if k < at || k >= at + d.len() {
            s[k]
        } else {
            d[k - at]
        },
{
}

/// Page `page` is the `page_size` bytes from `page * page_size` on; it lies inside a file
/// exactly where they do, and writing it changes no other byte.
pub proof fn law_page_is_its_bytes(f: Seq<u8>, page: u64, page_size: usize, new: Seq<u8>, k: int)
    requires
        page * page_size + page_size <= f.len(),
        new.len() == page_size,
    ensures
        ({
            let at = page * page_size;
            let p = page_of(f, page as int, page_size as int);
            let g = with_page(f, page as int, page_size as int, new);
            &&& page_in_map(page, page_size, f.len() as int)
            &&& p.len() == page_size
            &&& 0 <= k < page_size ==> p[k] == f[at + k]
            &&& g.len() == f.len()
            &&& 0 <= k < f.len() ==> g[k] == if k < at || k >= at + page_size {
                f[k]
            } else {
                new[k - at]
            }
        }),
{
    let (p, s) = (page as int, page_size as int);
    assert((p + 1) * s == p * s + s && 0 <= p * s) by (nonlinear_arith)
        requires
            0 <= p,
            0 <= s,
    ;
}

/// A page of which a byte lies behind the end is not inside the file.
pub proof fn law_page_past_end(page: u64, page_size: usize, len: int)
    ensures
        page_in_map(page, page_size, len) <==> page * page_size + page_size <= len,
{
    let (p, s) = (page as int, page_size as int);
    assert((p + 1) * s == p * s + s) by (nonlinear_arith);
}

/// Bytes under a checksum are followed by it, four bytes long; the seal is whole exactly
/// where those four bytes are the checksum of all before them.
pub proof fn law_seal_is_the_last_four_bytes(body: Seq<u8>, s: Seq<u8>)
    ensures
        sealed(body).len() == body.len() + 4,
        sealed(body).take(body.len() as int) == body,
        u32_at(sealed(body), body.len() as int) == crc32_of(body),
        is_sealed(s) <==> s.len() >= 4 && u32_at(s, s.len() - 4) == crc32_of(
            s.subrange(0, s.len() - 4),
        ),
{
    lemma_sealed(body);
}

// ── The superblock ────────────────────────────────────────────────────────────

/// The two selectors are written as the bytes 0 and 1, which no other byte stands for; they
/// name pages 1 and 2, and each is the other of the other.
pub proof fn law_selectors(sel: MetaSelector, b: u8)
    ensures
        sel.to_byte() == if sel is A {
            0u8
        } else {
            1u8
        },
        sel.page_id() == sel.to_byte() + 1,
        sel.other() != sel,
        sel.other().other() == sel,
        MetaSelector::spec_from_byte(b) is Some <==> b <= 1,
        MetaSelector::spec_from_byte(sel.to_byte()) == Some(sel),
        b <= 1 ==> MetaSelector::spec_from_byte(b)->0.to_byte() == b,
{
}

/// The superblock takes 20 bytes: the tag and version, the exponent of the page size, the
/// active metadata page, three zeros and the checksum of that page.
pub proof fn law_superblock_layout(sb: Superblock)
    ensures
        ({
            let s = sb.encode();
            &&& s.len() == 20
            &&& u64_at(s, 0) == sb.magic
            &&& u32_at(s, 8) == sb.page_size_log2
            &&& s[12] == if sb.active_meta is A {
                0u8
            } else {
                1u8
            }
            &&& s[13] == 0 && s[14] == 0 && s[15] == 0
            &&& u32_at(s, 16) == sb.meta_checksum
        }),
{
    broadcast use crate::bytes::lemma_le32;
    broadcast use crate::bytes::lemma_le64;

    let s = sb.encode();
    assert(s.subrange(0, 8) =~= le64(sb.magic));
    assert(s.subrange(8, 12) =~= le32(sb.page_size_log2));
    assert(s.subrange(16, 20) =~= le32(sb.meta_checksum));
}

/// Bytes hold a superblock exactly where there are 20 of them and byte 12 names a metadata
/// page.  It is compatible exactly where the first six are the tag `MPPG` and version 0.1.
pub proof fn law_superblock_is_read(data: Seq<u8>)
    ensures
        Superblock::parse(data) is Some <==> data.len() >= 20 && data[12] <= 1,
        Superblock::parse(data) matches Some(sb) ==> {
            &&& sb.magic == u64_at(data, 0)
            &&& sb.page_size_log2 == u32_at(data, 8)
            &&& sb.active_meta is A <==> data[12] == 0
            &&& sb.meta_checksum == u32_at(data, 16)
            &&& sb.compatible() <==> data.take(6) == seq![0x4Du8, 0x50u8, 0x50u8, 0x47u8, 0u8, 1u8]
        },
{
    if let Some(sb) = Superblock::parse(data) {
        vstd::bytes::lemma_auto_spec_u64_to_from_le_bytes();
        let head = data.subrange(0, 8);
        assert(spec_u64_to_le_bytes(spec_u64_from_le_bytes(head)) == head);
        assert(le64(sb.magic) == head);
        let want = seq![0x4Du8, 0x50u8, 0x50u8, 0x47u8, 0u8, 1u8];
        assert(forall|i: int| 0 <= i < 6 ==> data.take(6)[i] == head[i]);
        if sb.compatible() {
            assert(data.take(6) =~= want);
        }
        if data.take(6) == want {
            assert(head[0] == want[0] && head[1] == want[1] && head[2] == want[2] && head[3]
                == want[3] && head[4] == want[4] && head[5] == want[5]) by {
                assert(forall|i: int| 0 <= i < 6 ==> data.take(6)[i] == want[i]);
            }
        }
    }
}

// ── Metadata pages ────────────────────────────────────────────────────────────

/// A metadata page holds the number of pages, the generation, the count of free pages and
/// the bitmap, then zeros, and in its last four bytes the checksum of all before them.
pub proof fn law_metadata_layout(m: MetaView, page_size: int)
    requires
        m.bitmap.len() + 28 <= page_size,
    ensures
        ({
            let s = m.encode(page_size);
            &&& s.len() == page_size
            &&& u64_at(s, 0) == m.total_pages
            &&& u64_at(s, 8) == m.generation
            &&& u64_at(s, 16) == m.free_count
            &&& s.subrange(24, 24 + m.bitmap.len() as int) == m.bitmap
            &&& forall|k: int| 24 + m.bitmap.len() <= k < page_size - 4 ==> s[k] == 0
            &&& u32_at(s, page_size - 4) == crc32_of(s.take(page_size - 4))
        }),
{
    broadcast use crate::bytes::lemma_le32;
    broadcast use crate::bytes::lemma_le64;

    let body = m.body(page_size);
    let s = m.encode(page_size);
    lemma_sealed(body);
    assert(body.len() == page_size - 4);
    assert(s.subrange(0, 8) =~= le64(m.total_pages));
    assert(s.subrange(8, 16) =~= le64(m.generation));
    assert(s.subrange(16, 24) =~= le64(m.free_count));
    assert(s.subrange(24, 24 + m.bitmap.len() as int) =~= m.bitmap);
    assert forall|k: int| 24 + m.bitmap.len() <= k < page_size - 4 implies s[k] == 0 by {
        assert(s[k] == body[k]);
    }
}

/// A metadata page is read exactly where its checksum is right and the bitmap that it
/// announces, one bit for each page, lies inside it.
pub proof fn law_metadata_is_read(data: Seq<u8>)
    ensures
        ({
            let n = (u64_at(data, 0) + 7) / 8;
            &&& MetaView::parse(data) is Some <==> {
                &&& data.len() >= 28
                &&& u32_at(data, data.len() - 4) == crc32_of(data.take(data.len() - 4))
                &&& 28 + n <= data.len()
            }
            &&& MetaView::parse(data) matches Some(m) ==> {
                &&& m.total_pages == u64_at(data, 0)
                &&& m.generation == u64_at(data, 8)
                &&& m.free_count == u64_at(data, 16)
                &&& m.bitmap == data.subrange(24, 24 + n)
            }
        }),
{
}

// ── The directory ─────────────────────────────────────────────────────────────

/// Behind the superblock, page 0 holds the number of directory blocks and a reference of 17
/// bytes to each, then zeros, and in its last four bytes the checksum of all from byte 20
/// on.
pub proof fn law_directory_index_layout(
    page_size: usize,
    active: MetaSelector,
    meta_checksum: u32,
    blocks: Seq<DirBlockRef>,
    i: int,
)
    requires
        28 + 17 * blocks.len() <= page_size,
        blocks.len() <= u32::MAX,
    ensures
        ({
            let s = page0_of(page_size, active, meta_checksum, blocks);
            let n = page_size as int;
            let at = 24 + 17 * i;
            &&& s.len() == n
            &&& u64_at(s, 0) == MAGIC
            &&& u32_at(s, 8) == log2_of(page_size as nat) as u32
            &&& s[12] == active.to_byte()
            &&& u32_at(s, 16) == meta_checksum
            &&& u32_at(s, 20) == blocks.len()
            &&& 0 <= i < blocks.len() ==> {
                &&& u64_at(s, at) == blocks[i].page_a
                &&& u64_at(s, at + 8) == blocks[i].page_b
                &&& s[at + 16] == blocks[i].active.to_byte()
            }
            &&& forall|k: int| 24 + 17 * blocks.len() <= k < n - 4 ==> s[k] == 0
            &&& u32_at(s, n - 4) == crc32_of(s.subrange(20, n - 4))
        }),
{
    broadcast use crate::bytes::lemma_le32;
    broadcast use crate::bytes::lemma_le64;

    let n = page_size as int;
    let sb = superblock_of(page_size, active, meta_checksum);
    let s = page0_of(page_size, active, meta_checksum, blocks);
    let body = section_body(blocks, n);
    law_superblock_layout(sb);
    lemma_sealed(body);
    lemma_refs_len(blocks);
    assert(s =~= sb.encode() + encode_section(blocks, n));
    assert(body.len() == n - 24);
    assert(s.subrange(0, 8) =~= sb.encode().subrange(0, 8));
    assert(s.subrange(8, 12) =~= sb.encode().subrange(8, 12));
    assert(s.subrange(16, 20) =~= sb.encode().subrange(16, 20));
    assert(s.subrange(20, 24) =~= le32(blocks.len() as u32));
    assert(s.subrange(20, n - 4) =~= body);
    assert(s.subrange(n - 4, n) =~= sealed(body).subrange(n - 24, n - 20));
    if 0 <= i < blocks.len() {
        let at = 24 + 17 * i;
        lemma_refs_part(blocks, i);
        let part = encode_refs(blocks).subrange(17 * i, 17 * i + 17);
        assert(s.subrange(at, at + 17) =~= part);
        assert(s.subrange(at, at + 8) =~= part.subrange(0, 8));
        assert(part.subrange(0, 8) =~= le64(blocks[i].page_a));
        assert(s.subrange(at + 8, at + 16) =~= part.subrange(8, 16));
        assert(part.subrange(8, 16) =~= le64(blocks[i].page_b));
        assert(s[at + 16] == part[16]);
    }
    assert forall|k: int| 24 + 17 * blocks.len() <= k < n - 4 implies s[k] == 0 by {
        assert(s[k] == body[k - 20]);
    }
}

/// Reference `i` of page 0 names one of its two copies as the active one.
pub open spec fn names_a_copy(page0: Seq<u8>, i: int) -> bool {
    page0[24 + 17 * i + 16] <= 1
}

/// Page 0 without directory blocks lists none, whatever else it holds.  With blocks, they
/// are read exactly where the checksum is right, all references lie inside the page, and
/// each names one of its two copies as the active one.
pub proof fn law_directory_index_is_read(page0: Seq<u8>)
    requires
        page0.len() <= usize::MAX,
    ensures
        ({
            let n = page0.len() as int;
            let count = u32_at(page0, 20) as int;
            let none = n < 28 || count == 0;
            &&& parse_section(page0) is Some <==> none || {
                &&& u32_at(page0, n - 4) == crc32_of(page0.subrange(20, n - 4))
                &&& 28 + 17 * count <= n
                &&& forall|i: int| 0 <= i < count ==> #[trigger] names_a_copy(page0, i)
            }
            &&& parse_section(page0) matches Some(blocks) ==> {
                &&& blocks.len() == if none {
                    0
                } else {
                    count
                }
                &&& forall|i: int|
                    0 <= i < blocks.len() ==> {
                        &&& (#[trigger] blocks[i]).page_a == u64_at(page0, 24 + 17 * i)
                        &&& blocks[i].page_b == u64_at(page0, 24 + 17 * i + 8)
                        &&& blocks[i].active is A <==> page0[24 + 17 * i + 16] == 0
                    }
            }
        }),
{
    let n = page0.len() as int;
    let count = u32_at(page0, 20) as int;
    if n >= 28 && count > 0 {
        let part = page0.subrange(20, n);
        assert(part.subrange(part.len() - 4, part.len() as int) =~= page0.subrange(n - 4, n));
        assert(part.take(part.len() - 4) =~= page0.subrange(20, n - 4));
        assert(count <= (n - 28) / 17 <==> 28 + 17 * count <= n);
        if 28 + 17 * count <= n {
            assert forall|i: int| 0 <= i < count implies {
                &&& #[trigger] ref_at(page0, i) is Some <==> names_a_copy(page0, i)
                &&& ref_at(page0, i) matches Some(r) ==> {
                    &&& r.page_a == u64_at(page0, 24 + 17 * i)
                    &&& r.page_b == u64_at(page0, 24 + 17 * i + 8)
                    &&& r.active is A <==> page0[24 + 17 * i + 16] == 0
                }
            } by {
                let at = 24 + 17 * i;
                let r = page0.subrange(at, at + 17);
                assert(r.subrange(0, 8) =~= page0.subrange(at, at + 8));
                assert(r.subrange(8, 16) =~= page0.subrange(at + 8, at + 16));
                assert(r[16] == page0[at + 16]);
            }
            if forall|i: int| 0 <= i < count ==> #[trigger] names_a_copy(page0, i) {
                assert forall|i: int| 0 <= i < count implies #[trigger] ref_at(
                    page0,
                    i,
                ) is Some by {
                    assert(names_a_copy(page0, i));
                }
            }
            if forall|i: int| 0 <= i < count ==> #[trigger] ref_at(page0, i) is Some {
                assert forall|i: int| 0 <= i < count implies #[trigger] names_a_copy(
                    page0,
                    i,
                ) by {
                    assert(ref_at(page0, i) is Some);
                }
            }
        }
    }
}

/// A directory page holds the number of its entries and four zeros, then the entries of 30
/// bytes each, then zeros, and in its last four bytes the checksum of all before them.
pub proof fn law_directory_page_layout(d: DirView, page_size: int, i: int)
    requires
        d.entries.len() == d.capacity,
        12 + 30 * d.entries.len() <= page_size,
    ensures
        ({
            let s = d.encode(page_size);
            let at = 8 + 30 * i;
            &&& s.len() == page_size
            &&& u32_at(s, 0) == d.capacity
            &&& s[4] == 0 && s[5] == 0 && s[6] == 0 && s[7] == 0
            &&& 0 <= i < d.entries.len() ==> {
                let e = d.entries[i];
                &&& s[at] == if e.in_use {
                    1u8
                } else {
                    0u8
                }
                &&& u64_at(s, at + 1) == e.page_a
                &&& u64_at(s, at + 9) == e.page_b
                &&& s[at + 17] == e.active_slot
                &&& u64_at(s, at + 18) == e.generation
                &&& u32_at(s, at + 26) == e.checksum
            }
            &&& forall|k: int| 8 + 30 * d.entries.len() <= k < page_size - 4 ==> s[k] == 0
            &&& u32_at(s, page_size - 4) == crc32_of(s.take(page_size - 4))
        }),
{
    broadcast use crate::bytes::lemma_le32;
    broadcast use crate::bytes::lemma_le64;

    let body = d.body(page_size);
    let s = d.encode(page_size);
    lemma_sealed(body);
    lemma_entries_len(d.entries);
    assert(body.len() == page_size - 4);
    assert(s.subrange(0, 4) =~= le32(d.capacity));
    assert(s[4] == 0 && s[5] == 0 && s[6] == 0 && s[7] == 0);
    if 0 <= i < d.entries.len() {
        let at = 8 + 30 * i;
        let e = d.entries[i];
        lemma_entries_part(d.entries, i);
        let part = encode_entries(d.entries).subrange(30 * i, 30 * i + 30);
        assert(s.subrange(at, at + 30) =~= part);
        assert(s[at] == part[0]);
        assert(s.subrange(at + 1, at + 9) =~= part.subrange(1, 9));
        assert(part.subrange(1, 9) =~= le64(e.page_a));
        assert(s.subrange(at + 9, at + 17) =~= part.subrange(9, 17));
        assert(part.subrange(9, 17) =~= le64(e.page_b));
        assert(s[at + 17] == part[17]);
        assert(s.subrange(at + 18, at + 26) =~= part.subrange(18, 26));
        assert(part.subrange(18, 26) =~= le64(e.generation));
        assert(s.subrange(at + 26, at + 30) =~= part.subrange(26, 30));
        assert(part.subrange(26, 30) =~= le32(e.checksum));
    }
    assert forall|k: int| 8 + 30 * d.entries.len() <= k < page_size - 4 implies s[k] == 0 by {
        assert(s[k] == body[k]);
    }
}

/// A directory page is read exactly where its checksum is right and the entries that it
/// announces lie inside it.
pub proof fn law_directory_page_is_read(data: Seq<u8>)
    ensures
        ({
            let count = u32_at(data, 0) as int;
            &&& DirView::parse(data) is Some <==> {
                &&& data.len() >= 12
                &&& u32_at(data, data.len() - 4) == crc32_of(data.take(data.len() - 4))
                &&& 12 + 30 * count <= data.len()
            }
            &&& DirView::parse(data) matches Some(d) ==> {
                &&& d.capacity == count
                &&& d.entries.len() == count
                &&& forall|i: int|
                    0 <= i < count ==> {
                        let at = 8 + 30 * i;
                        let e = #[trigger] d.entries[i];
                        &&& e.in_use <==> data[at] != 0
                        &&& e.page_a == u64_at(data, at + 1)
                        &&& e.page_b == u64_at(data, at + 9)
                        &&& e.active_slot == data[at + 17]
                        &&& e.generation == u64_at(data, at + 18)
                        &&& e.checksum == u32_at(data, at + 26)
                    }
            }
        }),
{
}

/// Of a directory entry or block, copy A is that of selector 0, and copy B that of any other.
pub proof fn law_copies(e: DirEntry, slot: u8, r: DirBlockRef, sel: MetaSelector)
    ensures
        e.copy(0) == e.page_a,
        slot != 0 ==> e.copy(slot) == e.page_b,
        r.copy(MetaSelector::A) == r.page_a,
        r.copy(MetaSelector::B) == r.page_b,
        r.flipped().page_a == r.page_a,
        r.flipped().page_b == r.page_b,
        r.flipped().active != r.active,
{
}

// ── Files ─────────────────────────────────────────────────────────────────────

/// A new file is four pages long: page 0 names metadata page 1 and lists no directory, pages
/// 1 and 2 hold the same metadata, and the last page is all zeros.
pub proof fn law_new_file_layout(page_size: usize)
    requires
        valid_page_size(page_size),
    ensures
        ({
            let f = fresh_file(page_size);
            let n = page_size as int;
            let meta = page_of(f, 1, n);
            &&& f.len() == 4 * n
            &&& page_of(f, 2, n) == meta
            &&& forall|k: int| 3 * n <= k < 4 * n ==> f[k] == 0
            &&& u64_at(f, 0) == MAGIC
            &&& pow2(u32_at(f, 8) as nat) == page_size
            &&& f[12] == 0
            &&& u32_at(f, 16) == crc32_of(meta)
            &&& u32_at(f, 20) == 0
            &&& MetaView::parse(meta) == Some(
                MetaView { total_pages: 4, generation: 0, free_count: 1, bitmap: seq![7u8] },
            )
        }),
{
    let f = fresh_file(page_size);
    let n = page_size as int;
    let m = MetaView::fresh(4);
    let meta = m.encode(n);
    let page0 = page0_of(page_size, MetaSelector::A, crc32_of(meta), Seq::empty());
    assert(m.bitmap =~= seq![7u8]);
    law_metadata_layout(m, n);
    law_metadata_is_read(meta);
    law_directory_index_layout(page_size, MetaSelector::A, crc32_of(meta), Seq::empty(), 0);
    crate::image::lemma_log2_is_u32(page_size);
    assert(1 * n == n && 2 * n == n + n);
    assert(f =~= page0 + meta + meta + crate::bytes::zeros(n));
    assert(page_of(f, 1, n) =~= meta);
    assert(page_of(f, 2, n) =~= meta);
    assert(f.subrange(0, 8) =~= page0.subrange(0, 8));
    assert(f.subrange(8, 12) =~= page0.subrange(8, 12));
    assert(f.subrange(16, 20) =~= page0.subrange(16, 20));
    assert(f.subrange(20, 24) =~= page0.subrange(20, 24));
    assert(meta.subrange(24, 25) == seq![7u8]);
    assert(MetaView::parse(meta)->0 =~= MetaView {
        total_pages: 4,
        generation: 0,
        free_count: 1,
        bitmap: seq![7u8],
    });
}

/// The head of a file says that it was written by a compatible version, names one of the two
/// metadata pages, and is followed by at least four pages if the page size is the right one.
pub open spec fn head_is_whole(f: Seq<u8>, page_size: usize) -> bool {
    &&& f.len() >= 20
    &&& f.take(6) == seq![0x4Du8, 0x50u8, 0x50u8, 0x47u8, 0u8, 1u8]
    &&& f[12] <= 1
    &&& pow2(u32_at(f, 8) as nat) == page_size ==> f.len() >= 4 * page_size
}

/// The metadata page that the head names can be read and has the checksum that the head
/// records.
pub open spec fn named_metadata_is_whole(f: Seq<u8>, page_size: usize) -> bool {
    let page = page_of(f, f[12] + 1, page_size as int);
    MetaView::parse(page) is Some && crc32_of(page) == u32_at(f, 16)
}

/// Page `page` of the file lies inside it and holds a directory page that can be read.
pub open spec fn directory_is_whole(f: Seq<u8>, page: u64, page_size: usize) -> bool {
    &&& page * page_size + page_size <= f.len()
    &&& DirView::parse(page_of(f, page as int, page_size as int)) is Some
}

/// A file is opened if its head is whole, the page size is right, one of its metadata pages
/// can be read, so can the list of directory blocks, and so can one copy of each block.
/// What fails first of these is reported.  Of two copies that can be read, the active one
/// counts; the other only takes its place.
pub proof fn law_opening_a_file(f: Seq<u8>, page_size: usize)
    requires
        page_size > 0,
    ensures
        ({
            let n = page_size as int;
            let other = page_of(f, 2 - f[12], n);
            let refs = parse_section(f.take(n));
            let whole = |i: int|
                directory_is_whole(f, refs->0[i].page_a, page_size) || directory_is_whole(
                    f,
                    refs->0[i].page_b,
                    page_size,
                );
            match recover(f, page_size) {
                Err(e) => if !head_is_whole(f, page_size) {
                    e == MappedPageError::CorruptSuperblock
                } else if pow2(u32_at(f, 8) as nat) != page_size {
                    e == MappedPageError::InvalidPageSize
                } else if !named_metadata_is_whole(f, page_size) && MetaView::parse(other) is None {
                    e == MappedPageError::CorruptMetadata
                } else if refs is None {
                    e == MappedPageError::CorruptDirectoryIndex
                } else {
                    &&& e == MappedPageError::CorruptProtectedDirectory
                    &&& exists|i: int| 0 <= i < refs->0.len() && !#[trigger] whole(i)
                },
                Ok(s) => {
                    &&& head_is_whole(f, page_size)
                    &&& pow2(u32_at(f, 8) as nat) == page_size
                    &&& named_metadata_is_whole(f, page_size) ==> {
                        &&& s.active.to_byte() == f[12]
                        &&& Some(s.meta) == MetaView::parse(page_of(f, f[12] + 1, n))
                    }
                    &&& !named_metadata_is_whole(f, page_size) ==> {
                        &&& s.active.to_byte() == 1 - f[12]
                        &&& Some(s.meta) == MetaView::parse(other)
                    }
                    &&& refs is Some
                    &&& s.blocks.len() == refs->0.len()
                    &&& s.dirs.len() == refs->0.len()
                    &&& forall|i: int|
                        0 <= i < s.blocks.len() ==> {
                            let (listed, block) = (refs->0[i], #[trigger] s.blocks[i]);
                            let (now, was) = (
                                block.copy(block.active),
                                listed.copy(listed.active),
                            );
                            &&& block.page_a == listed.page_a
                            &&& block.page_b == listed.page_b
                            &&& block.active == listed.active <==> directory_is_whole(
                                f,
                                was,
                                page_size,
                            )
                            &&& directory_is_whole(f, now, page_size)
                            &&& Some(s.dirs[i]) == DirView::parse(page_of(f, now as int, n))
                        }
                },
            }
        }),
{
    reveal(recover);
    let n = page_size as int;
    if f.len() >= 20 {
        let head = f.subrange(0, 20);
        law_superblock_is_read(head);
        assert(head[12] == f[12]);
        assert(head.take(6) =~= f.take(6));
        assert(head.subrange(8, 12) =~= f.subrange(8, 12));
        assert(head.subrange(16, 20) =~= f.subrange(16, 20));
    }
    if let Ok(sb) = load_superblock(f, page_size) {
        assert(sb.active_meta.page_id() == f[12] + 1);
        assert(sb.active_meta.other().page_id() == 2 - f[12]);
        if let Some(refs) = parse_section(f.take(n)) {
            assert forall|i: int| 0 <= i < refs.len() implies {
                let r = refs[i];
                let (was, spare) = (r.copy(r.active), r.copy(r.active.other()));
                match #[trigger] load_block(f, refs[i], page_size) {
                    None => !directory_is_whole(f, was, page_size) && !directory_is_whole(
                        f,
                        spare,
                        page_size,
                    ),
                    Some((b, d)) => if directory_is_whole(f, was, page_size) {
                        b == r && Some(d) == DirView::parse(page_of(f, was as int, n))
                    } else {
                        &&& b == r.flipped()
                        &&& directory_is_whole(f, spare, page_size)
                        &&& Some(d) == DirView::parse(page_of(f, spare as int, n))
                    },
                }
            } by {
                let r = refs[i];
                law_page_past_end(r.page_a, page_size, f.len() as int);
                law_page_past_end(r.page_b, page_size, f.len() as int);
            }
            let whole = |i: int|
                directory_is_whole(f, refs[i].page_a, page_size) || directory_is_whole(
                    f,
                    refs[i].page_b,
                    page_size,
                );
            if load_dirs(f, refs, page_size) is None {
                let i = choose|i: int|
                    0 <= i < refs.len() && !(#[trigger] load_block(f, refs[i], page_size) is Some);
                assert(!whole(i));
            } else {
                assert forall|i: int| 0 <= i < refs.len() implies #[trigger] load_block(
                    f,
                    refs[i],
                    page_size,
                ) is Some by {}
            }
        }
    }
}

// ── Commits ───────────────────────────────────────────────────────────────────

/// A metadata commit writes the metadata to page 1 or 2, whichever is not active, and
/// flushes it, and only then writes page 0, which names that page and records its checksum,
/// and flushes that.
pub proof fn law_metadata_commit_steps(s: StateView, page_size: usize)
    ensures
        ({
            let plan = s.commit_plan(page_size);
            let n = page_size as int;
            let page = s.meta.encode(n);
            let (sel, at) = if s.active is A {
                (MetaSelector::B, 2 * n)
            } else {
                (MetaSelector::A, n)
            };
            &&& plan.len() == 4
            &&& plan[0] == StepView::Store { offset: at, data: page }
            &&& plan[1] == StepView::Flush { offset: at, len: n }
            &&& plan[2] == StepView::Store {
                offset: 0,
                data: page0_of(page_size, sel, crc32_of(page), s.blocks),
            }
            &&& plan[3] == StepView::Flush { offset: 0, len: n }
        }),
{
    let n = page_size as int;
    assert(1 * n == n);
}

/// A directory commit writes the directory page to the copy of its block that is not active,
/// and flushes it, and only then writes page 0, in which that copy is the active one, and
/// flushes that.  Page 0 records the checksum of the active metadata page.
pub proof fn law_directory_commit_steps(s: StateView, idx: int, f: Seq<u8>, page_size: usize)
    requires
        0 <= idx < s.blocks.len(),
        s.blocks[idx].page_a > 2,
        s.blocks[idx].page_b > 2,
    ensures
        ({
            let plan = s.dir_plan(idx, f, page_size);
            let n = page_size as int;
            let r = s.blocks[idx];
            let page = s.dirs[idx].encode(n);
            let (phys, sel) = if r.active is A {
                (r.page_b, MetaSelector::B)
            } else {
                (r.page_a, MetaSelector::A)
            };
            let meta = page_of(f, s.active.page_id() as int, n);
            let blocks = s.blocks.update(
                idx,
                DirBlockRef { page_a: r.page_a, page_b: r.page_b, active: sel },
            );
            &&& plan.len() == 4
            &&& plan[0] == StepView::Store { offset: phys * n, data: page }
            &&& plan[1] == StepView::Flush { offset: phys * n, len: n }
            &&& plan[2] == StepView::Store {
                offset: 0,
                data: page0_of(page_size, s.active, crc32_of(meta), blocks),
            }
            &&& plan[3] == StepView::Flush { offset: 0, len: n }
        }),
{
}

/// What a written copy needs before its entry is committed is a flush of its own bytes.
pub proof fn law_written_copy_is_flushed(phys: u64, page_size: usize)
    ensures
        flush_request(phys, page_size) matches RequestView::Apply(steps) && steps.len() == 1
            && steps[0] == (StepView::Flush { offset: phys * page_size, len: page_size as int }),
{
}

} // verus!
