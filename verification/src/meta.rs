//! The superblock at the head of page 0, and the A/B metadata pages.
//!
//! Superblock layout (the first 20 bytes of page 0):
//! ```text
//! [0..4]   "MPPG" tag
//! [4]      version major (compatibility check)
//! [5]      version minor (compatibility check)
//! [6]      version patch (informational; not checked on open)
//! [7]      version build (informational; not checked on open)
//! [8..12]  page_size_log2:  u32
//! [12]     active_meta:     u8   (0 = A = page 1, 1 = B = page 2)
//! [13..16] padding
//! [16..20] meta_checksum:   u32  (CRC32 of the full active metadata page)
//! ```
//!
//! A file is compatible if its tag is `"MPPG"` and major and minor match; patch
//! and build may differ.
//!
//! Metadata page layout (fills one page):
//! ```text
//! [0..8]            total_pages:  u64
//! [8..16]           generation:   u64
//! [16..24]          free_count:   u64
//! [24..page_size-4] bitmap:       one bit per page; a clear bit means free
//! [page_size-4..]   checksum:     u32  (CRC32 of bytes [0..page_size-4])
//! ```

use vstd::prelude::*;
use vstd::slice::{slice_subrange, slice_to_vec};

use crate::bitmap::{
    bitmap_len, count_clear, first_clear, lemma_count_bounds, lemma_count_clear_run,
    lemma_count_one_more_set, lemma_count_same, lemma_first_clear, lemma_first_clear_is,
    lemma_first_clear_none, lemma_mask_test, lemma_with_clear, lemma_with_set, lemma_zero_byte,
    page_is_set, resized, with_clear, with_set,
};
use crate::bytes::{
    copy_into, fill_zero, le32, le64, put_u32, put_u64, read_u32, read_u64, splice, u32_at, u64_at,
    zeros,
};
use crate::checksum::{check_seal, crc32, crc32_of, is_sealed, lemma_sealed, seal, sealed};

verus! {

pub const VERSION_MAJOR: u8 = 0;

pub const VERSION_MINOR: u8 = 1;

/// The eight bytes `"MPPG"`, major 0, minor 1, patch 0, build 0, little-endian.
pub const MAGIC: u64 = 0x0000_0100_4750_504D;

/// First page that may be handed out; pages 0 to 2 are reserved.
pub const FIRST_DATA_PAGE: u64 = 3;

/// Bytes of the superblock.
pub const SUPERBLOCK_SIZE: usize = 20;

// ── MetaSelector ──────────────────────────────────────────────────────────────

/// Names one of the two copies of something that is kept twice.
#[derive(Clone, Copy, Debug, PartialEq, Eq, Structural)]
pub enum MetaSelector {
    A,
    B,
}

impl MetaSelector {
    /// The metadata page that the selector stands for.
    pub open spec fn spec_page_id(self) -> u64 {
        match self {
            MetaSelector::A => 1,
            MetaSelector::B => 2,
        }
    }

    #[verifier::when_used_as_spec(spec_page_id)]
    pub fn page_id(self) -> (r: u64)
        ensures
            r == self.spec_page_id(),
    {
        match self {
            MetaSelector::A => 1,
            MetaSelector::B => 2,
        }
    }

    /// The copy that the selector does not name.
    pub open spec fn spec_other(self) -> Self {
        match self {
            MetaSelector::A => MetaSelector::B,
            MetaSelector::B => MetaSelector::A,
        }
    }

    #[verifier::when_used_as_spec(spec_other)]
    pub fn other(self) -> (r: Self)
        ensures
            r == self.spec_other(),
    {
        match self {
            MetaSelector::A => MetaSelector::B,
            MetaSelector::B => MetaSelector::A,
        }
    }

    /// The selector that a byte stands for: 0 is `A`, 1 is `B`.
    pub open spec fn spec_from_byte(b: u8) -> Option<Self> {
        if b == 0 {
            Some(MetaSelector::A)
        } else if b == 1 {
            Some(MetaSelector::B)
        } else {
            None
        }
    }

    pub fn from_byte(b: u8) -> (r: Option<Self>)
        ensures
            r == Self::spec_from_byte(b),
    {
        if b == 0 {
            Some(MetaSelector::A)
        } else if b == 1 {
            Some(MetaSelector::B)
        } else {
            None
        }
    }

    pub open spec fn spec_to_byte(self) -> u8 {
        match self {
            MetaSelector::A => 0,
            MetaSelector::B => 1,
        }
    }

    #[verifier::when_used_as_spec(spec_to_byte)]
    pub fn to_byte(self) -> (r: u8)
        ensures
            r == self.spec_to_byte(),
    {
        match self {
            MetaSelector::A => 0,
            MetaSelector::B => 1,
        }
    }
}

// ── Superblock ────────────────────────────────────────────────────────────────

/// Parsed view of the head of page 0.
pub struct Superblock {
    /// `"MPPG"` tag, then major, minor, patch and build.
    pub magic: u64,
    pub page_size_log2: u32,
    pub active_meta: MetaSelector,
    /// CRC32 of the full active metadata page.
    pub meta_checksum: u32,
}

impl Superblock {
    /// The bytes of the superblock on disk.
    pub open spec fn encode(self) -> Seq<u8> {
        le64(self.magic) + le32(self.page_size_log2) + seq![
            self.active_meta.to_byte(),
            0u8,
            0u8,
            0u8,
        ] + le32(self.meta_checksum)
    }

    /// The superblock that `data` starts with, if it is long enough and names
    /// an active metadata page.
    pub open spec fn parse(data: Seq<u8>) -> Option<Superblock> {
        if data.len() < SUPERBLOCK_SIZE {
            None
        } else {
            match MetaSelector::spec_from_byte(data[12]) {
                Some(active_meta) => Some(
                    Superblock {
                        magic: u64_at(data, 0),
                        page_size_log2: u32_at(data, 8),
                        active_meta,
                        meta_checksum: u32_at(data, 16),
                    },
                ),
                None => None,
            }
        }
    }

    /// The tag is `"MPPG"`, and the major and minor version are this build's.
    pub open spec fn compatible(self) -> bool {
        let b = le64(self.magic);
        &&& b[0] == 0x4D
        &&& b[1] == 0x50
        &&& b[2] == 0x50
        &&& b[3] == 0x47
        &&& b[4] == VERSION_MAJOR
        &&& b[5] == VERSION_MINOR
    }

    pub fn from_bytes(data: &[u8]) -> (r: Option<Self>)
        ensures
            r == Self::parse(data@),
    {
        if data.len() < SUPERBLOCK_SIZE {
            return None;
        }
        let magic = read_u64(data, 0);
        let page_size_log2 = read_u32(data, 8);
        let meta_checksum = read_u32(data, 16);
        match MetaSelector::from_byte(data[12]) {
            Some(active_meta) => Some(
                Superblock { magic, page_size_log2, active_meta, meta_checksum },
            ),
            None => None,
        }
    }

    pub fn write_to(&self, buf: &mut [u8])
        requires
            SUPERBLOCK_SIZE <= old(buf).len(),
        ensures
            final(buf)@ == splice(old(buf)@, 0, self.encode()),
    {
        broadcast use crate::bytes::lemma_le32;
        broadcast use crate::bytes::lemma_le64;

        put_u64(buf, 0, self.magic);
        put_u32(buf, 8, self.page_size_log2);
        buf[12] = self.active_meta.to_byte();
        fill_zero(buf, 13, 16);
        put_u32(buf, 16, self.meta_checksum);
        assert(buf@ =~= splice(old(buf)@, 0, self.encode()));
    }

    /// Whether the file was written by a compatible version.
    pub fn is_valid(&self) -> (r: bool)
        ensures
            r == self.compatible(),
    {
        let b = vstd::bytes::u64_to_le_bytes(self.magic);
        b[0] == 0x4D && b[1] == 0x50 && b[2] == 0x50 && b[3] == 0x47 && b[4] == VERSION_MAJOR
            && b[5] == VERSION_MINOR
    }
}

/// A superblock reads back as it was written, whatever follows it.
pub proof fn law_superblock_round_trip(sb: Superblock, rest: Seq<u8>)
    ensures
        Superblock::parse(sb.encode() + rest) == Some(sb),
        sb.encode().len() == SUPERBLOCK_SIZE,
{
    broadcast use crate::bytes::lemma_le32;
    broadcast use crate::bytes::lemma_le64;

    let s = sb.encode() + rest;
    assert(s.subrange(0, 8) =~= le64(sb.magic));
    assert(s.subrange(8, 12) =~= le32(sb.page_size_log2));
    assert(s.subrange(16, 20) =~= le32(sb.meta_checksum));
}

/// The magic number that is written makes a compatible superblock, and patch
/// and build do not matter: only the first six bytes decide.
pub proof fn law_magic_is_compatible(sb: Superblock, other: Superblock)
    ensures
        sb.magic == MAGIC ==> sb.compatible(),
        le64(sb.magic).take(6) == le64(other.magic).take(6) ==> sb.compatible()
            == other.compatible(),
{
    vstd::bytes::spec_u64_to_le_bytes_to_open(MAGIC);
    let m: u64 = MAGIC;
    assert(m == 0x0000_0100_4750_504Du64 ==> (m & 0xff) as u8 == 0x4D && ((m >> 8) & 0xff) as u8
        == 0x50 && ((m >> 16) & 0xff) as u8 == 0x50 && ((m >> 24) & 0xff) as u8 == 0x47 && ((m
        >> 32) & 0xff) as u8 == 0 && ((m >> 40) & 0xff) as u8 == 1) by (bit_vector);
    broadcast use crate::bytes::lemma_le64;

    let a = le64(sb.magic);
    let b = le64(other.magic);
    if a.take(6) == b.take(6) {
        assert forall|i: int| 0 <= i < 6 implies a[i] == b[i] by {
            assert(a.take(6)[i] == b.take(6)[i]);
        }
    }
}

// ── MetaPage ──────────────────────────────────────────────────────────────────

/// In-memory representation of an A or B metadata page.
pub struct MetaPage {
    pub total_pages: u64,
    pub generation: u64,
    pub free_count: u64,
    /// One bit per page: 0 = free, 1 = allocated.
    pub bitmap: Vec<u8>,
}

/// What a metadata page holds.
#[verifier::ext_equal]
pub struct MetaView {
    pub total_pages: u64,
    pub generation: u64,
    pub free_count: u64,
    pub bitmap: Seq<u8>,
}

impl View for MetaPage {
    type V = MetaView;

    open spec fn view(&self) -> MetaView {
        MetaView {
            total_pages: self.total_pages,
            generation: self.generation,
            free_count: self.free_count,
            bitmap: self.bitmap@,
        }
    }
}

/// `x - y`, or 0 where that is negative.
pub open spec fn less(x: u64, y: u64) -> u64 {
    if x < y {
        0
    } else {
        (x - y) as u64
    }
}

impl MetaView {
    /// The pages that have a bit in the bitmap: all below this number.
    pub open spec fn limit(self) -> int {
        if self.total_pages <= 8 * self.bitmap.len() {
            self.total_pages as int
        } else {
            8 * self.bitmap.len() as int
        }
    }

    /// The bitmap has exactly the bytes that the pages need.
    pub open spec fn well_sized(self) -> bool {
        self.bitmap.len() == bitmap_len(self.total_pages as int)
    }

    /// The metadata fits into one page of `page_size` bytes.
    pub open spec fn fits(self, page_size: int) -> bool {
        self.well_sized() && 24 + self.bitmap.len() + 4 <= page_size
    }

    /// Page `id` exists and is marked allocated.
    pub open spec fn allocated(self, id: int) -> bool {
        0 <= id < self.limit() && page_is_set(self.bitmap, id)
    }

    /// The lowest page that exists and is free.
    pub open spec fn lowest_free(self) -> Option<u64> {
        match first_clear(self.bitmap, 0, self.limit()) {
            Some(id) => Some(id as u64),
            None => None,
        }
    }

    /// Page `id` marked allocated.
    pub open spec fn mark(self, id: u64) -> MetaView {
        MetaView {
            free_count: less(self.free_count, 1),
            bitmap: with_set(self.bitmap, id as int),
            ..self
        }
    }

    /// Page `id` marked free.
    pub open spec fn release(self, id: u64) -> MetaView {
        MetaView {
            free_count: (self.free_count + 1) as u64,
            bitmap: with_clear(self.bitmap, id as int),
            ..self
        }
    }

    /// The metadata of a file of `new_total` pages; pages that are new are free.
    pub open spec fn grown(self, new_total: u64) -> MetaView {
        MetaView {
            total_pages: new_total,
            free_count: (self.free_count + less(new_total, self.total_pages)) as u64,
            bitmap: resized(self.bitmap, bitmap_len(new_total as int)),
            ..self
        }
    }

    /// The next generation.
    pub open spec fn bumped(self) -> MetaView {
        MetaView { generation: (self.generation + 1) as u64, ..self }
    }

    /// The metadata of a fresh file of `total` pages: pages 0 to 2 are
    /// allocated, as far as they exist, and all others are free.
    pub open spec fn fresh(total: u64) -> MetaView {
        MetaView {
            total_pages: total,
            generation: 0,
            free_count: less(total, FIRST_DATA_PAGE),
            bitmap: Seq::new(
                bitmap_len(total as int) as nat,
                |i: int|
                    if i > 0 {
                        0u8
                    } else {
                        reserved_bits(total)
                    },
            ),
        }
    }

    /// The count of free pages is right, pages 0 to 2 are allocated, and no bit
    /// is set for a page that does not exist.
    pub open spec fn accurate(self) -> bool {
        &&& self.well_sized()
        &&& FIRST_DATA_PAGE < self.total_pages
        &&& self.free_count == count_clear(self.bitmap, self.total_pages as int)
        &&& forall|id: int| 0 <= id < FIRST_DATA_PAGE ==> #[trigger] page_is_set(self.bitmap, id)
        &&& forall|id: int|
            self.total_pages <= id < 8 * self.bitmap.len() ==> !#[trigger] page_is_set(
                self.bitmap,
                id,
            )
    }

    /// The bytes before the checksum of the metadata page.
    pub open spec fn body(self, page_size: int) -> Seq<u8> {
        le64(self.total_pages) + le64(self.generation) + le64(self.free_count) + self.bitmap
            + zeros(page_size - 28 - self.bitmap.len())
    }

    /// The metadata page on disk.
    pub open spec fn encode(self, page_size: int) -> Seq<u8> {
        sealed(self.body(page_size))
    }

    /// What the fields of a metadata page on disk say, if its bitmap lies inside
    /// the page.
    pub open spec fn fields(data: Seq<u8>) -> Option<MetaView> {
        let total_pages = u64_at(data, 0);
        let end = 24 + bitmap_len(total_pages as int);
        if end > data.len() - 4 {
            None
        } else {
            Some(
                MetaView {
                    total_pages,
                    generation: u64_at(data, 8),
                    free_count: u64_at(data, 16),
                    bitmap: data.subrange(24, end),
                },
            )
        }
    }

    /// What a metadata page on disk holds, if its checksum is right and its
    /// bitmap lies inside the page.
    pub open spec fn parse(data: Seq<u8>) -> Option<MetaView> {
        if data.len() < 28 || !is_sealed(data) {
            None
        } else {
            Self::fields(data)
        }
    }
}

/// The first bitmap byte of a fresh file: the bits of pages 0 to 2, as far as
/// they exist.
pub open spec fn reserved_bits(total: u64) -> u8 {
    if total >= 3 {
        7
    } else if total == 2 {
        3
    } else if total == 1 {
        1
    } else {
        0
    }
}

/// The number of bitmap bytes for `pages` pages.
pub fn bitmap_bytes(pages: u64) -> (r: u64)
    ensures
        r == bitmap_len(pages as int),
{
    if pages % 8 == 0 {
        pages / 8
    } else {
        pages / 8 + 1
    }
}

impl MetaPage {
    /// Deserialize from a raw page.  `None` if the checksum fails or the bitmap
    /// would not fit.
    pub fn from_bytes(data: &[u8]) -> (r: Option<Self>)
        ensures
            match r {
                Some(m) => MetaView::parse(data@) == Some(m@),
                None => MetaView::parse(data@) is None,
            },
    {
        let page_size: usize = data.len();
        if page_size < 28 {
            return None;
        }
        if !check_seal(data) {
            return None;
        }
        Self::from_fields(data)
    }

    /// Read the fields of a raw page, whatever its checksum.  `None` if the bitmap
    /// would not fit.
    pub fn from_fields(data: &[u8]) -> (r: Option<Self>)
        requires
            28 <= data.len(),
        ensures
            match r {
                Some(m) => MetaView::fields(data@) == Some(m@),
                None => MetaView::fields(data@) is None,
            },
    {
        let page_size: usize = data.len();
        let total_pages = read_u64(data, 0);
        let generation = read_u64(data, 8);
        let free_count = read_u64(data, 16);
        let bitmap_size = bitmap_bytes(total_pages);
        if bitmap_size > (page_size - 28) as u64 {
            return None;
        }
        let bitmap = slice_to_vec(slice_subrange(data, 24, 24 + bitmap_size as usize));
        Some(MetaPage { total_pages, generation, free_count, bitmap })
    }

    /// Serialize into a raw page.
    pub fn write_to(&self, buf: &mut [u8])
        requires
            24 + self.bitmap.len() + 4 <= old(buf).len(),
        ensures
            final(buf)@ == self@.encode(old(buf).len() as int),
    {
        broadcast use crate::bytes::lemma_le64;

        self.write_fields(buf);
        assert(buf@.take(buf@.len() - 4) =~= self@.body(old(buf).len() as int));
        seal(buf);
    }

    /// Write the fields into a raw page, all but the checksum.
    pub fn write_fields(&self, buf: &mut [u8])
        requires
            24 + self.bitmap.len() + 4 <= old(buf).len(),
        ensures
            final(buf)@ == self@.body(old(buf).len() as int) + old(buf)@.skip(
                old(buf).len() - 4,
            ),
    {
        broadcast use crate::bytes::lemma_le64;

        let page_size: usize = buf.len();
        let used: usize = self.bitmap.len();
        put_u64(buf, 0, self.total_pages);
        put_u64(buf, 8, self.generation);
        put_u64(buf, 16, self.free_count);
        copy_into(buf, 24, self.bitmap.as_slice());
        fill_zero(buf, 24 + used, page_size - 4);
        assert(buf@ =~= self@.body(page_size as int) + old(buf)@.skip(page_size - 4));
    }

    /// The checksum of a raw metadata page, as the superblock records it.
    pub fn page_checksum(data: &[u8]) -> (r: u32)
        ensures
            r == crc32_of(data@),
    {
        crc32(data)
    }

    /// Find the lowest free page, mark it allocated, and return it.
    pub fn alloc_page(&mut self) -> (r: Option<u64>)
        ensures
            r == old(self)@.lowest_free(),
            match r {
                Some(id) => final(self)@ == old(self)@.mark(id),
                None => final(self)@ == old(self)@,
            },
    {
        let n: usize = self.bitmap.len();
        let mut byte_idx: usize = 0;
        while byte_idx < n
            invariant
                *self == *old(self),
                n == self.bitmap.len(),
                byte_idx <= n,
                forall|j: int| 0 <= j < 8 * byte_idx ==> #[trigger] page_is_set(self.bitmap@, j),
            decreases n - byte_idx,
        {
            if byte_idx as u64 > self.total_pages / 8 {
                proof {
                    lemma_first_clear_none(self.bitmap@, 0, self@.limit());
                }
                return None;
            }
            let byte = self.bitmap[byte_idx];
            proof {
                vstd::std_specs::bits::axiom_u8_trailing_ones(byte);
            }
            let bit: u32 = byte.trailing_ones();
            proof {
                assert forall|j: int| 8 * byte_idx <= j < 8 * byte_idx + bit implies #[trigger]
                    page_is_set(self.bitmap@, j) by {
                    let k = (j - 8 * byte_idx) as u8;
                    assert((byte >> k) & 1u8 == 1u8);
                }
            }
            if byte != 0xff {
                let page_id: u64 = byte_idx as u64 * 8 + bit as u64;
                if page_id >= self.total_pages {
                    proof {
                        lemma_first_clear_none(self.bitmap@, 0, self@.limit());
                    }
                    return None;
                }
                proof {
                    assert(!page_is_set(self.bitmap@, page_id as int));
                    lemma_first_clear_is(self.bitmap@, 0, self@.limit(), page_id as int);
                }
                self.bitmap[byte_idx] = byte | (1u8 << (bit as u8));
                self.free_count = self.free_count.saturating_sub(1);
                assert(self@ =~= old(self)@.mark(page_id));
                return Some(page_id);
            }
            byte_idx += 1;
        }
        proof {
            lemma_first_clear_none(self.bitmap@, 0, self@.limit());
        }
        None
    }

    /// Test whether page `id` exists and is allocated.
    pub fn is_allocated(&self, id: u64) -> (r: bool)
        requires
            self@.well_sized(),
        ensures
            r == self@.allocated(id as int),
    {
        if id >= self.total_pages {
            return false;
        }
        assert(id / 8 < self.bitmap.len());
        let byte = self.bitmap[(id / 8) as usize];
        let bit: u8 = (id % 8) as u8;
        proof {
            lemma_mask_test(byte, bit);
        }
        byte & (1u8 << bit) != 0
    }

    /// Mark page `id` as free.  `false` if it is already free or does not exist.
    pub fn free_page(&mut self, id: u64) -> (r: bool)
        requires
            old(self)@.well_sized(),
            old(self)@.allocated(id as int) ==> old(self).free_count < u64::MAX,
        ensures
            r == old(self)@.allocated(id as int),
            final(self)@ == if r {
                old(self)@.release(id)
            } else {
                old(self)@
            },
    {
        if id >= self.total_pages {
            return false;
        }
        assert(id / 8 < self.bitmap.len());
        let byte_idx = (id / 8) as usize;
        let bit: u8 = (id % 8) as u8;
        let byte = self.bitmap[byte_idx];
        proof {
            lemma_mask_test(byte, bit);
        }
        if byte & (1u8 << bit) == 0 {
            return false;
        }
        self.bitmap[byte_idx] = byte & !(1u8 << bit);
        self.free_count = self.free_count + 1;
        assert(self@ =~= old(self)@.release(id));
        true
    }

    /// The metadata of a newly created file.
    pub fn new_for_capacity(total_pages: u64) -> (r: Self)
        requires
            bitmap_len(total_pages as int) <= usize::MAX,
        ensures
            r@ == MetaView::fresh(total_pages),
    {
        let mut bitmap = crate::bytes::zeroed(bitmap_bytes(total_pages) as usize);
        let reserved: u64 = if total_pages < FIRST_DATA_PAGE {
            total_pages
        } else {
            FIRST_DATA_PAGE
        };
        let mut next: u64 = 0;
        while next < reserved
            invariant
                reserved <= total_pages,
                next <= reserved <= 3,
                bitmap@.len() == bitmap_len(total_pages as int),
                0 < bitmap@.len() ==> bitmap@[0] == reserved_bits(next),
                forall|i: int| 0 < i < bitmap@.len() ==> bitmap@[i] == 0,
            decreases reserved - next,
        {
            let byte = bitmap[0];
            bitmap[0] = byte | (1u8 << (next as u8));
            proof {
                assert(0u8 | (1u8 << 0u8) == 1u8) by (bit_vector);
                assert(1u8 | (1u8 << 1u8) == 3u8) by (bit_vector);
                assert(3u8 | (1u8 << 2u8) == 7u8) by (bit_vector);
            }
            next += 1;
        }
        let r = MetaPage {
            total_pages,
            generation: 0,
            free_count: total_pages.saturating_sub(FIRST_DATA_PAGE),
            bitmap,
        };
        assert(r@ =~= MetaView::fresh(total_pages));
        r
    }

    /// Grow this metadata to cover `new_total_pages`.
    pub fn grow_to(&mut self, new_total_pages: u64)
        requires
            bitmap_len(new_total_pages as int) <= usize::MAX,
            old(self).free_count + less(new_total_pages, old(self).total_pages) <= u64::MAX,
        ensures
            final(self)@ == old(self)@.grown(new_total_pages),
    {
        let new_len = bitmap_bytes(new_total_pages) as usize;
        self.bitmap.resize(new_len, 0);
        let added: u64 = new_total_pages.saturating_sub(self.total_pages);
        self.free_count = self.free_count + added;
        self.total_pages = new_total_pages;
        proof {
            let o = old(self)@.bitmap;
            assert forall|i: int| 0 <= i < self.bitmap@.len() implies self.bitmap@[i] == resized(
                o,
                new_len as int,
            )[i] by {
                if i < o.len() && new_len > o.len() {
                    assert(self.bitmap@.subrange(0, o.len() as int)[i] == o[i]);
                }
            }
            assert(self.bitmap@ =~= resized(o, new_len as int));
        }
        assert(self@ =~= old(self)@.grown(new_total_pages));
    }
}

// ── Laws ──────────────────────────────────────────────────────────────────────

/// A metadata page reads back as it was written.
pub proof fn law_meta_round_trip(m: MetaView, page_size: int)
    requires
        m.fits(page_size),
    ensures
        MetaView::parse(m.encode(page_size)) == Some(m),
        m.encode(page_size).len() == page_size,
{
    broadcast use crate::bytes::lemma_le64;

    let body = m.body(page_size);
    let s = m.encode(page_size);
    lemma_sealed(body);
    assert(s.subrange(0, 8) =~= le64(m.total_pages));
    assert(s.subrange(8, 16) =~= le64(m.generation));
    assert(s.subrange(16, 24) =~= le64(m.free_count));
    assert(s.subrange(24, 24 + m.bitmap.len() as int) =~= m.bitmap);
}

/// A fresh file's metadata is accurate, and page 3 is the first to be handed
/// out.
pub proof fn law_fresh_is_accurate(total: u64)
    requires
        FIRST_DATA_PAGE < total,
    ensures
        MetaView::fresh(total).accurate(),
        MetaView::fresh(total).lowest_free() == Some(FIRST_DATA_PAGE),
{
    let m = MetaView::fresh(total);
    let b = m.bitmap;
    assert((7u8 >> 0u8) & 1u8 == 1u8 && (7u8 >> 1u8) & 1u8 == 1u8 && (7u8 >> 2u8) & 1u8 == 1u8)
        by (bit_vector);
    assert forall|id: int| 0 <= id < 3 implies #[trigger] page_is_set(b, id) by {
        assert(id / 8 == 0 && id % 8 == id);
    }
    assert forall|id: int| 3 <= id < 8 * b.len() implies !#[trigger] page_is_set(b, id) by {
        if id < 8 {
            let k = id as u8;
            assert(3 <= k < 8 ==> (7u8 >> k) & 1u8 == 0u8) by (bit_vector);
            assert(id / 8 == 0 && id % 8 == id);
        } else {
            lemma_zero_byte(b, id);
        }
    }
    lemma_count_clear_run(b, 3, total as int);
    assert(count_clear(b, 3) == 0) by {
        reveal_with_fuel(count_clear, 4);
        assert(page_is_set(b, 0) && page_is_set(b, 1) && page_is_set(b, 2));
    }
    lemma_first_clear_is(b, 0, m.limit(), 3);
}

/// Handing out the lowest free page keeps the metadata accurate, takes a page
/// that is not reserved and was free, and touches no other page.
pub proof fn law_mark_is_accurate(m: MetaView, id: u64)
    requires
        m.accurate(),
        m.lowest_free() == Some(id),
    ensures
        m.mark(id).accurate(),
        FIRST_DATA_PAGE <= id < m.total_pages,
        !m.allocated(id as int),
        forall|other: int|
            #[trigger] m.mark(id).allocated(other) <==> other == id || m.allocated(other),
        m.mark(id).free_count == m.free_count - 1,
{
    let b = m.bitmap;
    let c = m.mark(id).bitmap;
    lemma_first_clear(b, 0, m.limit());
    assert(!page_is_set(b, id as int));
    assert forall|j: int| 0 <= j < 8 * b.len() implies (#[trigger] page_is_set(c, j) <==> j == id
        || page_is_set(b, j)) by {
        lemma_with_set(b, id as int, j);
    }
    lemma_count_one_more_set(b, c, id as int, m.total_pages as int);
    crate::bitmap::lemma_count_positive(b, id as int, m.total_pages as int);
}

/// Freeing an allocated page that is not reserved keeps the metadata accurate
/// and touches no other page.
pub proof fn law_release_is_accurate(m: MetaView, id: u64)
    requires
        m.accurate(),
        FIRST_DATA_PAGE <= id,
        m.allocated(id as int),
    ensures
        m.release(id).accurate(),
        forall|other: int|
            #[trigger] m.release(id).allocated(other) <==> other != id && m.allocated(other),
        m.release(id).free_count == m.free_count + 1,
{
    let b = m.bitmap;
    let c = m.release(id).bitmap;
    assert forall|j: int| 0 <= j < 8 * b.len() implies (#[trigger] page_is_set(c, j) <==> j != id
        && page_is_set(b, j)) by {
        lemma_with_clear(b, id as int, j);
    }
    lemma_count_one_more_set(c, b, id as int, m.total_pages as int);
    lemma_count_bounds(c, m.total_pages as int);
}

/// Freeing the page that was just handed out restores the metadata.
pub proof fn law_release_undoes_mark(m: MetaView, id: u64)
    requires
        m.lowest_free() == Some(id),
        0 < m.free_count,
    ensures
        m.mark(id).release(id) == m,
{
    lemma_first_clear(m.bitmap, 0, m.limit());
    crate::bitmap::lemma_set_then_clear(m.bitmap, id as int);
    assert(m.mark(id).release(id) =~= m);
}

/// A freed page is handed out again before any higher one.
pub proof fn law_freed_page_is_reused(m: MetaView, id: u64)
    requires
        m.allocated(id as int),
    ensures
        m.release(id).lowest_free() == Some(
            match m.lowest_free() {
                Some(low) if low < id => low,
                _ => id,
            },
        ),
{
    let b = m.bitmap;
    let c = m.release(id).bitmap;
    let low: u64 = match m.lowest_free() {
        Some(low) if low < id => low,
        _ => id,
    };
    lemma_first_clear(b, 0, m.limit());
    assert forall|j: int| 0 <= j < m.limit() implies (#[trigger] page_is_set(c, j) <==> j != id
        && page_is_set(b, j)) by {
        lemma_with_clear(b, id as int, j);
    }
    lemma_first_clear_is(c, 0, m.limit(), low as int);
}

/// Growing keeps the metadata accurate and every allocation, and the pages that
/// are new are free.
pub proof fn law_grown_is_accurate(m: MetaView, new_total: u64)
    requires
        m.accurate(),
        m.total_pages <= new_total,
    ensures
        m.grown(new_total).accurate(),
        forall|id: int| #[trigger] m.grown(new_total).allocated(id) <==> m.allocated(id),
        m.grown(new_total).free_count == m.free_count + (new_total - m.total_pages),
        m.total_pages < new_total ==> m.grown(new_total).lowest_free() is Some,
{
    let b = m.bitmap;
    let g = m.grown(new_total);
    let c = g.bitmap;
    assert forall|j: int| 0 <= j < 8 * b.len() implies (#[trigger] page_is_set(c, j)
        <==> page_is_set(b, j)) by {
        assert(c[j / 8] == b[j / 8]);
    }
    assert forall|j: int| m.total_pages <= j < 8 * c.len() implies !#[trigger] page_is_set(
        c,
        j,
    ) by {
        if j < 8 * b.len() {
            assert(page_is_set(c, j) <==> page_is_set(b, j));
        } else {
            assert(c[j / 8] == 0);
            lemma_zero_byte(c, j);
        }
    }
    lemma_count_same(b, c, m.total_pages as int);
    lemma_count_clear_run(c, m.total_pages as int, new_total as int);
    lemma_count_bounds(b, m.total_pages as int);
    lemma_first_clear(c, 0, g.limit());
    if m.total_pages < new_total {
        assert(!page_is_set(c, m.total_pages as int));
    }
}

/// The count of free pages is zero exactly where no page can be handed out.
pub proof fn law_free_count_decides(m: MetaView)
    requires
        m.accurate(),
    ensures
        m.free_count == 0 <==> m.lowest_free() is None,
        m.free_count <= m.total_pages - FIRST_DATA_PAGE,
{
    let n = m.total_pages as int;
    lemma_first_clear(m.bitmap, 0, m.limit());
    if m.free_count > 0 {
        let id = crate::bitmap::lemma_count_witness(m.bitmap, n);
        assert(!page_is_set(m.bitmap, id));
    }
    match m.lowest_free() {
        Some(id) => {
            crate::bitmap::lemma_count_positive(m.bitmap, id as int, n);
        },
        None => {},
    }
    lemma_count_tail(m.bitmap, 3, n);
    assert(count_clear(m.bitmap, 3) == 0) by {
        reveal_with_fuel(count_clear, 4);
        assert(page_is_set(m.bitmap, 0) && page_is_set(m.bitmap, 1) && page_is_set(m.bitmap, 2));
    }
}

proof fn lemma_count_tail(bitmap: Seq<u8>, from: int, to: int)
    requires
        0 <= from <= to,
    ensures
        count_clear(bitmap, to) <= count_clear(bitmap, from) + (to - from),
    decreases to - from,
{
    if from < to {
        lemma_count_tail(bitmap, from, to - 1);
    }
}

} // verus!
