//! The protected-page directory: references to directory pages, kept in page 0
//! behind the superblock, and the directory pages themselves.
//!
//! Directory section of page 0:
//! ```text
//! [20..24]          count:     u32
//! [24..]            references, 17 bytes each: page_a u64, page_b u64, active u8
//! [page_size-4..]   checksum:  u32  (CRC32 of bytes [20..page_size-4])
//! ```
//!
//! Directory page:
//! ```text
//! [0..4]            capacity:  u32
//! [4..8]            padding
//! [8..]             entries, 30 bytes each
//! [page_size-4..]   checksum:  u32  (CRC32 of bytes [0..page_size-4])
//! ```

use vstd::prelude::*;
use vstd::slice::slice_subrange;

use crate::bytes::{
    fill_zero, le32, le64, put_u32, put_u64, read_u32, read_u64, splice, u32_at, u64_at, zeros,
};
use crate::checksum::{check_seal, is_sealed, lemma_sealed, seal, sealed};
use crate::meta::MetaSelector;

verus! {

/// Byte of page 0 at which the directory section begins.
pub const PAGE0_DIR_OFFSET: usize = 20;

/// Bytes of one directory block reference: page_a(8) + page_b(8) + active(1).
pub const DIR_BLOCK_REF_SIZE: usize = 17;

/// Bytes of one directory entry:
/// in_use(1) + page_a(8) + page_b(8) + slot(1) + generation(8) + checksum(4).
pub const DIR_ENTRY_SIZE: usize = 30;

/// How many references fit into page 0 beside count and checksum.
pub open spec fn spec_max_dir_blocks(page_size: usize) -> usize {
    if page_size < 28 {
        0
    } else {
        ((page_size - 28) / 17) as usize
    }
}

/// Maximum number of directory blocks whose references fit in page 0.
#[verifier::when_used_as_spec(spec_max_dir_blocks)]
pub fn max_dir_blocks(page_size: usize) -> (r: usize)
    ensures
        r == spec_max_dir_blocks(page_size),
{
    page_size.saturating_sub(PAGE0_DIR_OFFSET + 4 + 4) / DIR_BLOCK_REF_SIZE
}

/// How many entries fit into a directory page beside header and checksum.
pub open spec fn spec_dir_entries_per_page(page_size: usize) -> usize {
    if page_size < 12 {
        0
    } else {
        ((page_size - 12) / 30) as usize
    }
}

/// Maximum number of protected-page entries that fit in one directory page.
#[verifier::when_used_as_spec(spec_dir_entries_per_page)]
pub fn dir_entries_per_page(page_size: usize) -> (r: usize)
    ensures
        r == spec_dir_entries_per_page(page_size),
{
    page_size.saturating_sub(8 + 4) / DIR_ENTRY_SIZE
}

// ── Directory block references ────────────────────────────────────────────────

/// Reference to one A/B pair of directory pages.
#[derive(Clone, Copy, Debug)]
pub struct DirBlockRef {
    pub page_a: u64,
    pub page_b: u64,
    pub active: MetaSelector,
}

impl DirBlockRef {
    pub open spec fn encode(self) -> Seq<u8> {
        le64(self.page_a) + le64(self.page_b) + seq![self.active.to_byte()]
    }

    pub open spec fn parse(data: Seq<u8>) -> Option<DirBlockRef> {
        if data.len() < 17 {
            None
        } else {
            match MetaSelector::spec_from_byte(data[16]) {
                Some(active) => Some(
                    DirBlockRef { page_a: u64_at(data, 0), page_b: u64_at(data, 8), active },
                ),
                None => None,
            }
        }
    }

    /// The page that holds the copy named by `sel`.
    pub open spec fn spec_copy(self, sel: MetaSelector) -> u64 {
        match sel {
            MetaSelector::A => self.page_a,
            MetaSelector::B => self.page_b,
        }
    }

    #[verifier::when_used_as_spec(spec_copy)]
    pub fn copy(self, sel: MetaSelector) -> (r: u64)
        ensures
            r == self.spec_copy(sel),
    {
        match sel {
            MetaSelector::A => self.page_a,
            MetaSelector::B => self.page_b,
        }
    }

    /// The same pair with the other copy active.
    pub open spec fn spec_flipped(self) -> DirBlockRef {
        DirBlockRef { active: self.active.other(), ..self }
    }

    #[verifier::when_used_as_spec(spec_flipped)]
    pub fn flipped(self) -> (r: DirBlockRef)
        ensures
            r == self.spec_flipped(),
    {
        DirBlockRef { page_a: self.page_a, page_b: self.page_b, active: self.active.other() }
    }

    pub fn from_bytes(data: &[u8]) -> (r: Option<Self>)
        ensures
            r == Self::parse(data@),
    {
        if data.len() < DIR_BLOCK_REF_SIZE {
            return None;
        }
        let page_a = read_u64(data, 0);
        let page_b = read_u64(data, 8);
        match MetaSelector::from_byte(data[16]) {
            Some(active) => Some(DirBlockRef { page_a, page_b, active }),
            None => None,
        }
    }

    pub fn write_to(&self, buf: &mut [u8])
        requires
            DIR_BLOCK_REF_SIZE <= old(buf).len(),
        ensures
            final(buf)@ == splice(old(buf)@, 0, self.encode()),
    {
        broadcast use crate::bytes::lemma_le64;

        put_u64(buf, 0, self.page_a);
        put_u64(buf, 8, self.page_b);
        buf[16] = self.active.to_byte();
        assert(buf@ =~= splice(old(buf)@, 0, self.encode()));
    }
}

/// The references one behind the other.
pub open spec fn encode_refs(blocks: Seq<DirBlockRef>) -> Seq<u8>
    decreases blocks.len(),
{
    if blocks.len() == 0 {
        Seq::empty()
    } else {
        encode_refs(blocks.drop_last()) + blocks.last().encode()
    }
}

pub proof fn lemma_refs_len(blocks: Seq<DirBlockRef>)
    ensures
        encode_refs(blocks).len() == 17 * blocks.len(),
    decreases blocks.len(),
{
    broadcast use crate::bytes::lemma_le64;

    if blocks.len() > 0 {
        lemma_refs_len(blocks.drop_last());
    }
}

/// Reference `i` stands at byte `17 * i`.
pub proof fn lemma_refs_part(blocks: Seq<DirBlockRef>, i: int)
    requires
        0 <= i < blocks.len(),
    ensures
        encode_refs(blocks).subrange(17 * i, 17 * i + 17) == blocks[i].encode(),
    decreases blocks.len(),
{
    lemma_refs_len(blocks);
    lemma_refs_len(blocks.drop_last());
    if i == blocks.len() - 1 {
        assert(encode_refs(blocks).subrange(17 * i, 17 * i + 17) =~= blocks.last().encode());
    } else {
        lemma_refs_part(blocks.drop_last(), i);
        assert(encode_refs(blocks).subrange(17 * i, 17 * i + 17) =~= encode_refs(
            blocks.drop_last(),
        ).subrange(17 * i, 17 * i + 17));
    }
}

/// The directory section of page 0 without its checksum.
pub open spec fn section_body(blocks: Seq<DirBlockRef>, page_size: int) -> Seq<u8> {
    le32(blocks.len() as u32) + encode_refs(blocks) + zeros(page_size - 28 - 17 * blocks.len())
}

/// Page 0 from byte 20 on.
pub open spec fn encode_section(blocks: Seq<DirBlockRef>, page_size: int) -> Seq<u8> {
    sealed(section_body(blocks, page_size))
}

/// Reference number `i` of page 0.
pub open spec fn ref_at(page0: Seq<u8>, i: int) -> Option<DirBlockRef> {
    DirBlockRef::parse(page0.subrange(24 + 17 * i, 24 + 17 * i + 17))
}

/// The references that page 0 lists, if they fit and are well formed.
pub open spec fn refs_of(page0: Seq<u8>) -> Option<Seq<DirBlockRef>> {
    let count = u32_at(page0, 20);
    if count > spec_max_dir_blocks(page0.len() as usize) {
        None
    } else if forall|i: int| 0 <= i < count ==> #[trigger] ref_at(page0, i) is Some {
        Some(Seq::new(count as nat, |i: int| ref_at(page0, i)->0))
    } else {
        None
    }
}

/// The references that page 0 holds.  A count of zero needs no checksum: files
/// without a directory section have zeros there.
pub open spec fn parse_section(page0: Seq<u8>) -> Option<Seq<DirBlockRef>> {
    if page0.len() < 28 || u32_at(page0, 20) == 0 {
        Some(Seq::empty())
    } else if !is_sealed(page0.subrange(20, page0.len() as int)) {
        None
    } else {
        refs_of(page0)
    }
}

/// Parse the directory block references of page 0.
pub fn read_dir_blocks(page0: &[u8]) -> (r: Result<Vec<DirBlockRef>, ()>)
    ensures
        match r {
            Ok(blocks) => parse_section(page0@) == Some(blocks@),
            Err(_) => parse_section(page0@) is None,
        },
{
    let page_size: usize = page0.len();
    if page_size < PAGE0_DIR_OFFSET + 8 {
        let none: Vec<DirBlockRef> = Vec::new();
        assert(none@ =~= Seq::empty());
        return Ok(none);
    }
    let count: usize = read_u32(page0, PAGE0_DIR_OFFSET) as usize;
    if count == 0 {
        let none: Vec<DirBlockRef> = Vec::new();
        assert(none@ =~= Seq::empty());
        return Ok(none);
    }
    if !check_seal(slice_subrange(page0, PAGE0_DIR_OFFSET, page_size)) {
        return Err(());
    }
    read_refs(page0)
}

/// Read the references that page 0 lists, whatever its checksum.
pub fn read_refs(page0: &[u8]) -> (r: Result<Vec<DirBlockRef>, ()>)
    requires
        28 <= page0.len(),
    ensures
        match r {
            Ok(blocks) => refs_of(page0@) == Some(blocks@),
            Err(_) => refs_of(page0@) is None,
        },
{
    let page_size: usize = page0.len();
    let count: usize = read_u32(page0, PAGE0_DIR_OFFSET) as usize;
    if count > max_dir_blocks(page_size) {
        return Err(());
    }
    let mut blocks: Vec<DirBlockRef> = Vec::new();
    let mut i: usize = 0;
    while i < count
        invariant
            page_size == page0.len(),
            28 <= page_size,
            count == u32_at(page0@, 20),
            count <= spec_max_dir_blocks(page_size),
            i <= count,
            blocks@.len() == i,
            forall|j: int|
                0 <= j < i ==> #[trigger] ref_at(page0@, j) is Some && blocks@[j] == ref_at(
                    page0@,
                    j,
                )->0,
        decreases count - i,
    {
        let off: usize = PAGE0_DIR_OFFSET + 4 + i * DIR_BLOCK_REF_SIZE;
        match DirBlockRef::from_bytes(slice_subrange(page0, off, off + DIR_BLOCK_REF_SIZE)) {
            Some(block) => {
                blocks.push(block);
            },
            None => {
                assert(ref_at(page0@, i as int) is None);
                return Err(());
            },
        }
        i += 1;
    }
    assert(blocks@ =~= refs_of(page0@)->0);
    Ok(blocks)
}

/// Write the directory block references into page 0, behind the superblock.
pub fn write_dir_blocks(dir_blocks: &[DirBlockRef], page0: &mut [u8])
    requires
        28 + 17 * dir_blocks.len() <= old(page0).len(),
    ensures
        final(page0)@ == old(page0)@.take(20) + encode_section(
            dir_blocks@,
            old(page0).len() as int,
        ),
{
    broadcast use crate::bytes::lemma_le32;
    broadcast use crate::bytes::lemma_le64;

    let page_size: usize = page0.len();
    let n: usize = dir_blocks.len();
    put_u32(page0, PAGE0_DIR_OFFSET, n as u32);
    let ghost start = page0@;
    let mut i: usize = 0;
    while i < n
        invariant
            n == dir_blocks.len(),
            page_size == start.len(),
            28 + 17 * n <= page_size,
            i <= n,
            page0@ == splice(start, 24, encode_refs(dir_blocks@.take(i as int))),
        decreases n - i,
    {
        let off: usize = PAGE0_DIR_OFFSET + 4 + i * DIR_BLOCK_REF_SIZE;
        let (_, tail) = page0.split_at_mut(off);
        dir_blocks[i].write_to(tail);
        i += 1;
        proof {
            let done = dir_blocks@.take(i as int);
            assert(done.drop_last() =~= dir_blocks@.take(i - 1));
            lemma_refs_len(done);
            lemma_refs_len(done.drop_last());
            assert(page0@ =~= splice(start, 24, encode_refs(done)));
        }
    }
    proof {
        assert(dir_blocks@.take(n as int) =~= dir_blocks@);
        lemma_refs_len(dir_blocks@);
    }
    let entries_end: usize = PAGE0_DIR_OFFSET + 4 + n * DIR_BLOCK_REF_SIZE;
    fill_zero(page0, entries_end, page_size - 4);
    let (head, section) = page0.split_at_mut(PAGE0_DIR_OFFSET);
    proof {
        assert(section@.take(section@.len() - 4) =~= section_body(dir_blocks@, page_size as int));
    }
    seal(section);
    assert(page0@ =~= old(page0)@.take(20) + encode_section(dir_blocks@, page_size as int));
}

/// The references read back as they were written, whatever stands before them.
pub proof fn law_dir_blocks_round_trip(blocks: Seq<DirBlockRef>, head: Seq<u8>, page_size: usize)
    requires
        head.len() == 20,
        28 <= page_size,
        blocks.len() <= spec_max_dir_blocks(page_size),
        blocks.len() <= u32::MAX,
    ensures
        parse_section(head + encode_section(blocks, page_size as int)) == Some(blocks),
        (head + encode_section(blocks, page_size as int)).len() == page_size,
{
    broadcast use crate::bytes::lemma_le32;
    broadcast use crate::bytes::lemma_le64;

    lemma_refs_len(blocks);
    let body = section_body(blocks, page_size as int);
    let s = head + encode_section(blocks, page_size as int);
    lemma_sealed(body);
    assert(s.subrange(20, 24) =~= le32(blocks.len() as u32));
    assert(s.subrange(20, s.len() as int) =~= sealed(body));
    if blocks.len() == 0 {
        assert(blocks =~= Seq::empty());
    } else {
        assert forall|i: int| 0 <= i < blocks.len() implies #[trigger] ref_at(s, i) == Some(
            blocks[i],
        ) by {
            let d = s.subrange(24 + 17 * i, 24 + 17 * i + 17);
            lemma_refs_part(blocks, i);
            assert(d =~= encode_refs(blocks).subrange(17 * i, 17 * i + 17));
            assert(d.subrange(0, 8) =~= le64(blocks[i].page_a));
            assert(d.subrange(8, 16) =~= le64(blocks[i].page_b));
        }
        assert(parse_section(s)->0 =~= blocks);
    }
}

// ── Directory page entries ────────────────────────────────────────────────────

/// One entry in a protected-page directory page.
#[derive(Clone, Copy, Debug)]
pub struct DirEntry {
    pub in_use: bool,
    pub page_a: u64,
    pub page_b: u64,
    /// Which page (0 = page_a, otherwise page_b) is the active copy.
    pub active_slot: u8,
    pub generation: u64,
    /// CRC32 of the active page's content at the time of the last commit.
    pub checksum: u32,
}

impl Default for DirEntry {
    fn default() -> (r: Self)
        ensures
            r == DirEntry::free_entry(),
    {
        DirEntry {
            in_use: false,
            page_a: 0,
            page_b: 0,
            active_slot: 0,
            generation: 0,
            checksum: 0,
        }
    }
}

impl DirEntry {
    /// An entry that was never used.
    pub open spec fn free_entry() -> DirEntry {
        DirEntry {
            in_use: false,
            page_a: 0,
            page_b: 0,
            active_slot: 0,
            generation: 0,
            checksum: 0,
        }
    }

    pub open spec fn encode(self) -> Seq<u8> {
        seq![
            if self.in_use {
                1u8
            } else {
                0u8
            },
        ] + le64(self.page_a) + le64(self.page_b) + seq![self.active_slot] + le64(self.generation)
            + le32(self.checksum)
    }

    /// The entry that starts at byte `at` of `data`.
    pub open spec fn parse_at(data: Seq<u8>, at: int) -> DirEntry {
        DirEntry {
            in_use: data[at] != 0,
            page_a: u64_at(data, at + 1),
            page_b: u64_at(data, at + 9),
            active_slot: data[at + 17],
            generation: u64_at(data, at + 18),
            checksum: u32_at(data, at + 26),
        }
    }

    /// The page of the copy in slot `slot`.
    pub open spec fn spec_copy(self, slot: u8) -> u64 {
        if slot == 0 {
            self.page_a
        } else {
            self.page_b
        }
    }

    #[verifier::when_used_as_spec(spec_copy)]
    pub fn copy(self, slot: u8) -> (r: u64)
        ensures
            r == self.spec_copy(slot),
    {
        if slot == 0 {
            self.page_a
        } else {
            self.page_b
        }
    }

    pub fn from_bytes(data: &[u8]) -> (r: Option<Self>)
        ensures
            r == if data.len() < 30 {
                None
            } else {
                Some(Self::parse_at(data@, 0))
            },
    {
        if data.len() < DIR_ENTRY_SIZE {
            return None;
        }
        Some(
            DirEntry {
                in_use: data[0] != 0,
                page_a: read_u64(data, 1),
                page_b: read_u64(data, 9),
                active_slot: data[17],
                generation: read_u64(data, 18),
                checksum: read_u32(data, 26),
            },
        )
    }

    pub fn write_to(&self, buf: &mut [u8])
        requires
            DIR_ENTRY_SIZE <= old(buf).len(),
        ensures
            final(buf)@ == splice(old(buf)@, 0, self.encode()),
    {
        broadcast use crate::bytes::lemma_le32;
        broadcast use crate::bytes::lemma_le64;

        buf[0] = if self.in_use {
            1
        } else {
            0
        };
        put_u64(buf, 1, self.page_a);
        put_u64(buf, 9, self.page_b);
        buf[17] = self.active_slot;
        put_u64(buf, 18, self.generation);
        put_u32(buf, 26, self.checksum);
        assert(buf@ =~= splice(old(buf)@, 0, self.encode()));
    }
}

/// In-memory view of one directory page (A or B copy).
pub struct DirPage {
    /// Fixed slot count: determined by the page size at creation, stored in the
    /// page header.
    pub capacity: u32,
    pub entries: Vec<DirEntry>,
}

/// What a directory page holds.
#[verifier::ext_equal]
pub struct DirView {
    pub capacity: u32,
    pub entries: Seq<DirEntry>,
}

impl View for DirPage {
    type V = DirView;

    open spec fn view(&self) -> DirView {
        DirView { capacity: self.capacity, entries: self.entries@ }
    }
}

/// The entries one behind the other.
pub open spec fn encode_entries(entries: Seq<DirEntry>) -> Seq<u8>
    decreases entries.len(),
{
    if entries.len() == 0 {
        Seq::empty()
    } else {
        encode_entries(entries.drop_last()) + entries.last().encode()
    }
}

pub proof fn lemma_entries_len(entries: Seq<DirEntry>)
    ensures
        encode_entries(entries).len() == 30 * entries.len(),
    decreases entries.len(),
{
    broadcast use crate::bytes::lemma_le32;
    broadcast use crate::bytes::lemma_le64;

    if entries.len() > 0 {
        lemma_entries_len(entries.drop_last());
    }
}

/// Entry `i` stands at byte `30 * i`.
pub proof fn lemma_entries_part(entries: Seq<DirEntry>, i: int)
    requires
        0 <= i < entries.len(),
    ensures
        encode_entries(entries).subrange(30 * i, 30 * i + 30) == entries[i].encode(),
    decreases entries.len(),
{
    lemma_entries_len(entries);
    lemma_entries_len(entries.drop_last());
    if i == entries.len() - 1 {
        assert(encode_entries(entries).subrange(30 * i, 30 * i + 30) =~= entries.last().encode());
    } else {
        lemma_entries_part(entries.drop_last(), i);
        assert(encode_entries(entries).subrange(30 * i, 30 * i + 30) =~= encode_entries(
            entries.drop_last(),
        ).subrange(30 * i, 30 * i + 30));
    }
}

impl DirView {
    /// A directory page none of whose slots was ever used.
    pub open spec fn empty(page_size: usize) -> DirView {
        let capacity = spec_dir_entries_per_page(page_size) as u32;
        DirView { capacity, entries: Seq::new(capacity as nat, |i: int| DirEntry::free_entry()) }
    }

    /// The header counts the entries, and they lie inside the page.
    pub open spec fn fits(self, page_size: int) -> bool {
        self.entries.len() == self.capacity && 8 + 30 * self.entries.len() + 4 <= page_size
    }

    pub open spec fn body(self, page_size: int) -> Seq<u8> {
        le32(self.capacity) + zeros(4) + encode_entries(self.entries) + zeros(
            page_size - 12 - 30 * self.entries.len(),
        )
    }

    /// The directory page on disk.
    pub open spec fn encode(self, page_size: int) -> Seq<u8> {
        sealed(self.body(page_size))
    }

    /// What the fields of a directory page on disk say, if its entries lie inside
    /// the page.
    pub open spec fn fields(data: Seq<u8>) -> Option<DirView> {
        let capacity = u32_at(data, 0);
        if 8 + 30 * capacity > data.len() - 4 {
            None
        } else {
            Some(
                DirView {
                    capacity,
                    entries: Seq::new(
                        capacity as nat,
                        |i: int| DirEntry::parse_at(data, 8 + 30 * i),
                    ),
                },
            )
        }
    }

    /// What a directory page on disk holds, if its checksum is right and its
    /// entries lie inside the page.
    pub open spec fn parse(data: Seq<u8>) -> Option<DirView> {
        if data.len() < 12 || !is_sealed(data) {
            None
        } else {
            Self::fields(data)
        }
    }

    /// The lowest slot from `from` on that is not in use.
    pub open spec fn free_slot_from(self, from: int) -> Option<int>
        decreases self.entries.len() - from,
    {
        if from >= self.entries.len() {
            None
        } else if !self.entries[from].in_use {
            Some(from)
        } else {
            self.free_slot_from(from + 1)
        }
    }

    /// The lowest slot that is not in use.
    pub open spec fn free_slot(self) -> Option<int> {
        self.free_slot_from(0)
    }

    /// The page with slot `slot` replaced.
    pub open spec fn with_entry(self, slot: int, entry: DirEntry) -> DirView {
        DirView { capacity: self.capacity, entries: self.entries.update(slot, entry) }
    }
}

impl DirPage {
    /// Create a fresh, all-free directory page for the given page size.
    pub fn new_empty(page_size: usize) -> (r: Self)
        ensures
            r@ == DirView::empty(page_size),
    {
        let capacity: u32 = dir_entries_per_page(page_size) as u32;
        let mut entries: Vec<DirEntry> = Vec::new();
        let mut i: u32 = 0;
        while i < capacity
            invariant
                i <= capacity,
                entries@.len() == i,
                forall|j: int| 0 <= j < i ==> entries@[j] == DirEntry::free_entry(),
            decreases capacity - i,
        {
            entries.push(DirEntry::default());
            i += 1;
        }
        let r = DirPage { capacity, entries };
        assert(r@ =~= DirView::empty(page_size));
        r
    }

    /// Deserialize and checksum-validate from a raw page.
    pub fn from_bytes(data: &[u8]) -> (r: Option<Self>)
        ensures
            match r {
                Some(d) => DirView::parse(data@) == Some(d@),
                None => DirView::parse(data@) is None,
            },
    {
        let page_size: usize = data.len();
        if page_size < 12 {
            return None;
        }
        if !check_seal(data) {
            return None;
        }
        Self::from_fields(data)
    }

    /// Read the fields of a raw page, whatever its checksum.  `None` if the entries
    /// would not fit.
    pub fn from_fields(data: &[u8]) -> (r: Option<Self>)
        requires
            12 <= data.len(),
        ensures
            match r {
                Some(d) => DirView::fields(data@) == Some(d@),
                None => DirView::fields(data@) is None,
            },
    {
        let page_size: usize = data.len();
        let capacity = read_u32(data, 0);
        if 8 + 30 * (capacity as u64) > (page_size - 4) as u64 {
            return None;
        }
        let mut entries: Vec<DirEntry> = Vec::new();
        let mut i: u32 = 0;
        while i < capacity
            invariant
                page_size == data.len(),
                8 + 30 * capacity <= page_size - 4,
                i <= capacity,
                entries@.len() == i,
                forall|j: int|
                    0 <= j < i ==> entries@[j] == DirEntry::parse_at(data@, 8 + 30 * j),
            decreases capacity - i,
        {
            let off: usize = 8 + i as usize * DIR_ENTRY_SIZE;
            let part = slice_subrange(data, off, off + DIR_ENTRY_SIZE);
            match DirEntry::from_bytes(part) {
                Some(entry) => {
                    proof {
                        lemma_entry_in_part(data@, off as int);
                    }
                    entries.push(entry);
                },
                None => {
                    return None;
                },
            }
            i += 1;
        }
        let r = DirPage { capacity, entries };
        assert(r@ =~= DirView::fields(data@)->0);
        Some(r)
    }

    /// Serialize into a raw page.
    pub fn write_to(&self, buf: &mut [u8])
        requires
            8 + 30 * self.entries.len() + 4 <= old(buf).len(),
        ensures
            final(buf)@ == self@.encode(old(buf).len() as int),
    {
        broadcast use crate::bytes::lemma_le32;

        proof {
            lemma_entries_len(self.entries@);
        }
        self.write_fields(buf);
        assert(buf@.take(buf@.len() - 4) =~= self@.body(old(buf).len() as int));
        seal(buf);
    }

    /// Write the fields into a raw page, all but the checksum.
    pub fn write_fields(&self, buf: &mut [u8])
        requires
            8 + 30 * self.entries.len() + 4 <= old(buf).len(),
        ensures
            final(buf)@ == self@.body(old(buf).len() as int) + old(buf)@.skip(
                old(buf).len() - 4,
            ),
    {
        broadcast use crate::bytes::lemma_le32;
        broadcast use crate::bytes::lemma_le64;

        let page_size: usize = buf.len();
        let n: usize = self.entries.len();
        put_u32(buf, 0, self.capacity);
        fill_zero(buf, 4, 8);
        let ghost start = buf@;
        let mut i: usize = 0;
        while i < n
            invariant
                n == self.entries.len(),
                page_size == start.len(),
                8 + 30 * n + 4 <= page_size,
                i <= n,
                buf@ == splice(start, 8, encode_entries(self.entries@.take(i as int))),
            decreases n - i,
        {
            let off: usize = 8 + i * DIR_ENTRY_SIZE;
            let (_, tail) = buf.split_at_mut(off);
            self.entries[i].write_to(tail);
            i += 1;
            proof {
                let done = self.entries@.take(i as int);
                assert(done.drop_last() =~= self.entries@.take(i - 1));
                lemma_entries_len(done);
                lemma_entries_len(done.drop_last());
                assert(buf@ =~= splice(start, 8, encode_entries(done)));
            }
        }
        proof {
            assert(self.entries@.take(n as int) =~= self.entries@);
            lemma_entries_len(self.entries@);
        }
        let entries_end: usize = 8 + n * DIR_ENTRY_SIZE;
        fill_zero(buf, entries_end, page_size - 4);
        assert(buf@ =~= self@.body(page_size as int) + old(buf)@.skip(page_size - 4));
    }

    /// The lowest slot that is not in use.
    pub fn find_free_slot(&self) -> (r: Option<usize>)
        ensures
            match r {
                Some(slot) => self@.free_slot() == Some(slot as int),
                None => self@.free_slot() is None,
            },
    {
        let n: usize = self.entries.len();
        let mut i: usize = 0;
        while i < n
            invariant
                n == self.entries.len(),
                i <= n,
                self@.free_slot() == self@.free_slot_from(i as int),
            decreases n - i,
        {
            if !self.entries[i].in_use {
                return Some(i);
            }
            i += 1;
        }
        None
    }
}

proof fn lemma_entry_in_part(data: Seq<u8>, off: int)
    requires
        0 <= off,
        off + 30 <= data.len(),
    ensures
        DirEntry::parse_at(data.subrange(off, off + 30), 0) == DirEntry::parse_at(data, off),
{
    let p = data.subrange(off, off + 30);
    assert(p.subrange(1, 9) =~= data.subrange(off + 1, off + 9));
    assert(p.subrange(9, 17) =~= data.subrange(off + 9, off + 17));
    assert(p.subrange(18, 26) =~= data.subrange(off + 18, off + 26));
    assert(p.subrange(26, 30) =~= data.subrange(off + 26, off + 30));
}

/// A directory page reads back as it was written.
pub proof fn law_dir_page_round_trip(d: DirView, page_size: int)
    requires
        d.fits(page_size),
    ensures
        DirView::parse(d.encode(page_size)) == Some(d),
        d.encode(page_size).len() == page_size,
{
    broadcast use crate::bytes::lemma_le32;
    broadcast use crate::bytes::lemma_le64;

    lemma_entries_len(d.entries);
    let body = d.body(page_size);
    let s = d.encode(page_size);
    lemma_sealed(body);
    assert(s.subrange(0, 4) =~= le32(d.capacity));
    assert forall|i: int| 0 <= i < d.entries.len() implies DirEntry::parse_at(s, 8 + 30 * i)
        == d.entries[i] by {
        let part = s.subrange(8 + 30 * i, 8 + 30 * i + 30);
        let e = d.entries[i].encode();
        lemma_entries_part(d.entries, i);
        assert(part =~= encode_entries(d.entries).subrange(30 * i, 30 * i + 30));
        lemma_entry_in_part(s, 8 + 30 * i);
        assert(e.subrange(1, 9) =~= le64(d.entries[i].page_a));
        assert(e.subrange(9, 17) =~= le64(d.entries[i].page_b));
        assert(e.subrange(18, 26) =~= le64(d.entries[i].generation));
        assert(e.subrange(26, 30) =~= le32(d.entries[i].checksum));
    }
    assert(DirView::parse(s)->0 =~= d);
}

} // verus!
