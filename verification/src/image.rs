//! What a file holds: the state that is read from its bytes, and the bytes of
//! page 0 and of a fresh file.

use vstd::arithmetic::power2::pow2;
use vstd::prelude::*;
use vstd::slice::slice_subrange;

use crate::bytes::{page_of, zeros};
use crate::checksum::crc32_of;
use crate::directory::{
    DirBlockRef, DirPage, DirView, encode_section, parse_section, read_dir_blocks,
    spec_max_dir_blocks, write_dir_blocks,
};
use crate::error::MappedPageError;
use crate::meta::{
    FIRST_DATA_PAGE, MAGIC, MetaPage, MetaSelector, MetaView, SUPERBLOCK_SIZE, Superblock,
};
use crate::page::{page_in_map, page_slice};

verus! {

// ── Page sizes ────────────────────────────────────────────────────────────────

/// The exponent of the largest power of two that is at most `n`.
pub open spec fn log2_of(n: nat) -> nat
    decreases n,
{
    if n <= 1 {
        0
    } else {
        1 + log2_of(n / 2)
    }
}

/// A page size is a power of two, at least 1024, and four pages can be mapped.
pub open spec fn valid_page_size(page_size: usize) -> bool {
    &&& 1024 <= page_size
    &&& 4 * page_size <= usize::MAX
    &&& pow2(log2_of(page_size as nat)) == page_size
}

proof fn lemma_log2_bound(n: nat, k: nat)
    requires
        0 < k,
        n < pow2(k),
    ensures
        log2_of(n) < k,
    decreases n,
{
    vstd::arithmetic::power2::lemma_pow2_unfold(k);
    vstd::arithmetic::power2::lemma2_to64();
    if n > 1 {
        if k == 1 {
            assert(pow2(0) == 1);
        }
        lemma_log2_bound(n / 2, (k - 1) as nat);
    }
}

/// The exponent of a page size fits the superblock's field.
pub proof fn lemma_log2_is_u32(page_size: usize)
    ensures
        log2_of(page_size as nat) < 64,
{
    vstd::arithmetic::power2::lemma2_to64();
    vstd::arithmetic::power2::lemma2_to64_rest();
    lemma_log2_bound(page_size as nat, 64);
}

/// The exponent of a page size.
pub fn page_size_log2(page_size: usize) -> (r: u32)
    ensures
        r == log2_of(page_size as nat),
{
    proof {
        lemma_log2_is_u32(page_size);
    }
    let mut n: usize = page_size;
    let mut k: u32 = 0;
    while n > 1
        invariant
            k + log2_of(n as nat) == log2_of(page_size as nat),
            log2_of(page_size as nat) < 64,
        decreases n,
    {
        n = n / 2;
        k += 1;
    }
    k
}

/// Whether two to the power `log2` is the page size.
fn is_size_of(log2: u32, page_size: usize) -> (r: bool)
    requires
        valid_page_size(page_size),
    ensures
        r == (pow2(log2 as nat) == page_size),
{
    let own: u32 = page_size_log2(page_size);
    proof {
        if log2 < own {
            vstd::arithmetic::power2::lemma_pow2_strictly_increases(log2 as nat, own as nat);
        } else if own < log2 {
            vstd::arithmetic::power2::lemma_pow2_strictly_increases(own as nat, log2 as nat);
        }
    }
    log2 == own
}

/// Test whether `page_size` is a power of two, at least 1024, and small enough
/// for four pages to be mapped.
pub fn is_valid_page_size(page_size: usize) -> (r: bool)
    ensures
        r == valid_page_size(page_size),
{
    1024 <= page_size && page_size <= usize::MAX / 4 && is_power_of_two(page_size)
}

/// Test whether `size` is a power of two.
pub fn is_power_of_two(size: usize) -> (r: bool)
    requires
        0 < size,
    ensures
        r == (pow2(log2_of(size as nat)) == size),
{
    let mut n: usize = size;
    let mut k: u32 = 0;
    proof {
        lemma_log2_is_u32(size);
        vstd::arithmetic::power2::lemma2_to64();
    }
    while n > 1
        invariant
            0 < n,
            k + log2_of(n as nat) == log2_of(size as nat),
            log2_of(size as nat) < 64,
            n * pow2(k as nat) == size,
        decreases n,
    {
        if n % 2 != 0 {
            proof {
                lemma_odd_is_no_power(n as nat, k as nat, log2_of(size as nat));
            }
            return false;
        }
        proof {
            vstd::arithmetic::power2::lemma_pow2_unfold((k + 1) as nat);
            let p = pow2(k as nat);
            assert(n * p == (n / 2) * (2 * p)) by (nonlinear_arith)
                requires
                    n % 2 == 0,
            ;
        }
        n = n / 2;
        k += 1;
    }
    true
}

/// An odd number above one times a power of two is no power of two.
proof fn lemma_odd_is_no_power(n: nat, k: nat, e: nat)
    requires
        1 < n,
        n % 2 == 1,
        k <= e,
    ensures
        n * pow2(k) != pow2(e),
{
    let d = (e - k) as nat;
    vstd::arithmetic::power2::lemma_pow2_adds(k, d);
    vstd::arithmetic::power2::lemma_pow2_pos(k);
    let p = pow2(k);
    if n * p == pow2(e) {
        assert(n == pow2(d)) by (nonlinear_arith)
            requires
                n * p == p * pow2(d),
                p > 0,
        ;
        if d == 0 {
            vstd::arithmetic::power2::lemma2_to64();
        } else {
            vstd::arithmetic::power2::lemma_pow2_unfold(d);
        }
    }
}

// ── State ─────────────────────────────────────────────────────────────────────

/// What a pager knows of its file.
pub struct State {
    pub active_meta: MetaSelector,
    /// In-memory working copy of the active metadata.
    pub meta: MetaPage,
    /// Directory block references stored in page 0's extended section.
    /// Empty when no protected pages have ever been allocated.
    pub dir_blocks: Vec<DirBlockRef>,
    /// In-memory view of the active directory page for each block, parallel to
    /// `dir_blocks`.
    pub dir_pages: Vec<DirPage>,
}

#[verifier::ext_equal]
pub struct StateView {
    pub active: MetaSelector,
    pub meta: MetaView,
    pub blocks: Seq<DirBlockRef>,
    pub dirs: Seq<DirView>,
}

impl View for State {
    type V = StateView;

    open spec fn view(&self) -> StateView {
        StateView {
            active: self.active_meta,
            meta: self.meta@,
            blocks: self.dir_blocks@,
            dirs: Seq::new(self.dir_pages@.len(), |i: int| self.dir_pages@[i]@),
        }
    }
}

impl StateView {
    /// The state can be written: the metadata and each directory page fit into a
    /// page, and the references into page 0.
    pub open spec fn wf(self, page_size: usize) -> bool {
        &&& self.meta.fits(page_size as int)
        &&& self.blocks.len() == self.dirs.len()
        &&& self.blocks.len() <= spec_max_dir_blocks(page_size)
        &&& self.blocks.len() <= u32::MAX
        &&& forall|i: int|
            0 <= i < self.dirs.len() ==> (#[trigger] self.dirs[i]).fits(page_size as int)
    }

    /// Why page `id` is no data page of the file, if it is none.
    pub open spec fn page_refusal(self, id: u64) -> Option<MappedPageError> {
        if id < FIRST_DATA_PAGE {
            Some(MappedPageError::ReservedPage)
        } else if id >= self.meta.total_pages {
            Some(MappedPageError::OutOfBounds)
        } else {
            None
        }
    }

    /// The state of a newly created file.
    pub open spec fn fresh() -> StateView {
        StateView {
            active: MetaSelector::A,
            meta: MetaView::fresh(4),
            blocks: Seq::empty(),
            dirs: Seq::empty(),
        }
    }
}

// ── Page 0 ────────────────────────────────────────────────────────────────────

/// The superblock that names metadata page `active`, whose bytes have the
/// checksum `meta_checksum`.
pub open spec fn superblock_of(
    page_size: usize,
    active: MetaSelector,
    meta_checksum: u32,
) -> Superblock {
    Superblock {
        magic: MAGIC,
        page_size_log2: log2_of(page_size as nat) as u32,
        active_meta: active,
        meta_checksum,
    }
}

/// Page 0: the superblock and the directory section.
pub open spec fn page0_of(
    page_size: usize,
    active: MetaSelector,
    meta_checksum: u32,
    blocks: Seq<DirBlockRef>,
) -> Seq<u8> {
    superblock_of(page_size, active, meta_checksum).encode() + encode_section(
        blocks,
        page_size as int,
    )
}

/// The bytes of page 0.
pub fn page0_bytes(
    page_size: usize,
    active: MetaSelector,
    meta_checksum: u32,
    blocks: &[DirBlockRef],
) -> (r: Vec<u8>)
    requires
        valid_page_size(page_size),
        blocks.len() <= spec_max_dir_blocks(page_size),
    ensures
        r@ == page0_of(page_size, active, meta_checksum, blocks@),
{
    broadcast use crate::bytes::lemma_le32;
    broadcast use crate::bytes::lemma_le64;

    proof {
        lemma_log2_is_u32(page_size);
    }
    let sb = Superblock {
        magic: MAGIC,
        page_size_log2: page_size_log2(page_size),
        active_meta: active,
        meta_checksum,
    };
    let mut page0 = crate::bytes::zeroed(page_size);
    sb.write_to(page0.as_mut_slice());
    assert(page0@.take(20) =~= sb.encode());
    write_dir_blocks(blocks, page0.as_mut_slice());
    page0
}

// ── A fresh file ──────────────────────────────────────────────────────────────

/// The bytes of a newly created file: page 0, the metadata twice, and one free
/// page of zeros.
pub open spec fn fresh_file(page_size: usize) -> Seq<u8> {
    let meta = MetaView::fresh(4).encode(page_size as int);
    page0_of(page_size, MetaSelector::A, crc32_of(meta), Seq::empty()) + meta + meta + zeros(
        page_size as int,
    )
}

// ── Reading a file ────────────────────────────────────────────────────────────

/// The directory page at page `phys`, if it lies inside the file and is sound.
pub open spec fn dir_page_at(f: Seq<u8>, phys: u64, page_size: usize) -> Option<DirView> {
    if !page_in_map(phys, page_size, f.len() as int) {
        None
    } else {
        DirView::parse(page_of(f, phys as int, page_size as int))
    }
}

/// What a directory block holds: its active copy if that is sound, else the
/// other copy, which is then the active one.
pub open spec fn load_block(f: Seq<u8>, block: DirBlockRef, page_size: usize) -> Option<
    (DirBlockRef, DirView),
> {
    match dir_page_at(f, block.copy(block.active), page_size) {
        Some(d) => Some((block, d)),
        None => match dir_page_at(f, block.copy(block.active.other()), page_size) {
            Some(d) => Some((block.flipped(), d)),
            None => None,
        },
    }
}

/// The metadata in page `sel`, if it is sound.
pub open spec fn meta_at(f: Seq<u8>, sel: MetaSelector, page_size: usize) -> Option<MetaView> {
    MetaView::parse(page_of(f, sel.page_id() as int, page_size as int))
}

/// The metadata that count: those of the page which the superblock names, if it is
/// sound and the one whose checksum the superblock records; else those of the other
/// page, if it is sound.
pub open spec fn load_meta(f: Seq<u8>, sb: Superblock, page_size: usize) -> Option<
    (MetaSelector, MetaView),
> {
    let page = page_of(f, sb.active_meta.page_id() as int, page_size as int);
    if meta_at(f, sb.active_meta, page_size) is Some && crc32_of(page) == sb.meta_checksum {
        Some((sb.active_meta, meta_at(f, sb.active_meta, page_size)->0))
    } else {
        match meta_at(f, sb.active_meta.other(), page_size) {
            Some(m) => Some((sb.active_meta.other(), m)),
            None => None,
        }
    }
}

/// The blocks of page 0 with their directory pages.
pub open spec fn load_dirs(f: Seq<u8>, blocks: Seq<DirBlockRef>, page_size: usize) -> Option<
    (Seq<DirBlockRef>, Seq<DirView>),
> {
    if forall|i: int|
        0 <= i < blocks.len() ==> #[trigger] load_block(f, blocks[i], page_size) is Some {
        Some(
            (
                Seq::new(blocks.len(), |i: int| (load_block(f, blocks[i], page_size)->0).0),
                Seq::new(blocks.len(), |i: int| (load_block(f, blocks[i], page_size)->0).1),
            ),
        )
    } else {
        None
    }
}

/// The superblock of a file that can be read with this page size, or why there
/// is none.
pub open spec fn load_superblock(f: Seq<u8>, page_size: usize) -> Result<
    Superblock,
    MappedPageError,
> {
    if f.len() < 20 {
        Err(MappedPageError::CorruptSuperblock)
    } else {
        match Superblock::parse(f.subrange(0, 20)) {
            None => Err(MappedPageError::CorruptSuperblock),
            Some(sb) => if !sb.compatible() {
                Err(MappedPageError::CorruptSuperblock)
            } else if pow2(sb.page_size_log2 as nat) != page_size {
                Err(MappedPageError::InvalidPageSize)
            } else if f.len() < 4 * page_size {
                Err(MappedPageError::CorruptSuperblock)
            } else {
                Ok(sb)
            },
        }
    }
}

/// The state that the bytes of a file stand for, or why they stand for none.
#[verifier::opaque]
pub open spec fn recover(f: Seq<u8>, page_size: usize) -> Result<StateView, MappedPageError> {
    match load_superblock(f, page_size) {
        Err(e) => Err(e),
        Ok(sb) => match load_meta(f, sb, page_size) {
            None => Err(MappedPageError::CorruptMetadata),
            Some((active, meta)) => match parse_section(f.take(page_size as int)) {
                None => Err(MappedPageError::CorruptDirectoryIndex),
                Some(refs) => match load_dirs(f, refs, page_size) {
                    None => Err(MappedPageError::CorruptProtectedDirectory),
                    Some((blocks, dirs)) => Ok(StateView { active, meta, blocks, dirs }),
                },
            },
        },
    }
}

/// Read the directory page at page `phys`.
fn try_parse(map: &[u8], phys: u64, page_size: usize) -> (r: Option<DirPage>)
    requires
        0 < page_size,
    ensures
        match r {
            Some(d) => dir_page_at(map@, phys, page_size) == Some(d@) && d@.fits(page_size as int),
            None => dir_page_at(map@, phys, page_size) is None,
        },
{
    if !is_page_in_map(phys, page_size, map.len()) {
        return None;
    }
    proof {
        crate::page::lemma_page_in_map(phys, page_size, map.len() as int);
    }
    DirPage::from_bytes(page_slice(map, phys, page_size))
}

/// Test whether page `page` lies inside a map of `len` bytes.
pub fn is_page_in_map(page: u64, page_size: usize, len: usize) -> (r: bool)
    requires
        0 < page_size,
    ensures
        r == page_in_map(page, page_size, len as int),
{
    let pages: usize = len / page_size;
    proof {
        let q = pages as int;
        vstd::arithmetic::div_mod::lemma_fundamental_div_mod(len as int, page_size as int);
        assert(page < q ==> (page + 1) * page_size <= q * page_size) by (nonlinear_arith)
            requires
                0 < page_size,
        ;
        assert(page >= q ==> (page + 1) * page_size >= q * page_size + page_size)
            by (nonlinear_arith)
            requires
                0 < page_size,
        ;
        assert(q * page_size == page_size * q) by (nonlinear_arith);
    }
    page < pages as u64
}

impl State {
    /// The state of a newly created file of four pages.
    pub fn new_fresh() -> (r: State)
        ensures
            r@ == StateView::fresh(),
    {
        let r = State {
            active_meta: MetaSelector::A,
            meta: MetaPage::new_for_capacity(4),
            dir_blocks: Vec::new(),
            dir_pages: Vec::new(),
        };
        assert(r@ =~= StateView::fresh());
        r
    }

    /// Why page `id` is no data page of the file, if it is none.
    pub fn page_access(&self, id: u64) -> (r: Option<MappedPageError>)
        ensures
            r == self@.page_refusal(id),
    {
        if id < FIRST_DATA_PAGE {
            return Some(MappedPageError::ReservedPage);
        }
        if id >= self.meta.total_pages {
            return Some(MappedPageError::OutOfBounds);
        }
        None
    }

    /// Read a file's state, falling back from a damaged copy to the other one.
    pub fn load(map: &[u8], page_size: usize) -> (r: Result<State, MappedPageError>)
        requires
            valid_page_size(page_size),
        ensures
            match r {
                Ok(s) => recover(map@, page_size) == Ok::<StateView, MappedPageError>(s@) && s@.wf(
                    page_size,
                ),
                Err(e) => recover(map@, page_size) == Err::<StateView, MappedPageError>(e),
            },
    {
        proof {
            reveal(recover);
        }
        if map.len() < SUPERBLOCK_SIZE {
            return Err(MappedPageError::CorruptSuperblock);
        }
        let sb = match Superblock::from_bytes(slice_subrange(map, 0, SUPERBLOCK_SIZE)) {
            Some(sb) => sb,
            None => {
                return Err(MappedPageError::CorruptSuperblock);
            },
        };
        if !sb.is_valid() {
            return Err(MappedPageError::CorruptSuperblock);
        }
        if !is_size_of(sb.page_size_log2, page_size) {
            return Err(MappedPageError::InvalidPageSize);
        }
        if map.len() < 4 * page_size {
            return Err(MappedPageError::CorruptSuperblock);
        }
        let (active_meta, meta) = match load_meta_pages(map, &sb, page_size) {
            Some(found) => found,
            None => {
                return Err(MappedPageError::CorruptMetadata);
            },
        };
        let page0 = slice_subrange(map, 0, page_size);
        assert(page0@ =~= map@.take(page_size as int));
        let mut dir_blocks = match read_dir_blocks(page0) {
            Ok(blocks) => blocks,
            Err(_) => {
                return Err(MappedPageError::CorruptDirectoryIndex);
            },
        };
        let dir_pages = match load_dir_pages(map, &mut dir_blocks, page_size) {
            Some(pages) => pages,
            None => {
                return Err(MappedPageError::CorruptProtectedDirectory);
            },
        };
        let s = State { active_meta, meta, dir_blocks, dir_pages };
        assert(s@ =~= recover(map@, page_size)->Ok_0);
        Ok(s)
    }
}

/// Choose the metadata that count: those `found` in page `active`, if there are any
/// and the checksum of that page is the `recorded` one, else the `alternate` ones.
pub fn choose_meta(
    active: MetaSelector,
    recorded: u32,
    found: Option<MetaPage>,
    checksum: u32,
    alternate: Option<MetaPage>,
) -> (r: Option<(MetaSelector, MetaPage)>)
    ensures
        r == match (found, alternate) {
            (Some(m), _) if checksum == recorded => Some((active, m)),
            (_, Some(m)) => Some((active.other(), m)),
            _ => None,
        },
{
    if let Some(m) = found {
        if checksum == recorded {
            return Some((active, m));
        }
    }
    match alternate {
        Some(m) => Some((active.other(), m)),
        None => None,
    }
}

/// Find the metadata that count.
fn load_meta_pages(map: &[u8], sb: &Superblock, page_size: usize) -> (r: Option<
    (MetaSelector, MetaPage),
>)
    requires
        valid_page_size(page_size),
        4 * page_size <= map.len(),
    ensures
        match r {
            Some((sel, m)) => load_meta(map@, *sb, page_size) == Some((sel, m@)) && m@.fits(
                page_size as int,
            ),
            None => load_meta(map@, *sb, page_size) is None,
        },
{
    let active = sb.active_meta;
    let page = page_slice(map, active.page_id(), page_size);
    let found = MetaPage::from_bytes(page);
    let checksum = MetaPage::page_checksum(page);
    let alternate = MetaPage::from_bytes(page_slice(map, active.other().page_id(), page_size));
    choose_meta(active, sb.meta_checksum, found, checksum, alternate)
}

/// Load the directory page of each block, and correct the selector of a block
/// whose active copy is damaged.
fn load_dir_pages(map: &[u8], blocks: &mut Vec<DirBlockRef>, page_size: usize) -> (r: Option<
    Vec<DirPage>,
>)
    requires
        0 < page_size,
    ensures
        match r {
            Some(pages) => load_dirs(map@, old(blocks)@, page_size) == Some(
                (final(blocks)@, Seq::new(pages@.len(), |i: int| pages@[i]@)),
            ) && forall|i: int|
                0 <= i < pages@.len() ==> (#[trigger] pages@[i])@.fits(page_size as int),
            None => load_dirs(map@, old(blocks)@, page_size) is None,
        },
{
    let n: usize = blocks.len();
    let mut pages: Vec<DirPage> = Vec::new();
    let mut i: usize = 0;
    while i < n
        invariant
            0 < page_size,
            n == old(blocks)@.len(),
            blocks@.len() == n,
            pages@.len() == i,
            i <= n,
            forall|j: int| i <= j < n ==> blocks@[j] == old(blocks)@[j],
            forall|j: int|
                0 <= j < i ==> #[trigger] load_block(map@, old(blocks)@[j], page_size) == Some(
                    (blocks@[j], pages@[j]@),
                ),
            forall|j: int| 0 <= j < i ==> (#[trigger] pages@[j])@.fits(page_size as int),
        decreases n - i,
    {
        let block = blocks[i];
        match try_parse(map, block.copy(block.active), page_size) {
            Some(d) => {
                pages.push(d);
            },
            None => match try_parse(map, block.copy(block.active.other()), page_size) {
                Some(d) => {
                    blocks[i] = block.flipped();
                    pages.push(d);
                },
                None => {
                    assert(load_block(map@, old(blocks)@[i as int], page_size) is None);
                    return None;
                },
            },
        }
        i += 1;
    }
    proof {
        let want = load_dirs(map@, old(blocks)@, page_size);
        assert(want is Some);
        assert((want->0).0 =~= blocks@);
        assert((want->0).1 =~= Seq::new(pages@.len(), |i: int| pages@[i]@));
    }
    Some(pages)
}

} // verus!
