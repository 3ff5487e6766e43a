//! What the file keeps: when its bytes stand for a state, that a completed
//! commit makes them stand for the new one, and what is found after a crash.

use vstd::prelude::*;

use crate::bytes::{le32, le64, page_of, u32_at};
use crate::checksum::crc32_of;
use crate::directory::{
    DirBlockRef, law_dir_blocks_round_trip, law_dir_page_round_trip, parse_section, ref_at,
    spec_max_dir_blocks,
};
use crate::error::MappedPageError;
use crate::image::{
    StateView, dir_page_at, fresh_file, lemma_log2_is_u32, load_block, load_dirs, load_meta,
    load_superblock, meta_at, page0_of, recover, superblock_of, valid_page_size,
};
use crate::meta::{
    FIRST_DATA_PAGE, MetaSelector, Superblock, law_magic_is_compatible, law_meta_round_trip,
    law_superblock_round_trip,
};
use crate::page::page_in_map;
use crate::plan::{crash_leaves, may_hold, run, two_phase};

verus! {

impl StateView {
    /// Both copies of every directory block are data pages inside a file of
    /// `len` bytes, and no page serves twice.
    pub open spec fn laid_out(self, len: int, page_size: usize) -> bool {
        &&& forall|i: int, sel: MetaSelector|
            0 <= i < self.blocks.len() ==> {
                let phys = #[trigger] self.blocks[i].copy(sel);
                FIRST_DATA_PAGE <= phys && page_in_map(phys, page_size, len)
            }
        &&& forall|i: int, a: MetaSelector, j: int, b: MetaSelector|
            0 <= i < self.blocks.len() && 0 <= j < self.blocks.len() && (i != j || a != b)
                ==> #[trigger] self.blocks[i].copy(a) != #[trigger] self.blocks[j].copy(b)
    }

    /// The page of the active copy of block `i`.
    pub open spec fn active_dir(self, i: int) -> u64 {
        self.blocks[i].copy(self.blocks[i].active)
    }

    /// Opening the file `f` gives this state, and its directory is laid out there.
    ///
    /// That is so of a file that was left in order, and also of one that is opened
    /// with an alternate page, after a crash that tore page 0, or without a directory
    /// section.
    pub open spec fn found_in(self, f: Seq<u8>, page_size: usize) -> bool {
        &&& recover(f, page_size) == Ok::<StateView, MappedPageError>(self)
        &&& self.laid_out(f.len() as int, page_size)
    }

    /// The file `f` holds this state in order: page 0 names the active metadata page,
    /// with its checksum, and the active directory pages, and those hold the metadata
    /// and the directory.
    pub open spec fn in_sync(self, f: Seq<u8>, page_size: usize) -> bool {
        &&& self.wf(page_size)
        &&& 4 * page_size <= f.len()
        &&& self.laid_out(f.len() as int, page_size)
        &&& page_of(f, 0, page_size as int) == page0_of(
            page_size,
            self.active,
            crc32_of(page_of(f, self.active.page_id() as int, page_size as int)),
            self.blocks,
        )
        &&& meta_at(f, self.active, page_size) == Some(self.meta)
        &&& self.dirs_in(f, page_size)
    }

    /// The active copy of each directory block holds its directory page.
    pub open spec fn dirs_in(self, f: Seq<u8>, page_size: usize) -> bool {
        forall|i: int|
            0 <= i < self.blocks.len() ==> dir_page_at(
                f,
                #[trigger] self.active_dir(i),
                page_size,
            ) == Some(self.dirs[i])
    }
}

// ── Pages of a file ───────────────────────────────────────────────────────────

/// Pages lie one behind the other.
proof fn lemma_page_order(p: int, q: int, page_size: int)
    requires
        0 <= p < q,
        0 < page_size,
    ensures
        p * page_size + page_size <= q * page_size,
        0 <= p * page_size,
{
    assert(p * page_size + page_size <= q * page_size) by (nonlinear_arith)
        requires
            0 <= p < q,
            0 < page_size,
    ;
    assert(0 <= p * page_size) by (nonlinear_arith)
        requires
            0 <= p,
            0 < page_size,
    ;
}

/// A page that lies in the file is as long as a page.
proof fn lemma_page_len(f: Seq<u8>, phys: u64, page_size: usize)
    requires
        page_in_map(phys, page_size, f.len() as int),
    ensures
        page_of(f, phys as int, page_size as int).len() == page_size,
        0 <= phys * page_size,
        phys * page_size + page_size <= f.len(),
{
    assert(phys * page_size + page_size == (phys + 1) * page_size) by (nonlinear_arith);
    assert(0 <= phys * page_size) by (nonlinear_arith);
}

/// The pages of a plan's two halves, as far as the plan is carried out; every
/// other page is as before.
proof fn lemma_run_two_phase(
    f: Seq<u8>,
    phys: u64,
    page: Seq<u8>,
    page0: Seq<u8>,
    page_size: usize,
)
    requires
        0 < page_size,
        0 < phys,
        page.len() == page_size,
        page0.len() == page_size,
        page_in_map(phys, page_size, f.len() as int),
    ensures
        ({
            let g = run(f, two_phase(phys, page, page0, page_size));
            &&& g.len() == f.len()
            &&& page_of(g, 0, page_size as int) == page0
            &&& page_of(g, phys as int, page_size as int) == page
            &&& forall|q: u64|
                0 < q && q != phys && page_in_map(q, page_size, f.len() as int)
                    ==> #[trigger] page_of(g, q as int, page_size as int) == page_of(
                    f,
                    q as int,
                    page_size as int,
                )
        }),
{
    let steps = two_phase(phys, page, page0, page_size);
    let g = run(f, steps);
    reveal_with_fuel(run, 5);
    let ps = page_size as int;
    assert(steps.drop_last().drop_last().drop_last().drop_last().len() == 0);
    let f1 = crate::bytes::splice(f, phys * page_size, page);
    assert(g =~= crate::bytes::splice(f1, 0, page0));
    lemma_page_len(f, phys, page_size);
    lemma_page_order(0, phys as int, ps);
    assert(0 * ps == 0);
    assert(page_of(g, 0, ps) =~= page0);
    assert(page_of(g, phys as int, ps) =~= page);
    assert forall|q: u64|
        0 < q && q != phys && page_in_map(q, page_size, f.len() as int) implies #[trigger] page_of(
        g,
        q as int,
        ps,
    ) == page_of(f, q as int, ps) by {
        lemma_page_len(f, q, page_size);
        lemma_page_order(0, q as int, ps);
        if q < phys {
            lemma_page_order(q as int, phys as int, ps);
        } else {
            lemma_page_order(phys as int, q as int, ps);
        }
        assert(page_of(g, q as int, ps) =~= page_of(f, q as int, ps));
    }
}

// ── A file in sync reads back ─────────────────────────────────────────────────

/// Page 0 reads back: the superblock, and the directory section.
proof fn lemma_page0_reads_back(
    f: Seq<u8>,
    page_size: usize,
    active: MetaSelector,
    checksum: u32,
    blocks: Seq<DirBlockRef>,
)
    requires
        valid_page_size(page_size),
        4 * page_size <= f.len(),
        blocks.len() <= spec_max_dir_blocks(page_size),
        blocks.len() <= u32::MAX,
        page_of(f, 0, page_size as int) == page0_of(page_size, active, checksum, blocks),
    ensures
        load_superblock(f, page_size) == Ok::<Superblock, MappedPageError>(
            superblock_of(page_size, active, checksum),
        ),
        parse_section(f.take(page_size as int)) == Some(blocks),
{
    let sb = superblock_of(page_size, active, checksum);
    let p0 = page0_of(page_size, active, checksum, blocks);
    assert(0 * page_size == 0);
    assert(f.take(page_size as int) =~= p0);
    lemma_log2_is_u32(page_size);
    law_superblock_round_trip(sb, Seq::empty());
    law_magic_is_compatible(sb, sb);
    law_dir_blocks_round_trip(blocks, sb.encode(), page_size);
    assert(f.subrange(0, 20) =~= p0.take(20));
    assert(p0.take(20) =~= sb.encode() + Seq::empty());
}

/// The parts of a file make up the state that is read from it.
proof fn lemma_recover(
    f: Seq<u8>,
    page_size: usize,
    sb: Superblock,
    refs: Seq<DirBlockRef>,
    s: StateView,
)
    requires
        load_superblock(f, page_size) == Ok::<Superblock, MappedPageError>(sb),
        load_meta(f, sb, page_size) == Some((s.active, s.meta)),
        parse_section(f.take(page_size as int)) == Some(refs),
        refs.len() == s.blocks.len(),
        refs.len() == s.dirs.len(),
        forall|i: int|
            0 <= i < refs.len() ==> #[trigger] load_block(f, refs[i], page_size) == Some(
                (s.blocks[i], s.dirs[i]),
            ),
    ensures
        recover(f, page_size) == Ok::<StateView, MappedPageError>(s),
{
    reveal(recover);
    let (blocks, dirs) = load_dirs(f, refs, page_size)->0;
    assert(blocks =~= s.blocks);
    assert(dirs =~= s.dirs);
}

/// The active copy of each block is the one that is loaded.
proof fn lemma_blocks_load(f: Seq<u8>, s: StateView, page_size: usize)
    requires
        s.dirs_in(f, page_size),
    ensures
        forall|i: int|
            0 <= i < s.blocks.len() ==> #[trigger] load_block(f, s.blocks[i], page_size) == Some(
                (s.blocks[i], s.dirs[i]),
            ),
{
    assert forall|i: int| 0 <= i < s.blocks.len() implies #[trigger] load_block(
        f,
        s.blocks[i],
        page_size,
    ) == Some((s.blocks[i], s.dirs[i])) by {
        assert(dir_page_at(f, s.active_dir(i), page_size) == Some(s.dirs[i]));
    }
}

/// A file that holds a state in order is opened with exactly that state.
pub proof fn law_in_sync_recovers(s: StateView, f: Seq<u8>, page_size: usize)
    requires
        valid_page_size(page_size),
        s.in_sync(f, page_size),
    ensures
        recover(f, page_size) == Ok::<StateView, MappedPageError>(s),
        s.found_in(f, page_size),
{
    let checksum = crc32_of(page_of(f, s.active.page_id() as int, page_size as int));
    lemma_page0_reads_back(f, page_size, s.active, checksum, s.blocks);
    lemma_blocks_load(f, s, page_size);
    lemma_recover(f, page_size, superblock_of(page_size, s.active, checksum), s.blocks, s);
}

/// What was read from a file stands in its pages, and can be written again.
pub proof fn lemma_found_stands(s: StateView, f: Seq<u8>, page_size: usize)
    requires
        valid_page_size(page_size),
        recover(f, page_size) == Ok::<StateView, MappedPageError>(s),
    ensures
        s.wf(page_size),
        4 * page_size <= f.len(),
        meta_at(f, s.active, page_size) == Some(s.meta),
        s.dirs_in(f, page_size),
{
    reveal(recover);
    let sb = load_superblock(f, page_size)->Ok_0;
    let page0 = f.take(page_size as int);
    let refs = parse_section(page0)->0;
    let a = s.active.page_id();
    lemma_low_page_in_map(a, page_size, f.len() as int);
    lemma_page_len(f, a, page_size);
    assert(page0.len() as usize == page_size);
    assert forall|i: int| 0 <= i < refs.len() implies {
        let (block, dir) = (s.blocks[i], s.dirs[i]);
        &&& #[trigger] load_block(f, refs[i], page_size) == Some((block, dir))
        &&& dir_page_at(f, block.copy(block.active), page_size) == Some(dir)
        &&& dir.fits(page_size as int)
    } by {
        assert(load_block(f, refs[i], page_size) is Some);
        let phys = s.blocks[i].copy(s.blocks[i].active);
        assert(dir_page_at(f, phys, page_size) == Some(s.dirs[i]));
        lemma_page_len(f, phys, page_size);
    }
    assert forall|i: int| 0 <= i < s.blocks.len() implies dir_page_at(
        f,
        #[trigger] s.active_dir(i),
        page_size,
    ) == Some(s.dirs[i]) by {
        assert(load_block(f, refs[i], page_size) is Some);
    }
    assert forall|i: int| 0 <= i < s.dirs.len() implies (#[trigger] s.dirs[i]).fits(
        page_size as int,
    ) by {
        assert(load_block(f, refs[i], page_size) is Some);
    }
}

/// The directory blocks that page 0 of a file refers to are loaded alike from a file
/// that agrees with it on all copies of them.
proof fn lemma_blocks_still_load(s: StateView, f: Seq<u8>, g: Seq<u8>, page_size: usize)
    requires
        valid_page_size(page_size),
        s.found_in(f, page_size),
        s.laid_out(g.len() as int, page_size),
        forall|i: int, sel: MetaSelector|
            0 <= i < s.blocks.len() ==> page_of(
                g,
                #[trigger] s.blocks[i].copy(sel) as int,
                page_size as int,
            ) == page_of(f, s.blocks[i].copy(sel) as int, page_size as int),
    ensures
        ({
            let refs = parse_section(f.take(page_size as int))->0;
            &&& parse_section(f.take(page_size as int)) is Some
            &&& refs.len() == s.blocks.len()
            &&& refs.len() == s.dirs.len()
            &&& forall|i: int|
                0 <= i < refs.len() ==> #[trigger] load_block(g, refs[i], page_size) == Some(
                    (s.blocks[i], s.dirs[i]),
                )
        }),
{
    reveal(recover);
    let refs = parse_section(f.take(page_size as int))->0;
    assert forall|i: int| 0 <= i < refs.len() implies #[trigger] load_block(g, refs[i], page_size)
        == Some((s.blocks[i], s.dirs[i])) by {
        assert(load_block(f, refs[i], page_size) is Some);
        assert forall|sel: MetaSelector| #[trigger] dir_page_at(g, refs[i].copy(sel), page_size)
            == dir_page_at(f, refs[i].copy(sel), page_size) by {
            assert(refs[i].copy(sel) == s.blocks[i].copy(sel));
            assert(page_in_map(s.blocks[i].copy(sel), page_size, f.len() as int));
            assert(page_in_map(s.blocks[i].copy(sel), page_size, g.len() as int));
        }
    }
}

/// A file that agrees with one in which a state is found, on pages 0 to 2 and on all
/// copies of its directory blocks, is opened with that state too.
proof fn lemma_still_found(s: StateView, f: Seq<u8>, g: Seq<u8>, page_size: usize)
    requires
        valid_page_size(page_size),
        s.found_in(f, page_size),
        4 * page_size <= g.len(),
        s.laid_out(g.len() as int, page_size),
        forall|q: u64|
            q < FIRST_DATA_PAGE ==> #[trigger] page_of(g, q as int, page_size as int) == page_of(
                f,
                q as int,
                page_size as int,
            ),
        forall|i: int, sel: MetaSelector|
            0 <= i < s.blocks.len() ==> page_of(
                g,
                #[trigger] s.blocks[i].copy(sel) as int,
                page_size as int,
            ) == page_of(f, s.blocks[i].copy(sel) as int, page_size as int),
    ensures
        s.found_in(g, page_size),
{
    reveal(recover);
    let ps = page_size as int;
    lemma_found_stands(s, f, page_size);
    assert(0 * ps == 0);
    assert(page_of(g, 0u64 as int, ps) == page_of(f, 0u64 as int, ps));
    assert(f.take(ps) =~= page_of(f, 0, ps));
    assert(g.take(ps) =~= page_of(g, 0, ps));
    assert(f.subrange(0, 20) =~= f.take(ps).subrange(0, 20));
    assert(g.subrange(0, 20) =~= g.take(ps).subrange(0, 20));
    assert forall|sel: MetaSelector| #[trigger] meta_at(g, sel, page_size) == meta_at(
        f,
        sel,
        page_size,
    ) && page_of(g, sel.page_id() as int, ps) == page_of(f, sel.page_id() as int, ps) by {
        let q = sel.page_id();
        assert(page_of(g, q as int, ps) == page_of(f, q as int, ps));
    }
    let refs = parse_section(f.take(ps))->0;
    lemma_blocks_still_load(s, f, g, page_size);
    let sb = load_superblock(f, page_size)->Ok_0;
    assert(load_superblock(g, page_size) == Ok::<Superblock, MappedPageError>(sb));
    assert(load_meta(g, sb, page_size) == load_meta(f, sb, page_size)) by {
        assert(meta_at(g, sb.active_meta, page_size) == meta_at(f, sb.active_meta, page_size));
        assert(meta_at(g, sb.active_meta.other(), page_size) == meta_at(
            f,
            sb.active_meta.other(),
            page_size,
        ));
    }
    lemma_recover(g, page_size, sb, refs, s);
}

/// A newly created file holds the state of a fresh pager, so it can be opened.
pub proof fn law_fresh_file_in_sync(page_size: usize)
    requires
        valid_page_size(page_size),
    ensures
        StateView::fresh().in_sync(fresh_file(page_size), page_size),
        recover(fresh_file(page_size), page_size) == Ok::<
            StateView,
            MappedPageError,
        >(StateView::fresh()),
{
    let ps = page_size as int;
    let s = StateView::fresh();
    let f = fresh_file(page_size);
    let meta = s.meta.encode(ps);
    law_meta_round_trip(s.meta, ps);
    law_superblock_round_trip(superblock_of(page_size, s.active, crc32_of(meta)), Seq::empty());
    law_dir_blocks_round_trip(
        s.blocks,
        superblock_of(page_size, s.active, crc32_of(meta)).encode(),
        page_size,
    );
    assert(0 * ps == 0 && 1 * ps == ps);
    assert(page_of(f, 0, ps) =~= page0_of(page_size, s.active, crc32_of(meta), s.blocks));
    assert(page_of(f, 1, ps) =~= meta);
    assert(meta_at(f, s.active, page_size) == Some(s.meta));
    law_in_sync_recovers(s, f, page_size);
}

// ── Completed commits ─────────────────────────────────────────────────────────

/// The plan's pages are as long as a page.
pub proof fn lemma_plan_pages(s: StateView, page_size: usize, sel: MetaSelector, checksum: u32)
    requires
        valid_page_size(page_size),
        s.wf(page_size),
    ensures
        s.meta.encode(page_size as int).len() == page_size,
        page0_of(page_size, sel, checksum, s.blocks).len() == page_size,
        forall|i: int|
            0 <= i < s.dirs.len() ==> (#[trigger] s.dirs[i]).encode(page_size as int).len()
                == page_size,
{
    let sb = superblock_of(page_size, sel, checksum);
    law_meta_round_trip(s.meta, page_size as int);
    law_superblock_round_trip(sb, Seq::empty());
    law_dir_blocks_round_trip(s.blocks, sb.encode(), page_size);
    assert forall|i: int| 0 <= i < s.dirs.len() implies (#[trigger] s.dirs[i]).encode(
        page_size as int,
    ).len() == page_size by {
        law_dir_page_round_trip(s.dirs[i], page_size as int);
    }
}

/// Once a metadata commit is carried out on a file that was opened with the state
/// `d`, the file holds the committed state in order, whatever the new metadata are.
pub proof fn law_commit_reaches_file(d: StateView, s: StateView, f: Seq<u8>, page_size: usize)
    requires
        valid_page_size(page_size),
        d.found_in(f, page_size),
        s.wf(page_size),
        s == (StateView { meta: s.meta, ..d }),
    ensures
        s.committed().in_sync(run(f, s.commit_plan(page_size)), page_size),
        recover(run(f, s.commit_plan(page_size)), page_size) == Ok::<
            StateView,
            MappedPageError,
        >(s.committed()),
{
    let ps = page_size as int;
    let page = s.meta.encode(ps);
    let target = s.active.other();
    let g = run(f, s.commit_plan(page_size));
    lemma_found_stands(d, f, page_size);
    lemma_plan_pages(s, page_size, target, crc32_of(page));
    lemma_low_page_in_map(target.page_id(), page_size, f.len() as int);
    lemma_run_two_phase(
        f,
        target.page_id(),
        page,
        page0_of(page_size, target, crc32_of(page), s.blocks),
        page_size,
    );
    law_meta_round_trip(s.meta, ps);
    let c = s.committed();
    assert forall|i: int| 0 <= i < c.blocks.len() implies dir_page_at(
        g,
        #[trigger] c.active_dir(i),
        page_size,
    ) == Some(c.dirs[i]) by {
        assert(c.active_dir(i) == d.active_dir(i));
        assert(FIRST_DATA_PAGE <= d.blocks[i].copy(d.blocks[i].active));
    }
    assert forall|i: int, sel: MetaSelector| 0 <= i < c.blocks.len() implies {
        let phys = #[trigger] c.blocks[i].copy(sel);
        FIRST_DATA_PAGE <= phys && page_in_map(phys, page_size, g.len() as int)
    } by {
        assert(FIRST_DATA_PAGE <= d.blocks[i].copy(sel));
    }
    law_in_sync_recovers(c, g, page_size);
}

/// The directory of `s` is that of `d` with directory page `idx` changed, or with
/// a new block `idx` at the end.
pub open spec fn dir_differs_at(d: StateView, s: StateView, idx: int) -> bool {
    &&& 0 <= idx < s.blocks.len()
    &&& s.active == d.active
    &&& (s.blocks == d.blocks || d.blocks == s.blocks.drop_last() && idx == s.blocks.len() - 1)
    &&& s.dirs.len() == s.blocks.len()
    &&& forall|i: int|
        0 <= i < d.blocks.len() && i != idx ==> #[trigger] s.dirs[i] == d.dirs[i]
}

/// The state `d` with the directory of `s`, directory page `idx` committed.
pub open spec fn with_dir_of(d: StateView, s: StateView, idx: int) -> StateView {
    StateView { meta: d.meta, ..s.dir_committed(idx) }
}

/// Once a directory commit is carried out on a file that was opened with the state
/// `d`, the file holds the committed directory in order, and the metadata as they
/// were.
pub proof fn law_dir_commit_reaches_file(
    d: StateView,
    s: StateView,
    idx: int,
    f: Seq<u8>,
    page_size: usize,
)
    requires
        valid_page_size(page_size),
        d.found_in(f, page_size),
        s.wf(page_size),
        s.laid_out(f.len() as int, page_size),
        dir_differs_at(d, s, idx),
    ensures
        with_dir_of(d, s, idx).in_sync(run(f, s.dir_plan(idx, f, page_size)), page_size),
        recover(run(f, s.dir_plan(idx, f, page_size)), page_size) == Ok::<
            StateView,
            MappedPageError,
        >(with_dir_of(d, s, idx)),
{
    let ps = page_size as int;
    let block = s.blocks[idx];
    let phys = block.copy(block.active.other());
    let page = s.dirs[idx].encode(ps);
    let c = with_dir_of(d, s, idx);
    let a = s.active.page_id();
    let checksum = crc32_of(page_of(f, a as int, ps));
    let g = run(f, s.dir_plan(idx, f, page_size));
    assert(FIRST_DATA_PAGE <= phys);
    lemma_found_stands(d, f, page_size);
    lemma_plan_pages(s, page_size, s.active, checksum);
    lemma_plan_pages(c, page_size, s.active, checksum);
    let page0 = page0_of(page_size, s.active, checksum, c.blocks);
    lemma_run_two_phase(f, phys, page, page0, page_size);
    lemma_low_page_in_map(a, page_size, f.len() as int);
    law_dir_page_round_trip(s.dirs[idx], ps);
    assert(page_of(g, a as int, ps) == page_of(f, a as int, ps));
    assert forall|i: int, sel: MetaSelector| 0 <= i < c.blocks.len() implies #[trigger] c.blocks[i].copy(
        sel,
    ) == s.blocks[i].copy(sel) by {}
    assert forall|i: int| 0 <= i < c.blocks.len() implies dir_page_at(
        g,
        #[trigger] c.active_dir(i),
        page_size,
    ) == Some(c.dirs[i]) by {
        if i == idx {
            assert(c.active_dir(i) == phys);
        } else {
            assert(s.blocks[i] == d.blocks[i]);
            assert(c.active_dir(i) == d.active_dir(i));
            assert(s.blocks[i].copy(s.blocks[i].active) != s.blocks[idx].copy(
                block.active.other(),
            ));
        }
    }
    law_in_sync_recovers(c, g, page_size);
}

/// The copies that the file points to are never overwritten in place: a metadata
/// commit touches no byte of the active metadata page, and a directory commit
/// none of it nor of any active directory page.
pub proof fn law_active_copies_untouched(s: StateView, f: Seq<u8>, page_size: usize, k: int, i: int)
    requires
        valid_page_size(page_size),
        s.wf(page_size),
        s.laid_out(f.len() as int, page_size),
        0 <= k < 4,
    ensures
        s.active.page_id() * page_size <= i < s.active.page_id() * page_size + page_size
            ==> !s.commit_plan(page_size)[k].touches(i),
        forall|idx: int|
            0 <= idx < s.blocks.len() && s.active.page_id() * page_size <= i
                < s.active.page_id() * page_size + page_size ==> !(#[trigger] s.dir_plan(
                idx,
                f,
                page_size,
            ))[k].touches(i),
        forall|idx: int, j: int|
            0 <= idx < s.blocks.len() && 0 <= j < s.blocks.len() && #[trigger] s.active_dir(j)
                * page_size <= i < s.active_dir(j) * page_size + page_size
                ==> !(#[trigger] s.dir_plan(idx, f, page_size))[k].touches(i),
{
    let ps = page_size as int;
    let a = s.active.page_id() as int;
    let t = s.active.other().page_id() as int;
    let page = s.meta.encode(ps);
    lemma_plan_pages(s, page_size, s.active.other(), crc32_of(page));
    lemma_page_order(0, a, ps);
    lemma_page_order(0, t, ps);
    if a < t {
        lemma_page_order(a, t, ps);
    } else {
        lemma_page_order(t, a, ps);
    }
    assert(0 * ps == 0);
    assert forall|idx: int|
        0 <= idx < s.blocks.len() && a * ps <= i < a * ps + ps implies !(#[trigger] s.dir_plan(
        idx,
        f,
        page_size,
    ))[k].touches(i) by {
        assert(FIRST_DATA_PAGE <= s.blocks[idx].copy(s.blocks[idx].active.other()));
        lemma_dir_plan_misses(s, f, page_size, k, i, idx, a);
    }
    assert forall|idx: int, j: int|
        0 <= idx < s.blocks.len() && 0 <= j < s.blocks.len() && #[trigger] s.active_dir(j)
            * page_size <= i < s.active_dir(j) * page_size + page_size implies !(
    #[trigger] s.dir_plan(idx, f, page_size))[k].touches(i) by {
        assert(FIRST_DATA_PAGE <= s.blocks[j].copy(s.blocks[j].active));
        assert(s.blocks[j].copy(s.blocks[j].active) != s.blocks[idx].copy(
            s.blocks[idx].active.other(),
        ));
        lemma_dir_plan_misses(s, f, page_size, k, i, idx, s.active_dir(j) as int);
    }
}

/// A directory plan touches no byte of a page that is neither page 0 nor the copy
/// it writes.
proof fn lemma_dir_plan_misses(
    s: StateView,
    f: Seq<u8>,
    page_size: usize,
    k: int,
    i: int,
    idx: int,
    q: int,
)
    requires
        valid_page_size(page_size),
        s.wf(page_size),
        0 <= k < 4,
        0 <= idx < s.blocks.len(),
        0 < q,
        0 < s.blocks[idx].copy(s.blocks[idx].active.other()),
        q != s.blocks[idx].copy(s.blocks[idx].active.other()),
        q * page_size <= i < q * page_size + page_size,
    ensures
        !s.dir_plan(idx, f, page_size)[k].touches(i),
{
    let ps = page_size as int;
    let block = s.blocks[idx];
    let phys = block.copy(block.active.other());
    let dir = s.dirs[idx].encode(ps);
    let c = s.dir_committed(idx);
    let sum = crc32_of(s.meta_page_beside(f, phys, dir, page_size));
    lemma_plan_pages(s, page_size, s.active, sum);
    lemma_plan_pages(c, page_size, s.active, sum);
    assert(0 * ps == 0);
    lemma_page_order(0, q, ps);
    if q < phys {
        lemma_page_order(q, phys as int, ps);
    } else {
        lemma_page_order(phys as int, q, ps);
    }
}

// ── Crashes ───────────────────────────────────────────────────────────────────

/// What a crash leaves of the pages of a plan's two halves after `n` steps.
pub proof fn lemma_crash_two_phase(
    f: Seq<u8>,
    phys: u64,
    page: Seq<u8>,
    page0: Seq<u8>,
    page_size: usize,
    n: int,
    g: Seq<u8>,
)
    requires
        0 < page_size,
        0 < phys,
        page.len() == page_size,
        page0.len() == page_size,
        page_in_map(phys, page_size, f.len() as int),
        0 <= n <= 4,
        crash_leaves(f, two_phase(phys, page, page0, page_size).take(n), g),
    ensures
        g.len() == f.len(),
        forall|q: u64|
            0 < q && q != phys && page_in_map(q, page_size, f.len() as int)
                ==> #[trigger] page_of(g, q as int, page_size as int) == page_of(
                f,
                q as int,
                page_size as int,
            ),
        n <= 2 ==> page_of(g, 0, page_size as int) == page_of(f, 0, page_size as int),
        n >= 2 ==> page_of(g, phys as int, page_size as int) == page,
        forall|i: int| 0 <= i < page_size ==> #[trigger] g[i] == f[i] || g[i] == page0[i],
        n == 4 ==> page_of(g, 0, page_size as int) == page0,
{
    let ps = page_size as int;
    let steps = two_phase(phys, page, page0, page_size);
    let off = phys * ps;
    lemma_page_len(f, phys, page_size);
    lemma_page_order(0, phys as int, ps);
    assert(0 * ps == 0);
    reveal_with_fuel(run, 5);
    reveal_with_fuel(may_hold, 5);
    assert(steps.take(0) =~= seq![]);
    assert(steps.take(1).drop_last() =~= steps.take(0));
    assert(steps.take(2).drop_last() =~= steps.take(1));
    assert(steps.take(3).drop_last() =~= steps.take(2));
    assert(steps.take(4).drop_last() =~= steps.take(3));
    assert forall|i: int| 0 <= i < f.len() implies {
        &&& (i < ps ==> g[i] == f[i] || g[i] == page0[i])
        &&& (i < ps && n <= 2 ==> g[i] == f[i])
        &&& (i < ps && n == 4 ==> g[i] == page0[i])
        &&& (off <= i < off + ps && n >= 2 ==> g[i] == page[i - off])
        &&& (ps <= i < off || off + ps <= i ==> g[i] == f[i])
    } by {
        assert(may_hold(f, steps.take(n), i, g[i]));
    }
    assert forall|q: u64|
        0 < q && q != phys && page_in_map(q, page_size, f.len() as int) implies #[trigger] page_of(
        g,
        q as int,
        ps,
    ) == page_of(f, q as int, ps) by {
        lemma_page_len(f, q, page_size);
        lemma_page_order(0, q as int, ps);
        if q < phys {
            lemma_page_order(q as int, phys as int, ps);
        } else {
            lemma_page_order(phys as int, q as int, ps);
        }
        assert(page_of(g, q as int, ps) =~= page_of(f, q as int, ps));
    }
    if n <= 2 {
        assert(page_of(g, 0, ps) =~= page_of(f, 0, ps));
    }
    if n >= 2 {
        assert(page_of(g, phys as int, ps) =~= page);
    }
    if n == 4 {
        assert(page_of(g, 0, ps) =~= page0);
    }
}

/// The state still stands in `g` if `g` agrees with `f` on page 0, on the active
/// metadata page and on the active directory pages.
proof fn lemma_still_in_sync(s: StateView, f: Seq<u8>, g: Seq<u8>, page_size: usize)
    requires
        s.in_sync(f, page_size),
        g.len() == f.len(),
        page_of(g, 0, page_size as int) == page_of(f, 0, page_size as int),
        page_of(g, s.active.page_id() as int, page_size as int) == page_of(
            f,
            s.active.page_id() as int,
            page_size as int,
        ),
        forall|i: int|
            0 <= i < s.blocks.len() ==> page_of(
                g,
                #[trigger] s.active_dir(i) as int,
                page_size as int,
            ) == page_of(f, s.active_dir(i) as int, page_size as int),
    ensures
        s.in_sync(g, page_size),
{
    lemma_same_dirs(s, f, g, page_size);
}

/// The active copies of the directory blocks hold what they held.
proof fn lemma_same_dirs(s: StateView, f: Seq<u8>, g: Seq<u8>, page_size: usize)
    requires
        s.dirs_in(f, page_size),
        g.len() == f.len(),
        forall|i: int|
            0 <= i < s.blocks.len() ==> page_of(
                g,
                #[trigger] s.active_dir(i) as int,
                page_size as int,
            ) == page_of(f, s.active_dir(i) as int, page_size as int),
    ensures
        s.dirs_in(g, page_size),
{
    assert forall|i: int| 0 <= i < s.blocks.len() implies dir_page_at(
        g,
        #[trigger] s.active_dir(i),
        page_size,
    ) == Some(s.dirs[i]) by {
        assert(dir_page_at(f, s.active_dir(i), page_size) == Some(s.dirs[i]));
    }
}

/// Pages 0 to 3 lie in every file that is long enough to be opened.
proof fn lemma_low_page_in_map(phys: u64, page_size: usize, len: int)
    requires
        phys <= 3,
        4 * page_size <= len,
    ensures
        page_in_map(phys, page_size, len),
{
    assert((phys + 1) * page_size <= 4 * page_size) by (nonlinear_arith)
        requires
            phys <= 3,
    ;
}

/// A superblock with each byte taken from one that can be read or from one that is
/// written can be read.
proof fn lemma_mixed_superblock(f: Seq<u8>, g: Seq<u8>, sb: Superblock, page_size: usize)
    requires
        valid_page_size(page_size),
        load_superblock(f, page_size) is Ok,
        g.len() == f.len(),
        sb == superblock_of(page_size, sb.active_meta, sb.meta_checksum),
        forall|i: int| 0 <= i < 20 ==> #[trigger] g[i] == f[i] || g[i] == sb.encode()[i],
    ensures
        load_superblock(g, page_size) is Ok,
{
    broadcast use crate::bytes::lemma_le32;
    broadcast use crate::bytes::lemma_le64;

    let before = f.subrange(0, 20);
    let d = g.subrange(0, 20);
    let was = Superblock::parse(before)->0;
    let found = Superblock::parse(d)->0;
    vstd::bytes::lemma_auto_spec_u64_to_from_le_bytes();
    vstd::bytes::lemma_auto_spec_u32_to_from_le_bytes();
    lemma_log2_is_u32(page_size);
    law_magic_is_compatible(sb, sb);
    law_superblock_round_trip(sb, Seq::empty());
    let e = sb.encode();
    assert(e.subrange(0, 8) =~= le64(sb.magic));
    assert(e.subrange(8, 12) =~= le32(sb.page_size_log2));
    let n = was.page_size_log2 as nat;
    let m = sb.page_size_log2 as nat;
    if n < m {
        vstd::arithmetic::power2::lemma_pow2_strictly_increases(n, m);
    } else if m < n {
        vstd::arithmetic::power2::lemma_pow2_strictly_increases(m, n);
    }
    assert(before.subrange(8, 12) =~= le32(was.page_size_log2));
    assert(d.subrange(8, 12) =~= le32(was.page_size_log2)) by {
        assert forall|i: int| 0 <= i < 4 implies d.subrange(8, 12)[i] == le32(
            was.page_size_log2,
        )[i] by {
            assert(g[i + 8] == f[i + 8] || g[i + 8] == e[i + 8]);
            assert(before.subrange(8, 12)[i] == f[i + 8]);
            assert(e.subrange(8, 12)[i] == e[i + 8]);
        }
    }
    assert(MetaSelector::spec_from_byte(d[12]) is Some) by {
        assert(g[12] == f[12] || g[12] == e[12]);
    }
    assert(le64(found.magic) =~= d.subrange(0, 8));
    assert(le64(was.magic) =~= before.subrange(0, 8));
    assert forall|i: int| 0 <= i < 6 implies #[trigger] le64(found.magic)[i] == le64(
        was.magic,
    )[i] by {
        assert(g[i] == f[i] || g[i] == e[i]);
        assert(before.subrange(0, 8)[i] == f[i]);
        assert(e.subrange(0, 8)[i] == e[i]);
    }
    assert(le64(found.magic).take(6) =~= le64(was.magic).take(6));
    law_magic_is_compatible(found, was);
}

/// The directory section of page 0 reads as the references `a` or `b`.
pub open spec fn section_reads(
    g: Seq<u8>,
    page_size: usize,
    a: Seq<DirBlockRef>,
    b: Seq<DirBlockRef>,
) -> bool {
    let found = parse_section(g.take(page_size as int));
    found == Some(a) || found == Some(b)
}

/// The directory section reads as the old or the new references if it reached
/// the file as a whole or not at all.
pub proof fn law_whole_section_reads(
    f: Seq<u8>,
    r: Seq<u8>,
    g: Seq<u8>,
    page_size: usize,
    a: Seq<DirBlockRef>,
    b: Seq<DirBlockRef>,
)
    requires
        valid_page_size(page_size),
        page_size <= f.len(),
        r.len() == f.len(),
        g.len() == f.len(),
        parse_section(f.take(page_size as int)) == Some(a),
        parse_section(r.take(page_size as int)) == Some(b),
        g.subrange(20, page_size as int) == f.subrange(20, page_size as int) || g.subrange(
            20,
            page_size as int,
        ) == r.subrange(20, page_size as int),
    ensures
        section_reads(g, page_size, a, b),
{
    if g.subrange(20, page_size as int) == f.subrange(20, page_size as int) {
        lemma_same_section(f, g, page_size);
    } else {
        lemma_same_section(r, g, page_size);
    }
}

/// The directory section is read from byte 20 on alone.
proof fn lemma_same_section(f: Seq<u8>, g: Seq<u8>, page_size: usize)
    requires
        28 <= page_size <= f.len(),
        g.len() == f.len(),
        g.subrange(20, page_size as int) == f.subrange(20, page_size as int),
    ensures
        parse_section(g.take(page_size as int)) == parse_section(f.take(page_size as int)),
{
    let ps = page_size as int;
    let x = f.take(ps);
    let y = g.take(ps);
    assert forall|i: int| 20 <= i < ps implies x[i] == y[i] by {
        assert(g.subrange(20, ps)[i - 20] == f.subrange(20, ps)[i - 20]);
    }
    assert(x.subrange(20, 24) =~= y.subrange(20, 24));
    assert(x.subrange(20, ps) =~= y.subrange(20, ps));
    let count = u32_at(x, 20);
    if count <= spec_max_dir_blocks(page_size) {
        assert forall|i: int|
            #![trigger ref_at(x, i)]
            #![trigger ref_at(y, i)]
            0 <= i < count implies ref_at(x, i) == ref_at(y, i) by {
            assert(x.subrange(24 + 17 * i, 24 + 17 * i + 17) =~= y.subrange(
                24 + 17 * i,
                24 + 17 * i + 17,
            ));
        }
        if parse_section(x) is Some && parse_section(y) is Some {
            assert(parse_section(x)->0 =~= parse_section(y)->0);
        }
    }
}

/// The references of the directory section of page 0.
pub open spec fn section_of(f: Seq<u8>, page_size: usize) -> Seq<DirBlockRef> {
    parse_section(f.take(page_size as int))->0
}

/// Page 0 of `f` does not vouch for the metadata page `sel` as it stands in `g`: it
/// names the other one, or the page is not sound, or its checksum is another.
pub open spec fn not_vouched(
    f: Seq<u8>,
    g: Seq<u8>,
    sel: MetaSelector,
    page_size: usize,
) -> bool {
    let sb = load_superblock(f, page_size)->Ok_0;
    ||| sb.active_meta != sel
    ||| meta_at(g, sel, page_size) is None
    ||| crc32_of(page_of(g, sel.page_id() as int, page_size as int)) != sb.meta_checksum
}

impl StateView {
    /// A metadata commit on the file `f`, from which this state was opened, that a
    /// crash stops after `n` steps and of which it leaves `g`, leads to no third state:
    /// page 0 does not vouch for a torn metadata page, and the references to the
    /// directory are torn by no write.
    ///
    /// That is so of every crash if the file holds the state in order.
    pub open spec fn spares_commit(
        self,
        f: Seq<u8>,
        g: Seq<u8>,
        page_size: usize,
        n: int,
    ) -> bool {
        &&& n == 1 ==> not_vouched(f, g, self.active.other(), page_size)
        &&& n == 3 ==> section_reads(g, page_size, section_of(f, page_size), self.blocks)
    }
}

/// The first metadata commit after opening a file, also with an alternate page, after
/// a crash that tore page 0, or without a directory section: wherever it stops, the
/// file is opened with the old state or with the new one, unless page 0 vouches for a
/// torn metadata page or the references to the directory are torn.
pub proof fn law_first_commit_survives_crash(
    d: StateView,
    s: StateView,
    f: Seq<u8>,
    page_size: usize,
    n: int,
    g: Seq<u8>,
)
    requires
        valid_page_size(page_size),
        d.found_in(f, page_size),
        s.wf(page_size),
        s == (StateView { meta: s.meta, ..d }),
        0 <= n <= 4,
        crash_leaves(f, s.commit_plan(page_size).take(n), g),
        d.spares_commit(f, g, page_size, n),
    ensures
        ({
            let found = recover(g, page_size);
            ||| found == Ok::<StateView, MappedPageError>(d)
            ||| found == Ok::<StateView, MappedPageError>(s.committed())
        }),
        n <= 1 ==> recover(g, page_size) == Ok::<StateView, MappedPageError>(d),
        n == 4 ==> recover(g, page_size) == Ok::<StateView, MappedPageError>(
            s.committed(),
        ),
{
    let ps = page_size as int;
    let page = s.meta.encode(ps);
    let target = s.active.other();
    let c = s.committed();
    let new_sum = crc32_of(page);
    let page0 = page0_of(page_size, target, new_sum, s.blocks);
    let refs = section_of(f, page_size);
    let was = load_superblock(f, page_size)->Ok_0;
    lemma_found_stands(d, f, page_size);
    lemma_plan_pages(s, page_size, target, new_sum);
    lemma_low_page_in_map(target.page_id(), page_size, f.len() as int);
    lemma_low_page_in_map(d.active.page_id(), page_size, f.len() as int);
    lemma_crash_two_phase(f, target.page_id(), page, page0, page_size, n, g);
    assert forall|i: int, sel: MetaSelector| 0 <= i < d.blocks.len() implies page_of(
        g,
        #[trigger] d.blocks[i].copy(sel) as int,
        ps,
    ) == page_of(f, d.blocks[i].copy(sel) as int, ps) by {
        assert(FIRST_DATA_PAGE <= d.blocks[i].copy(sel));
    }
    assert forall|i: int| 0 <= i < d.blocks.len() implies page_of(
        g,
        #[trigger] d.active_dir(i) as int,
        ps,
    ) == page_of(f, d.active_dir(i) as int, ps) by {
        let sel = d.blocks[i].active;
        assert(page_of(g, d.blocks[i].copy(sel) as int, ps) == page_of(
            f,
            d.blocks[i].copy(sel) as int,
            ps,
        ));
    }
    lemma_blocks_still_load(d, f, g, page_size);
    lemma_same_dirs(d, f, g, page_size);
    lemma_blocks_load(g, d, page_size);
    law_meta_round_trip(s.meta, ps);
    assert(load_meta(f, was, page_size) == Some((d.active, d.meta))) by {
        reveal(recover);
    }
    assert(load_superblock(f, page_size) == Ok::<Superblock, MappedPageError>(was)) by {
        reveal(recover);
    }
    assert(0 * ps == 0);
    assert(f.take(ps) =~= page_of(f, 0, ps));
    assert(g.take(ps) =~= page_of(g, 0, ps));
    if n <= 2 {
        assert(f.subrange(0, 20) =~= f.take(ps).subrange(0, 20));
        assert(g.subrange(0, 20) =~= g.take(ps).subrange(0, 20));
        assert(load_superblock(g, page_size) == Ok::<Superblock, MappedPageError>(was));
        if n == 0 {
            assert(g =~= f) by {
                assert forall|i: int| 0 <= i < f.len() implies g[i] == f[i] by {
                    assert(s.commit_plan(page_size).take(0).len() == 0);
                    assert(may_hold(f, s.commit_plan(page_size).take(0), i, g[i]));
                }
            }
        }
        if load_meta(g, was, page_size) == Some((d.active, d.meta)) {
            lemma_recover(g, page_size, was, refs, d);
        } else {
            lemma_recover(g, page_size, was, refs, c);
        }
    } else {
        let sb = superblock_of(page_size, target, new_sum);
        law_superblock_round_trip(sb, Seq::empty());
        assert forall|i: int| 0 <= i < 20 implies #[trigger] g[i] == f[i] || g[i]
            == sb.encode()[i] by {
            assert(page0[i] == sb.encode()[i]);
        }
        lemma_mixed_superblock(f, g, sb, page_size);
        let found = load_superblock(g, page_size)->Ok_0;
        if n == 4 {
            lemma_page0_reads_back(g, page_size, target, new_sum, s.blocks);
        }
        let read = section_of(g, page_size);
        if load_meta(g, found, page_size) == Some((d.active, d.meta)) {
            lemma_recover(g, page_size, found, read, d);
        } else {
            lemma_recover(g, page_size, found, read, c);
        }
    }
}

/// A file that holds a state in order spares every metadata commit: page 0 names the
/// other metadata page, and the references to the directory do not change.
pub proof fn law_order_spares_commit(
    d: StateView,
    s: StateView,
    f: Seq<u8>,
    page_size: usize,
    n: int,
    g: Seq<u8>,
)
    requires
        valid_page_size(page_size),
        d.in_sync(f, page_size),
        s.wf(page_size),
        s == (StateView { meta: s.meta, ..d }),
        0 <= n <= 4,
        crash_leaves(f, s.commit_plan(page_size).take(n), g),
    ensures
        d.spares_commit(f, g, page_size, n),
{
    let ps = page_size as int;
    let page = s.meta.encode(ps);
    let target = s.active.other();
    let old_sum = crc32_of(page_of(f, d.active.page_id() as int, ps));
    let old0 = page0_of(page_size, d.active, old_sum, d.blocks);
    let page0 = page0_of(page_size, target, crc32_of(page), s.blocks);
    lemma_plan_pages(s, page_size, target, crc32_of(page));
    lemma_plan_pages(s, page_size, d.active, old_sum);
    lemma_low_page_in_map(target.page_id(), page_size, f.len() as int);
    lemma_crash_two_phase(f, target.page_id(), page, page0, page_size, n, g);
    lemma_page0_reads_back(f, page_size, d.active, old_sum, d.blocks);
    law_superblock_round_trip(superblock_of(page_size, d.active, old_sum), Seq::empty());
    law_superblock_round_trip(superblock_of(page_size, target, crc32_of(page)), Seq::empty());
    assert(0 * ps == 0);
    assert(g.subrange(20, ps) =~= f.subrange(20, ps)) by {
        assert forall|i: int| 20 <= i < ps implies g[i] == f[i] by {
            assert(g[i] == f[i] || g[i] == page0[i]);
            assert(f[i] == page_of(f, 0, ps)[i]);
            assert(old0[i] == page0[i]);
        }
    }
    lemma_same_section(f, g, page_size);
}

/// Wherever a metadata commit stops, and however the bytes under way are torn,
/// the file is opened with the old state or with the new one.
pub proof fn law_commit_survives_crash(
    d: StateView,
    s: StateView,
    f: Seq<u8>,
    page_size: usize,
    n: int,
    g: Seq<u8>,
)
    requires
        valid_page_size(page_size),
        d.in_sync(f, page_size),
        s.wf(page_size),
        s == (StateView { meta: s.meta, ..d }),
        0 <= n <= 4,
        crash_leaves(f, s.commit_plan(page_size).take(n), g),
    ensures
        ({
            let found = recover(g, page_size);
            ||| found == Ok::<StateView, MappedPageError>(d)
            ||| found == Ok::<StateView, MappedPageError>(s.committed())
        }),
        n <= 2 ==> recover(g, page_size) == Ok::<StateView, MappedPageError>(d),
        n == 4 ==> recover(g, page_size) == Ok::<StateView, MappedPageError>(
            s.committed(),
        ),
{
    law_in_sync_recovers(d, f, page_size);
    law_order_spares_commit(d, s, f, page_size, n, g);
    law_first_commit_survives_crash(d, s, f, page_size, n, g);
    if n <= 2 {
        let ps = page_size as int;
        let page = s.meta.encode(ps);
        let target = s.active.other();
        let page0 = page0_of(page_size, target, crc32_of(page), s.blocks);
        lemma_plan_pages(s, page_size, target, crc32_of(page));
        lemma_low_page_in_map(target.page_id(), page_size, f.len() as int);
        lemma_low_page_in_map(d.active.page_id(), page_size, f.len() as int);
        lemma_crash_two_phase(f, target.page_id(), page, page0, page_size, n, g);
        assert forall|i: int| 0 <= i < d.blocks.len() implies page_of(
            g,
            #[trigger] d.active_dir(i) as int,
            ps,
        ) == page_of(f, d.active_dir(i) as int, ps) by {
            assert(FIRST_DATA_PAGE <= d.blocks[i].copy(d.blocks[i].active));
        }
        lemma_still_in_sync(d, f, g, page_size);
        law_in_sync_recovers(d, g, page_size);
    }
}

impl StateView {
    /// Page 0 of the file `g` leads to the metadata of this state.
    pub open spec fn meta_reads(self, g: Seq<u8>, page_size: usize) -> bool {
        &&& load_superblock(g, page_size) is Ok
        &&& load_meta(g, load_superblock(g, page_size)->Ok_0, page_size) == Some(
            (self.active, self.meta),
        )
    }

    /// A commit of directory page `idx` of the state `s` on the file `f`, from which
    /// this state was opened, that a crash stops after `n` steps and of which it leaves
    /// `g`, leads to no third state: the references do not name a torn copy that passes
    /// for a sound one, they are torn by no write, and page 0 leads to the same metadata.
    pub open spec fn spares_dir_commit(
        self,
        s: StateView,
        idx: int,
        f: Seq<u8>,
        g: Seq<u8>,
        page_size: usize,
        n: int,
    ) -> bool {
        let refs = section_of(f, page_size);
        let target = s.blocks[idx].active.other();
        &&& n == 1 && idx < refs.len() && refs[idx].active == target ==> dir_page_at(
            g,
            s.blocks[idx].copy(target),
            page_size,
        ) is None
        &&& n == 3 ==> section_reads(g, page_size, refs, with_dir_of(self, s, idx).blocks)
        &&& n == 3 ==> self.meta_reads(g, page_size)
    }
}

/// Page 0 leads to the same metadata if the superblock reached the file as a whole or
/// not at all.
pub proof fn law_whole_superblock_reads(
    d: StateView,
    f: Seq<u8>,
    r: Seq<u8>,
    g: Seq<u8>,
    page_size: usize,
)
    requires
        d.meta_reads(f, page_size),
        d.meta_reads(r, page_size),
        r.len() == f.len(),
        g.len() == f.len(),
        g.subrange(0, 20) == f.subrange(0, 20) || g.subrange(0, 20) == r.subrange(0, 20),
        forall|sel: MetaSelector|
            {
                let page = #[trigger] page_of(g, sel.page_id() as int, page_size as int);
                &&& page == page_of(f, sel.page_id() as int, page_size as int)
                &&& page == page_of(r, sel.page_id() as int, page_size as int)
            },
    ensures
        d.meta_reads(g, page_size),
{
    let ps = page_size as int;
    let sb = load_superblock(g, page_size)->Ok_0;
    let a = sb.active_meta;
    assert(page_of(g, a.page_id() as int, ps) == page_of(f, a.page_id() as int, ps));
    assert(page_of(g, a.other().page_id() as int, ps) == page_of(
        f,
        a.other().page_id() as int,
        ps,
    ));
}

/// The first directory commit after opening a file, also with an alternate page, after
/// a crash that tore page 0, or without a directory section: wherever it stops, the
/// file is opened with the old state or with the new one, as long as page 0 and the
/// references lead to no torn page.
pub proof fn law_first_dir_commit_survives_crash(
    d: StateView,
    s: StateView,
    idx: int,
    f: Seq<u8>,
    page_size: usize,
    n: int,
    g: Seq<u8>,
)
    requires
        valid_page_size(page_size),
        d.found_in(f, page_size),
        s.wf(page_size),
        s.laid_out(f.len() as int, page_size),
        dir_differs_at(d, s, idx),
        0 <= n <= 4,
        crash_leaves(f, s.dir_plan(idx, f, page_size).take(n), g),
        d.spares_dir_commit(s, idx, f, g, page_size, n),
    ensures
        ({
            let found = recover(g, page_size);
            ||| found == Ok::<StateView, MappedPageError>(d)
            ||| found == Ok::<StateView, MappedPageError>(with_dir_of(d, s, idx))
        }),
        n <= 1 ==> recover(g, page_size) == Ok::<StateView, MappedPageError>(d),
        n == 4 ==> recover(g, page_size) == Ok::<StateView, MappedPageError>(
            with_dir_of(d, s, idx),
        ),
{
    let ps = page_size as int;
    let block = s.blocks[idx];
    let target = block.active.other();
    let phys = block.copy(target);
    let page = s.dirs[idx].encode(ps);
    let c = with_dir_of(d, s, idx);
    let checksum = crc32_of(page_of(f, d.active.page_id() as int, ps));
    let page0 = page0_of(page_size, s.active, checksum, c.blocks);
    let refs = section_of(f, page_size);
    let was = load_superblock(f, page_size)->Ok_0;
    assert forall|i: int| 0 <= i < d.blocks.len() implies #[trigger] d.blocks[i]
        == s.blocks[i] by {}
    assert(FIRST_DATA_PAGE <= phys);
    lemma_found_stands(d, f, page_size);
    lemma_plan_pages(s, page_size, s.active, checksum);
    lemma_plan_pages(c, page_size, s.active, checksum);
    lemma_low_page_in_map(d.active.page_id(), page_size, f.len() as int);
    lemma_low_page_in_map(d.active.other().page_id(), page_size, f.len() as int);
    lemma_crash_two_phase(f, phys, page, page0, page_size, n, g);
    law_dir_page_round_trip(s.dirs[idx], ps);
    lemma_blocks_still_load(d, f, f, page_size);
    assert forall|i: int, sel: MetaSelector|
        0 <= i < d.blocks.len() && (i != idx || sel != target) implies page_of(
        g,
        #[trigger] d.blocks[i].copy(sel) as int,
        ps,
    ) == page_of(f, d.blocks[i].copy(sel) as int, ps) by {
        assert(FIRST_DATA_PAGE <= d.blocks[i].copy(sel));
        assert(d.blocks[i] == s.blocks[i]);
        assert(s.blocks[i].copy(sel) != s.blocks[idx].copy(target));
    }
    assert forall|i: int| 0 <= i < d.blocks.len() implies page_of(
        g,
        #[trigger] d.active_dir(i) as int,
        ps,
    ) == page_of(f, d.active_dir(i) as int, ps) by {
        let sel = d.blocks[i].active;
        assert(page_of(g, d.blocks[i].copy(sel) as int, ps) == page_of(
            f,
            d.blocks[i].copy(sel) as int,
            ps,
        ));
    }
    lemma_same_dirs(d, f, g, page_size);
    assert(load_meta(f, was, page_size) == Some((d.active, d.meta))) by {
        reveal(recover);
    }
    assert(load_superblock(f, page_size) == Ok::<Superblock, MappedPageError>(was)) by {
        reveal(recover);
    }
    if n == 0 {
        assert(g =~= f) by {
            assert forall|i: int| 0 <= i < f.len() implies g[i] == f[i] by {
                assert(s.dir_plan(idx, f, page_size).take(0).len() == 0);
                assert(may_hold(f, s.dir_plan(idx, f, page_size).take(0), i, g[i]));
            }
        }
    }
    assert(0 * ps == 0);
    assert(f.take(ps) =~= page_of(f, 0, ps));
    assert(g.take(ps) =~= page_of(g, 0, ps));
    assert(page_of(g, d.active.page_id() as int, ps) == page_of(
        f,
        d.active.page_id() as int,
        ps,
    ));
    assert(page_of(g, d.active.other().page_id() as int, ps) == page_of(
        f,
        d.active.other().page_id() as int,
        ps,
    ));
    // The block under way, as the old references name it.
    let t = if idx < refs.len() && refs[idx].active == target && n >= 2 {
        c
    } else {
        d
    };
    assert forall|i: int| 0 <= i < refs.len() implies #[trigger] load_block(g, refs[i], page_size)
        == Some((t.blocks[i], t.dirs[i])) by {
        assert(load_block(f, refs[i], page_size) == Some((d.blocks[i], d.dirs[i])));
        assert(dir_page_at(g, d.active_dir(i), page_size) == Some(d.dirs[i]));
        assert(refs[i].copy(MetaSelector::A) == d.blocks[i].copy(MetaSelector::A));
        assert(refs[i].copy(MetaSelector::B) == d.blocks[i].copy(MetaSelector::B));
        if i != idx {
            let other = d.blocks[i].active.other();
            assert(page_of(g, d.blocks[i].copy(other) as int, ps) == page_of(
                f,
                d.blocks[i].copy(other) as int,
                ps,
            ));
            assert(page_in_map(d.blocks[i].copy(other), page_size, f.len() as int));
        } else {
            assert(page_in_map(s.blocks[idx].copy(target), page_size, f.len() as int));
        }
    }
    if n <= 2 {
        assert(f.subrange(0, 20) =~= f.take(ps).subrange(0, 20));
        assert(g.subrange(0, 20) =~= g.take(ps).subrange(0, 20));
        lemma_recover(g, page_size, was, refs, t);
    } else {
        assert forall|i: int| 0 <= i < c.blocks.len() implies dir_page_at(
            g,
            #[trigger] c.active_dir(i),
            page_size,
        ) == Some(c.dirs[i]) by {
            if i != idx {
                assert(c.active_dir(i) == d.active_dir(i));
            } else {
                assert(page_in_map(s.blocks[idx].copy(target), page_size, f.len() as int));
            }
        }
        lemma_blocks_load(g, c, page_size);
        if n == 4 {
            lemma_page0_reads_back(g, page_size, s.active, checksum, c.blocks);
        }
        let sb = load_superblock(g, page_size)->Ok_0;
        if section_of(g, page_size) == c.blocks {
            lemma_recover(g, page_size, sb, c.blocks, c);
        } else {
            lemma_recover(g, page_size, sb, refs, t);
        }
    }
}

/// A file that holds a state in order spares every directory commit, as long as the
/// directory section of page 0 reads as the old or the new references.
pub proof fn law_order_spares_dir_commit(
    d: StateView,
    s: StateView,
    idx: int,
    f: Seq<u8>,
    page_size: usize,
    n: int,
    g: Seq<u8>,
)
    requires
        valid_page_size(page_size),
        d.in_sync(f, page_size),
        s.wf(page_size),
        s.laid_out(f.len() as int, page_size),
        dir_differs_at(d, s, idx),
        0 <= n <= 4,
        crash_leaves(f, s.dir_plan(idx, f, page_size).take(n), g),
        n == 3 ==> section_reads(g, page_size, d.blocks, with_dir_of(d, s, idx).blocks),
    ensures
        d.spares_dir_commit(s, idx, f, g, page_size, n),
{
    let ps = page_size as int;
    let block = s.blocks[idx];
    let phys = block.copy(block.active.other());
    let page = s.dirs[idx].encode(ps);
    let c = with_dir_of(d, s, idx);
    let checksum = crc32_of(page_of(f, d.active.page_id() as int, ps));
    let page0 = page0_of(page_size, s.active, checksum, c.blocks);
    let a = d.active.page_id();
    assert(FIRST_DATA_PAGE <= phys);
    lemma_plan_pages(s, page_size, s.active, checksum);
    lemma_plan_pages(c, page_size, s.active, checksum);
    lemma_plan_pages(d, page_size, s.active, checksum);
    lemma_low_page_in_map(a, page_size, f.len() as int);
    lemma_crash_two_phase(f, phys, page, page0, page_size, n, g);
    lemma_page0_reads_back(f, page_size, d.active, checksum, d.blocks);
    assert(page_of(g, a as int, ps) == page_of(f, a as int, ps));
    assert(0 * ps == 0);
    let sb = superblock_of(page_size, s.active, checksum);
    law_superblock_round_trip(sb, Seq::empty());
    let old0 = page_of(f, 0, ps);
    assert(g.subrange(0, 20) =~= f.subrange(0, 20)) by {
        assert forall|i: int| 0 <= i < 20 implies g[i] == f[i] by {
            assert(f[i] == old0[i]);
            assert(g[i] == f[i] || g[i] == page0[i]);
            assert(old0[i] == sb.encode()[i]);
            assert(page0[i] == sb.encode()[i]);
        }
    }
    assert forall|i: int| 0 <= i < d.blocks.len() implies #[trigger] d.blocks[i]
        == s.blocks[i] by {}
}

/// Wherever a directory commit stops, and however the bytes under way are torn,
/// the file is opened with the old state or with the new one, as long as the
/// directory section of page 0 reads as the old or the new references.
pub proof fn law_dir_commit_survives_crash(
    d: StateView,
    s: StateView,
    idx: int,
    f: Seq<u8>,
    page_size: usize,
    n: int,
    g: Seq<u8>,
)
    requires
        valid_page_size(page_size),
        d.in_sync(f, page_size),
        s.wf(page_size),
        s.laid_out(f.len() as int, page_size),
        dir_differs_at(d, s, idx),
        0 <= n <= 4,
        crash_leaves(f, s.dir_plan(idx, f, page_size).take(n), g),
        n == 3 ==> section_reads(g, page_size, d.blocks, with_dir_of(d, s, idx).blocks),
    ensures
        ({
            let found = recover(g, page_size);
            ||| found == Ok::<StateView, MappedPageError>(d)
            ||| found == Ok::<StateView, MappedPageError>(with_dir_of(d, s, idx))
        }),
        n <= 2 ==> recover(g, page_size) == Ok::<StateView, MappedPageError>(d),
        n == 4 ==> recover(g, page_size) == Ok::<StateView, MappedPageError>(
            with_dir_of(d, s, idx),
        ),
{
    law_in_sync_recovers(d, f, page_size);
    law_order_spares_dir_commit(d, s, idx, f, page_size, n, g);
    law_first_dir_commit_survives_crash(d, s, idx, f, page_size, n, g);
    if n <= 2 {
        let ps = page_size as int;
        let block = s.blocks[idx];
        let phys = block.copy(block.active.other());
        let page = s.dirs[idx].encode(ps);
        let checksum = crc32_of(page_of(f, d.active.page_id() as int, ps));
        let c = with_dir_of(d, s, idx);
        let page0 = page0_of(page_size, s.active, checksum, c.blocks);
        assert(FIRST_DATA_PAGE <= phys);
        lemma_plan_pages(s, page_size, s.active, checksum);
        lemma_plan_pages(c, page_size, s.active, checksum);
        lemma_low_page_in_map(d.active.page_id(), page_size, f.len() as int);
        lemma_crash_two_phase(f, phys, page, page0, page_size, n, g);
        assert forall|i: int| 0 <= i < d.blocks.len() implies page_of(
            g,
            #[trigger] d.active_dir(i) as int,
            ps,
        ) == page_of(f, d.active_dir(i) as int, ps) by {
            assert(s.blocks[i] == d.blocks[i]);
            assert(FIRST_DATA_PAGE <= d.blocks[i].copy(d.blocks[i].active));
            assert(s.blocks[i].copy(s.blocks[i].active) != s.blocks[idx].copy(
                block.active.other(),
            ));
        }
        lemma_still_in_sync(d, f, g, page_size);
        law_in_sync_recovers(d, g, page_size);
    }
}

/// Commits touch no data page but the directory copy that they write, wherever
/// they stop and however the bytes under way are torn: a metadata commit none at
/// all.
pub proof fn law_commits_keep_data_pages(
    s: StateView,
    idx: int,
    f: Seq<u8>,
    page_size: usize,
    n: int,
    g: Seq<u8>,
    q: u64,
)
    requires
        valid_page_size(page_size),
        s.wf(page_size),
        s.laid_out(f.len() as int, page_size),
        4 * page_size <= f.len(),
        0 <= n <= 4,
        FIRST_DATA_PAGE <= q,
        page_in_map(q, page_size, f.len() as int),
    ensures
        crash_leaves(f, s.commit_plan(page_size).take(n), g) ==> page_of(
            g,
            q as int,
            page_size as int,
        ) == page_of(f, q as int, page_size as int),
        0 <= idx < s.blocks.len() && crash_leaves(
            f,
            s.dir_plan(idx, f, page_size).take(n),
            g,
        ) && q != s.blocks[idx].copy(s.blocks[idx].active.other()) ==> page_of(
            g,
            q as int,
            page_size as int,
        ) == page_of(f, q as int, page_size as int),
{
    let ps = page_size as int;
    let page = s.meta.encode(ps);
    let target = s.active.other();
    lemma_plan_pages(s, page_size, target, crc32_of(page));
    lemma_low_page_in_map(target.page_id(), page_size, f.len() as int);
    if crash_leaves(f, s.commit_plan(page_size).take(n), g) {
        let page0 = page0_of(page_size, target, crc32_of(page), s.blocks);
        lemma_crash_two_phase(f, target.page_id(), page, page0, page_size, n, g);
    }
    if 0 <= idx < s.blocks.len() && crash_leaves(f, s.dir_plan(idx, f, page_size).take(n), g) {
        let block = s.blocks[idx];
        let phys = block.copy(block.active.other());
        let dir = s.dirs[idx].encode(ps);
        let c = s.dir_committed(idx);
        let sum = crc32_of(s.meta_page_beside(f, phys, dir, page_size));
        assert(FIRST_DATA_PAGE <= phys);
        lemma_plan_pages(s, page_size, s.active, sum);
        lemma_plan_pages(c, page_size, s.active, sum);
        let page0 = page0_of(page_size, s.active, sum, c.blocks);
        lemma_crash_two_phase(f, phys, dir, page0, page_size, n, g);
    }
}

/// Commits that are carried out touch no data page but the directory copy that they
/// write: a metadata commit none at all.
pub proof fn law_completed_commits_keep_data_pages(
    s: StateView,
    idx: int,
    f: Seq<u8>,
    page_size: usize,
    q: u64,
)
    requires
        valid_page_size(page_size),
        s.wf(page_size),
        4 * page_size <= f.len(),
        FIRST_DATA_PAGE <= q,
        page_in_map(q, page_size, f.len() as int),
    ensures
        page_of(run(f, s.commit_plan(page_size)), q as int, page_size as int) == page_of(
            f,
            q as int,
            page_size as int,
        ),
        0 <= idx < s.blocks.len() && s.laid_out(f.len() as int, page_size) && q
            != s.blocks[idx].copy(s.blocks[idx].active.other()) ==> page_of(
            run(f, s.dir_plan(idx, f, page_size)),
            q as int,
            page_size as int,
        ) == page_of(f, q as int, page_size as int),
{
    let ps = page_size as int;
    let page = s.meta.encode(ps);
    let target = s.active.other();
    lemma_plan_pages(s, page_size, target, crc32_of(page));
    lemma_low_page_in_map(target.page_id(), page_size, f.len() as int);
    lemma_run_two_phase(
        f,
        target.page_id(),
        page,
        page0_of(page_size, target, crc32_of(page), s.blocks),
        page_size,
    );
    if 0 <= idx < s.blocks.len() && s.laid_out(f.len() as int, page_size) {
        let block = s.blocks[idx];
        let phys = block.copy(block.active.other());
        let dir = s.dirs[idx].encode(ps);
        let c = s.dir_committed(idx);
        let sum = crc32_of(s.meta_page_beside(f, phys, dir, page_size));
        assert(FIRST_DATA_PAGE <= phys);
        lemma_plan_pages(s, page_size, s.active, sum);
        lemma_plan_pages(c, page_size, s.active, sum);
        lemma_run_two_phase(f, phys, dir, page0_of(page_size, s.active, sum, c.blocks), page_size);
    }
}

// ── Damaged copies ────────────────────────────────────────────────────────────

/// The pages of `g` that hold the state `d` are those of `f`, but for the active
/// metadata page.
pub open spec fn agree_but_meta(d: StateView, f: Seq<u8>, g: Seq<u8>, page_size: usize) -> bool {
    &&& g.len() == f.len()
    &&& page_of(g, 0, page_size as int) == page_of(f, 0, page_size as int)
    &&& forall|i: int|
        0 <= i < d.blocks.len() ==> page_of(g, #[trigger] d.active_dir(i) as int, page_size as int)
            == page_of(f, d.active_dir(i) as int, page_size as int)
}

/// A file whose active metadata page is damaged, so that its own checksum or the
/// one in the superblock does not match, is opened with the other metadata page;
/// if that is damaged as well, the file is refused.
pub proof fn law_damaged_metadata_falls_back(
    d: StateView,
    f: Seq<u8>,
    g: Seq<u8>,
    page_size: usize,
)
    requires
        valid_page_size(page_size),
        d.in_sync(f, page_size),
        agree_but_meta(d, f, g, page_size),
        meta_at(g, d.active, page_size) is None || crc32_of(
            page_of(g, d.active.page_id() as int, page_size as int),
        ) != crc32_of(page_of(f, d.active.page_id() as int, page_size as int)),
    ensures
        recover(g, page_size) == match meta_at(g, d.active.other(), page_size) {
            Some(m) => Ok(StateView { active: d.active.other(), meta: m, ..d }),
            None => Err(MappedPageError::CorruptMetadata),
        },
{
    reveal(recover);
    let checksum = crc32_of(page_of(f, d.active.page_id() as int, page_size as int));
    let sb = superblock_of(page_size, d.active, checksum);
    lemma_page0_reads_back(g, page_size, d.active, checksum, d.blocks);
    lemma_same_dirs(d, f, g, page_size);
    lemma_blocks_load(g, d, page_size);
    if let Some(m) = meta_at(g, d.active.other(), page_size) {
        let t = StateView { active: d.active.other(), meta: m, ..d };
        lemma_recover(g, page_size, sb, t.blocks, t);
    }
}

/// A file whose active copy of directory block `idx` is damaged is opened with the
/// other copy, which is then the active one; if that is damaged as well, the file
/// is refused.
pub proof fn law_damaged_directory_falls_back(
    d: StateView,
    f: Seq<u8>,
    g: Seq<u8>,
    idx: int,
    page_size: usize,
)
    requires
        valid_page_size(page_size),
        d.in_sync(f, page_size),
        0 <= idx < d.blocks.len(),
        g.len() == f.len(),
        page_of(g, 0, page_size as int) == page_of(f, 0, page_size as int),
        page_of(g, d.active.page_id() as int, page_size as int) == page_of(
            f,
            d.active.page_id() as int,
            page_size as int,
        ),
        forall|i: int|
            0 <= i < d.blocks.len() && i != idx ==> page_of(
                g,
                #[trigger] d.active_dir(i) as int,
                page_size as int,
            ) == page_of(f, d.active_dir(i) as int, page_size as int),
        dir_page_at(g, d.active_dir(idx), page_size) is None,
    ensures
        recover(g, page_size) == match dir_page_at(
            g,
            d.blocks[idx].copy(d.blocks[idx].active.other()),
            page_size,
        ) {
            Some(dir) => Ok(
                StateView {
                    blocks: d.blocks.update(idx, d.blocks[idx].flipped()),
                    dirs: d.dirs.update(idx, dir),
                    ..d
                },
            ),
            None => Err(MappedPageError::CorruptProtectedDirectory),
        },
{
    reveal(recover);
    let ps = page_size as int;
    let checksum = crc32_of(page_of(f, d.active.page_id() as int, ps));
    let block = d.blocks[idx];
    lemma_page0_reads_back(g, page_size, d.active, checksum, d.blocks);
    let other = dir_page_at(g, block.copy(block.active.other()), page_size);
    assert(d.active_dir(idx) == block.copy(block.active));
    assert forall|i: int| 0 <= i < d.blocks.len() && i != idx implies #[trigger] load_block(
        g,
        d.blocks[i],
        page_size,
    ) == Some((d.blocks[i], d.dirs[i])) by {
        let phys = d.blocks[i].copy(d.blocks[i].active);
        assert(d.active_dir(i) == phys);
        assert(dir_page_at(f, d.active_dir(i), page_size) == Some(d.dirs[i]));
    }
    match other {
        Some(dir) => {
            assert(load_block(g, d.blocks[idx], page_size) == Some((block.flipped(), dir)));
            let (blocks, dirs) = load_dirs(g, d.blocks, page_size)->0;
            assert(blocks =~= d.blocks.update(idx, block.flipped()));
            assert(dirs =~= d.dirs.update(idx, dir));
        },
        None => {
            assert(load_block(g, d.blocks[idx], page_size) is None);
        },
    }
}

// ── Other writes ──────────────────────────────────────────────────────────────

/// A write to a data page that is no copy of a directory block leaves the state of
/// the file as it is.
pub proof fn law_data_write_keeps_state(
    d: StateView,
    f: Seq<u8>,
    g: Seq<u8>,
    phys: u64,
    page_size: usize,
)
    requires
        valid_page_size(page_size),
        d.found_in(f, page_size),
        FIRST_DATA_PAGE <= phys,
        page_in_map(phys, page_size, f.len() as int),
        forall|i: int, sel: MetaSelector|
            0 <= i < d.blocks.len() ==> #[trigger] d.blocks[i].copy(sel) != phys,
        g.len() == f.len(),
        forall|k: int|
            0 <= k < f.len() && !(phys * page_size <= k < phys * page_size + page_size)
                ==> #[trigger] g[k] == f[k],
    ensures
        d.found_in(g, page_size),
        d.in_sync(f, page_size) ==> d.in_sync(g, page_size),
{
    let ps = page_size as int;
    lemma_found_stands(d, f, page_size);
    lemma_page_len(f, phys, page_size);
    assert forall|q: u64| q != phys && page_in_map(q, page_size, f.len() as int) implies #[trigger] page_of(
        g,
        q as int,
        ps,
    ) == page_of(f, q as int, ps) by {
        lemma_page_len(f, q, page_size);
        if q < phys {
            lemma_page_order(q as int, phys as int, ps);
        } else {
            lemma_page_order(phys as int, q as int, ps);
        }
        assert(page_of(g, q as int, ps) =~= page_of(f, q as int, ps));
    }
    lemma_agreeing_file(d, f, g, page_size);
}

/// Making the file longer leaves its state as it is.
pub proof fn law_growth_keeps_state(d: StateView, f: Seq<u8>, more: Seq<u8>, page_size: usize)
    requires
        valid_page_size(page_size),
        d.found_in(f, page_size),
    ensures
        d.found_in(f + more, page_size),
        d.in_sync(f, page_size) ==> d.in_sync(f + more, page_size),
{
    let ps = page_size as int;
    let g = f + more;
    lemma_found_stands(d, f, page_size);
    assert forall|q: u64| page_in_map(q, page_size, f.len() as int) implies #[trigger] page_of(
        g,
        q as int,
        ps,
    ) == page_of(f, q as int, ps) by {
        lemma_page_len(f, q, page_size);
        assert(page_of(g, q as int, ps) =~= page_of(f, q as int, ps));
    }
    assert forall|i: int, sel: MetaSelector| 0 <= i < d.blocks.len() implies {
        let phys = #[trigger] d.blocks[i].copy(sel);
        FIRST_DATA_PAGE <= phys && page_in_map(phys, page_size, g.len() as int)
    } by {
        assert(page_in_map(d.blocks[i].copy(sel), page_size, f.len() as int));
    }
    lemma_agreeing_file(d, f, g, page_size);
}

/// Cutting the file behind the copies of its directory blocks leaves its state as it
/// is.
pub proof fn law_cut_keeps_state(d: StateView, f: Seq<u8>, len: int, page_size: usize)
    requires
        valid_page_size(page_size),
        d.found_in(f, page_size),
        4 * page_size <= len <= f.len(),
        d.laid_out(len, page_size),
    ensures
        d.found_in(f.take(len), page_size),
        d.in_sync(f, page_size) ==> d.in_sync(f.take(len), page_size),
{
    let ps = page_size as int;
    let g = f.take(len);
    lemma_found_stands(d, f, page_size);
    assert forall|q: u64| page_in_map(q, page_size, len) implies #[trigger] page_of(
        g,
        q as int,
        ps,
    ) == page_of(f, q as int, ps) by {
        lemma_page_len(g, q, page_size);
        assert(page_of(g, q as int, ps) =~= page_of(f, q as int, ps));
    }
    lemma_agreeing_file(d, f, g, page_size);
}

/// A file that agrees with another on pages 0 to 2 and on all copies of the directory
/// blocks keeps what the other does.
proof fn lemma_agreeing_file(d: StateView, f: Seq<u8>, g: Seq<u8>, page_size: usize)
    requires
        valid_page_size(page_size),
        d.found_in(f, page_size),
        4 * page_size <= f.len(),
        4 * page_size <= g.len(),
        d.laid_out(g.len() as int, page_size),
        forall|q: u64|
            page_in_map(q, page_size, f.len() as int) && page_in_map(q, page_size, g.len() as int)
                && (q < FIRST_DATA_PAGE || exists|i: int, sel: MetaSelector|
                0 <= i < d.blocks.len() && #[trigger] d.blocks[i].copy(sel) == q)
                ==> #[trigger] page_of(g, q as int, page_size as int) == page_of(
                f,
                q as int,
                page_size as int,
            ),
    ensures
        d.found_in(g, page_size),
        d.in_sync(f, page_size) ==> d.in_sync(g, page_size),
{
    let ps = page_size as int;
    assert forall|q: u64| q < FIRST_DATA_PAGE implies #[trigger] page_of(g, q as int, ps)
        == page_of(f, q as int, ps) by {
        lemma_low_page_in_map(q, page_size, f.len() as int);
        lemma_low_page_in_map(q, page_size, g.len() as int);
    }
    assert forall|i: int, sel: MetaSelector| 0 <= i < d.blocks.len() implies page_of(
        g,
        #[trigger] d.blocks[i].copy(sel) as int,
        ps,
    ) == page_of(f, d.blocks[i].copy(sel) as int, ps) by {
        assert(page_in_map(d.blocks[i].copy(sel), page_size, f.len() as int));
        assert(page_in_map(d.blocks[i].copy(sel), page_size, g.len() as int));
    }
    lemma_still_found(d, f, g, page_size);
    if d.in_sync(f, page_size) {
        lemma_found_stands(d, g, page_size);
        assert(page_of(g, 0u64 as int, ps) == page_of(f, 0u64 as int, ps));
        let a = d.active.page_id();
        assert(page_of(g, a as int, ps) == page_of(f, a as int, ps));
    }
}

} // verus!
