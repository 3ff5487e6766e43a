//! A pager and its file together: an invariant that every operation keeps whose
//! I/O succeeds, and what is found in the file if the machine stops on the way.
//!
//! The laws start from any file that can be opened and in which no page serves twice
//! ([`PagerView::opened`]), and every commit leaves the file in order
//! ([`PagerView::sound`]).

use vstd::prelude::*;

use crate::bytes::page_of;
use crate::directory::DirEntry;
use crate::durability::{
    dir_differs_at, law_commit_reaches_file, law_completed_commits_keep_data_pages,
    law_cut_keeps_state, law_data_write_keeps_state, law_dir_commit_reaches_file,
    law_first_commit_survives_crash, law_first_dir_commit_survives_crash, law_fresh_file_in_sync,
    law_growth_keeps_state, law_in_sync_recovers, law_order_spares_commit,
    law_order_spares_dir_commit, lemma_found_stands, section_reads, with_dir_of,
};
use crate::error::MappedPageError;
use crate::growth::{
    among, increasing, law_pages_given_back, law_pages_handed_out, lemma_freed_all_frame,
    lemma_take_growing_fits,
};
use crate::image::{StateView, fresh_file, recover, valid_page_size};
use crate::meta::{
    FIRST_DATA_PAGE, MetaSelector, MetaView, law_fresh_is_accurate, law_mark_is_accurate,
    law_release_is_accurate,
};
use crate::ownership::{
    Owner, law_dir_commit_keeps_tidy, law_enter_keeps_tidy, law_free_protected_keeps_tidy,
    law_fresh_is_tidy, law_internal_is_owned, law_meta_keeps_tidy, law_reserved_pages_are_new,
    law_tidy_is_laid_out, law_write_keeps_tidy, law_write_seen_after_commit,
    law_write_unseen_before_commit, lemma_entry_differs, lemma_wf_sizes, lemma_with_page,
};
use crate::page::{page_in_map, with_page};
use crate::pager::PagerView;
use crate::plan::{crash_leaves, run};
use crate::protected::{Place, addressable};

verus! {

impl PagerView {
    /// The pager is available, opening the file `f` gives its state, the file has all
    /// its pages, its metadata are accurate, and no page serves twice.
    ///
    /// So it is after opening a file, also with an alternate page, after a crash that
    /// tore page 0, or without a directory section.
    pub open spec fn opened(self, f: Seq<u8>, page_size: usize) -> bool {
        &&& self.available
        &&& recover(f, page_size) == Ok::<StateView, MappedPageError>(self.state)
        &&& self.state.meta.accurate()
        &&& self.state.tidy()
        &&& self.state.meta.total_pages * page_size <= f.len()
    }

    /// The same, and the file holds the state in order: page 0 names the pages that
    /// hold it.  So it is once a commit is carried out.
    pub open spec fn sound(self, f: Seq<u8>, page_size: usize) -> bool {
        &&& self.available
        &&& self.state.in_sync(f, page_size)
        &&& self.state.meta.accurate()
        &&& self.state.tidy()
        &&& self.state.meta.total_pages * page_size <= f.len()
    }

    /// A metadata commit that a crash stops after `n` steps, and of which it leaves `g`,
    /// leads to no third state: the file holds the state in order, or the crash tears
    /// nothing that page 0 leads to.
    pub open spec fn spares_commit(
        self,
        f: Seq<u8>,
        g: Seq<u8>,
        page_size: usize,
        n: int,
    ) -> bool {
        self.sound(f, page_size) || self.state.spares_commit(f, g, page_size, n)
    }

    /// The same of a commit of directory page `idx` of the state `t`.  Also where the
    /// file holds the state in order, the directory section of page 0 has to read as the
    /// old or the new references.
    pub open spec fn spares_dir_commit(
        self,
        t: StateView,
        idx: int,
        f: Seq<u8>,
        g: Seq<u8>,
        page_size: usize,
        n: int,
    ) -> bool {
        ||| self.sound(f, page_size) && (n == 3 ==> section_reads(
            g,
            page_size,
            self.state.blocks,
            t.dir_committed(idx).blocks,
        ))
        ||| self.state.spares_dir_commit(t, idx, f, g, page_size, n)
    }

    /// The metadata `m` can be committed in place of those of this pager, in a file
    /// of `len` bytes: they are accurate and fit, there is a next generation, the
    /// file has their pages, and the pages in use stay allocated.
    pub open spec fn committable(self, m: MetaView, len: int, page_size: usize) -> bool {
        &&& m.accurate()
        &&& m.fits(page_size as int)
        &&& m.generation < u64::MAX
        &&& m.total_pages * page_size <= len
        &&& forall|id: int|
            self.state.internal(id) && self.state.meta.allocated(id) ==> #[trigger] m.allocated(id)
    }

    /// Directory page `idx` of the state `t` can be committed in place of that of
    /// this pager: nothing else differs, and no page serves twice.
    pub open spec fn dir_committable(self, t: StateView, idx: int, page_size: usize) -> bool {
        &&& dir_differs_at(self.state, t, idx)
        &&& t.meta == self.state.meta
        &&& t.wf(page_size)
        &&& t.tidy()
    }
}

/// The file `g` is opened with the state `a` or with the state `b`.
pub open spec fn opens_as(g: Seq<u8>, page_size: usize, a: StateView, b: StateView) -> bool {
    let found = recover(g, page_size);
    ||| found == Ok::<StateView, MappedPageError>(a)
    ||| found == Ok::<StateView, MappedPageError>(b)
}

/// A new pager is sound with its new file.
pub proof fn law_created_pager_is_sound(page_size: usize)
    requires
        valid_page_size(page_size),
    ensures
        (PagerView { available: true, state: StateView::fresh() }).sound(
            fresh_file(page_size),
            page_size,
        ),
{
    law_fresh_file_in_sync(page_size);
    law_fresh_is_accurate(4);
    law_fresh_is_tidy();
}

/// A pager that is sound with its file is the one that is opened from it.
pub proof fn law_sound_pager_is_reopened(v: PagerView, f: Seq<u8>, page_size: usize)
    requires
        valid_page_size(page_size),
        v.sound(f, page_size),
    ensures
        v.opened(f, page_size),
{
    law_in_sync_recovers(v.state, f, page_size);
}

/// What was opened can be written again, and its directory is laid out in the file.
pub proof fn lemma_opened(v: PagerView, f: Seq<u8>, page_size: usize)
    requires
        valid_page_size(page_size),
        v.opened(f, page_size),
    ensures
        v.state.wf(page_size),
        4 * page_size <= f.len(),
        v.state.found_in(f, page_size),
{
    lemma_found_stands(v.state, f, page_size);
    law_tidy_is_laid_out(v.state, f.len() as int, page_size);
}

/// A pager stays opened from its file, and sound with it, when the file is made
/// longer.
pub proof fn law_longer_file_keeps_sound(
    v: PagerView,
    f: Seq<u8>,
    more: Seq<u8>,
    page_size: usize,
)
    requires
        valid_page_size(page_size),
        v.opened(f, page_size),
    ensures
        v.opened(f + more, page_size),
        v.sound(f, page_size) ==> v.sound(f + more, page_size),
{
    lemma_opened(v, f, page_size);
    law_growth_keeps_state(v.state, f, more, page_size);
}

/// A pager stays opened from its file, and sound with it, when the file is cut behind
/// its pages.
pub proof fn law_cut_file_keeps_sound(v: PagerView, f: Seq<u8>, len: int, page_size: usize)
    requires
        valid_page_size(page_size),
        v.opened(f, page_size),
        v.state.meta.total_pages * page_size <= len <= f.len(),
    ensures
        v.opened(f.take(len), page_size),
        v.sound(f, page_size) ==> v.sound(f.take(len), page_size),
{
    let total = v.state.meta.total_pages;
    lemma_opened(v, f, page_size);
    law_tidy_is_laid_out(v.state, len, page_size);
    assert(4 * page_size <= total * page_size) by (nonlinear_arith)
        requires
            4 <= total,
    ;
    law_cut_keeps_state(v.state, f, len, page_size);
}

/// Writing to a data page that is no copy of a directory block keeps a pager opened
/// from its file, and sound with it.  So does writing to a regular page, or to a copy
/// of a protected page.
pub proof fn law_page_write_keeps_sound(
    v: PagerView,
    f: Seq<u8>,
    phys: u64,
    new: Seq<u8>,
    page_size: usize,
)
    requires
        valid_page_size(page_size),
        v.opened(f, page_size),
        FIRST_DATA_PAGE <= phys,
        page_in_map(phys, page_size, f.len() as int),
        forall|i: int|
            0 <= i < v.state.blocks.len() ==> !#[trigger] v.state.backs_block(i, phys as int),
        new.len() == page_size,
    ensures
        v.opened(with_page(f, phys as int, page_size as int, new), page_size),
        v.sound(f, page_size) ==> v.sound(
            with_page(f, phys as int, page_size as int, new),
            page_size,
        ),
{
    let ps = page_size as int;
    let g = with_page(f, phys as int, ps, new);
    assert(phys * ps + ps == (phys + 1) * ps && 0 <= phys * ps) by (nonlinear_arith)
        requires
            0 < ps,
    ;
    assert forall|i: int, sel: MetaSelector| 0 <= i < v.state.blocks.len() implies #[trigger]
        v.state.blocks[i].copy(sel) != phys by {
        assert(!v.state.backs_block(i, phys as int));
    }
    lemma_opened(v, f, page_size);
    law_data_write_keeps_state(v.state, f, g, phys, page_size);
}

/// Committing new metadata, under which the pages in use stay allocated, leaves a
/// pager sound; and wherever the commit stops, the file is opened with the old
/// state or with the new one.
pub proof fn law_metadata_commit_keeps_sound(
    v: PagerView,
    m: MetaView,
    f: Seq<u8>,
    page_size: usize,
    n: int,
    g: Seq<u8>,
)
    requires
        valid_page_size(page_size),
        v.opened(f, page_size),
        v.committable(m, f.len() as int, page_size),
        0 <= n <= 4,
    ensures
        ({
            let w = v.with_meta(m).bumped();
            let plan = w.state.commit_plan(page_size);
            &&& w.committed().sound(run(f, plan), page_size)
            &&& v.spares_commit(f, g, page_size, n) && crash_leaves(f, plan.take(n), g)
                ==> opens_as(g, page_size, v.state, w.committed().state)
        }),
{
    let w = v.with_meta(m).bumped();
    let s = w.state;
    let plan = s.commit_plan(page_size);
    assert(s == (StateView { meta: s.meta, ..v.state }));
    assert(s.meta.accurate());
    assert forall|id: int| v.state.internal(id) && v.state.meta.allocated(id) implies #[trigger]
        s.meta.allocated(id) by {
        assert(m.allocated(id));
    }
    lemma_opened(v, f, page_size);
    law_meta_keeps_tidy(v.state, s);
    law_meta_keeps_tidy(s, s.committed());
    law_commit_reaches_file(v.state, s, f, page_size);
    lemma_run_len(f, plan);
    if v.spares_commit(f, g, page_size, n) && crash_leaves(f, plan.take(n), g) {
        if v.sound(f, page_size) {
            law_order_spares_commit(v.state, s, f, page_size, n, g);
        }
        law_first_commit_survives_crash(v.state, s, f, page_size, n, g);
    }
}

/// Carrying out steps does not change the length of a file.
proof fn lemma_run_len(f: Seq<u8>, steps: Seq<crate::plan::StepView>)
    ensures
        run(f, steps).len() == f.len(),
    decreases steps.len(),
{
    if steps.len() > 0 {
        lemma_run_len(f, steps.drop_last());
    }
}

/// Pages that are reserved can be committed, once the file has them.
pub proof fn lemma_reserved_is_committable(
    base: PagerView,
    want: nat,
    f: Seq<u8>,
    len: int,
    page_size: usize,
)
    requires
        valid_page_size(page_size),
        base.opened(f, page_size),
        base.state.meta.can_take(want, page_size),
        base.state.meta.generation < u64::MAX,
        base.state.meta.take_growing(want).0.total_pages * page_size <= len,
    ensures
        base.committable(base.state.meta.take_growing(want).0, len, page_size),
{
    lemma_opened(base, f, page_size);
    law_pages_handed_out(base.state.meta, want, page_size);
    lemma_take_growing_fits(base.state.meta, want, page_size);
}

/// A regular page that is free again can be committed.
pub proof fn lemma_freed_is_committable(base: PagerView, id: u64, f: Seq<u8>, page_size: usize)
    requires
        valid_page_size(page_size),
        base.opened(f, page_size),
        base.state.regular(id as int),
        base.state.meta.generation < u64::MAX,
    ensures
        base.committable(base.state.meta.release(id), f.len() as int, page_size),
{
    let m = base.state.meta;
    lemma_opened(base, f, page_size);
    law_release_is_accurate(m, id);
    assert forall|j: int| base.state.internal(j) && m.allocated(j) implies #[trigger] m.release(
        id,
    ).allocated(j) by {
        assert(m.release(id).allocated(j) <==> j != id && m.allocated(j));
    }
}

/// Regular pages that are free again can be committed.
pub proof fn lemma_freed_all_is_committable(
    base: PagerView,
    ids: Seq<u64>,
    f: Seq<u8>,
    page_size: usize,
)
    requires
        valid_page_size(page_size),
        base.opened(f, page_size),
        ids.no_duplicates(),
        forall|i: int| 0 <= i < ids.len() ==> base.state.regular(#[trigger] ids[i] as int),
        base.state.meta.free_count + ids.len() <= u64::MAX,
        base.state.meta.generation < u64::MAX,
    ensures
        base.committable(base.state.meta.freed_all(ids), f.len() as int, page_size),
{
    let m = base.state.meta;
    lemma_opened(base, f, page_size);
    assert forall|i: int| 0 <= i < ids.len() implies FIRST_DATA_PAGE <= #[trigger] ids[i]
        && m.allocated(ids[i] as int) by {
        assert(base.state.regular(ids[i] as int));
    }
    law_pages_given_back(m, ids);
    lemma_freed_all_frame(m, ids);
    assert forall|j: int| base.state.internal(j) && m.allocated(j) implies #[trigger] m.freed_all(
        ids,
    ).allocated(j) by {
        if among(ids, j) {
            let i = choose|i: int| 0 <= i < ids.len() && ids[i] == j;
            assert(base.state.regular(ids[i] as int));
        }
    }
}

/// Allocating a free page leaves a pager sound and is durable: the page is
/// allocated when the file is opened again.
pub proof fn law_allocation_keeps_sound(
    v: PagerView,
    id: u64,
    f: Seq<u8>,
    page_size: usize,
    n: int,
    g: Seq<u8>,
)
    requires
        valid_page_size(page_size),
        v.opened(f, page_size),
        v.state.meta.lowest_free() == Some(id),
        v.state.meta.generation < u64::MAX,
        0 <= n <= 4,
    ensures
        ({
            let w = v.with_meta(v.state.meta.mark(id)).bumped();
            let plan = w.state.commit_plan(page_size);
            &&& w.committed().sound(run(f, plan), page_size)
            &&& w.committed().state.regular(id as int)
            &&& !v.state.meta.allocated(id as int)
            &&& v.spares_commit(f, g, page_size, n) && crash_leaves(f, plan.take(n), g)
                ==> opens_as(g, page_size, v.state, w.committed().state)
        }),
{
    let m = v.state.meta;
    lemma_opened(v, f, page_size);
    law_mark_is_accurate(m, id);
    law_metadata_commit_keeps_sound(v, m.mark(id), f, page_size, n, g);
    let w = v.with_meta(m.mark(id)).bumped().committed();
    assert(w.state.meta.allocated(id as int)) by {
        assert(m.mark(id).allocated(id as int));
    }
    lemma_free_page_is_not_internal(v.state, w.state, id);
}

/// A page that is not allocated serves nothing.
proof fn lemma_free_page_is_not_internal(s: StateView, t: StateView, id: u64)
    requires
        s.tidy(),
        t.blocks == s.blocks,
        t.dirs == s.dirs,
        !s.meta.allocated(id as int),
    ensures
        !t.internal(id as int),
{
    law_internal_is_owned(s, id as int);
    law_internal_is_owned(t, id as int);
    if t.internal(id as int) {
        let o = choose|o: Owner|
            t.holds(o) && #[trigger] t.page_for(o) == id as int;
        assert(s.holds(o) && s.page_for(o) == id);
    }
}

/// Reserving several pages and committing them together leaves a pager sound, once
/// the file is long enough; the pages are distinct regular pages.
pub proof fn law_reservation_keeps_sound(
    v: PagerView,
    count: nat,
    f: Seq<u8>,
    page_size: usize,
    n: int,
    g: Seq<u8>,
)
    requires
        valid_page_size(page_size),
        v.opened(f, page_size),
        v.state.meta.can_take(count, page_size),
        v.state.meta.generation < u64::MAX,
        v.state.meta.take_growing(count).0.total_pages * page_size <= f.len(),
        0 <= n <= 4,
    ensures
        ({
            let (m, ids) = v.state.meta.take_growing(count);
            let w = v.with_meta(m).bumped();
            let plan = w.state.commit_plan(page_size);
            &&& w.committed().sound(run(f, plan), page_size)
            &&& ids.len() == count
            &&& increasing(ids)
            &&& forall|i: int|
                0 <= i < ids.len() ==> w.committed().state.regular(#[trigger] ids[i] as int)
            &&& v.spares_commit(f, g, page_size, n) && crash_leaves(f, plan.take(n), g)
                ==> opens_as(g, page_size, v.state, w.committed().state)
        }),
{
    lemma_reserved_is_committable(v, count, f, f.len() as int, page_size);
    law_pages_handed_out(v.state.meta, count, page_size);
    law_reserved_pages_are_new(v.state, count, page_size);
    let (m, ids) = v.state.meta.take_growing(count);
    law_metadata_commit_keeps_sound(v, m, f, page_size, n, g);
    let t = StateView { meta: m, ..v.state };
    let c = v.with_meta(m).bumped().committed().state;
    assert forall|i: int| 0 <= i < ids.len() implies c.regular(#[trigger] ids[i] as int) by {
        assert(t.meta.allocated(ids[i] as int));
        assert(!t.internal(ids[i] as int));
        assert(!v.state.meta.allocated(ids[i] as int));
        lemma_free_page_is_not_internal(v.state, c, ids[i]);
    }
}

/// Freeing a regular page leaves a pager sound and is durable: the page is free
/// when the file is opened again.
pub proof fn law_release_keeps_sound(
    v: PagerView,
    id: u64,
    f: Seq<u8>,
    page_size: usize,
    n: int,
    g: Seq<u8>,
)
    requires
        valid_page_size(page_size),
        v.opened(f, page_size),
        v.state.regular(id as int),
        v.state.meta.generation < u64::MAX,
        0 <= n <= 4,
    ensures
        ({
            let w = v.with_meta(v.state.meta.release(id)).bumped();
            let plan = w.state.commit_plan(page_size);
            &&& w.committed().sound(run(f, plan), page_size)
            &&& !w.committed().state.meta.allocated(id as int)
            &&& v.spares_commit(f, g, page_size, n) && crash_leaves(f, plan.take(n), g)
                ==> opens_as(g, page_size, v.state, w.committed().state)
        }),
{
    let m = v.state.meta;
    law_release_is_accurate(m, id);
    lemma_freed_is_committable(v, id, f, page_size);
    law_metadata_commit_keeps_sound(v, m.release(id), f, page_size, n, g);
    assert(!m.release(id).allocated(id as int));
}

/// Freeing several regular pages together, each named once, leaves a pager sound
/// and is durable: the pages are free when the file is opened again, and no other
/// is.
pub proof fn law_releases_keep_sound(
    v: PagerView,
    ids: Seq<u64>,
    f: Seq<u8>,
    page_size: usize,
    n: int,
    g: Seq<u8>,
)
    requires
        valid_page_size(page_size),
        v.opened(f, page_size),
        ids.no_duplicates(),
        forall|i: int| 0 <= i < ids.len() ==> v.state.regular(#[trigger] ids[i] as int),
        v.state.meta.free_count + ids.len() <= u64::MAX,
        v.state.meta.generation < u64::MAX,
        0 <= n <= 4,
    ensures
        ({
            let w = v.with_meta(v.state.meta.freed_all(ids)).bumped();
            let plan = w.state.commit_plan(page_size);
            &&& w.committed().sound(run(f, plan), page_size)
            &&& forall|j: int|
                #[trigger] w.committed().state.meta.allocated(j) <==> v.state.meta.allocated(j)
                    && !among(ids, j)
            &&& v.spares_commit(f, g, page_size, n) && crash_leaves(f, plan.take(n), g)
                ==> opens_as(g, page_size, v.state, w.committed().state)
        }),
{
    let m = v.state.meta;
    assert forall|i: int| 0 <= i < ids.len() implies FIRST_DATA_PAGE <= #[trigger] ids[i]
        && m.allocated(ids[i] as int) by {
        assert(v.state.regular(ids[i] as int));
    }
    law_pages_given_back(m, ids);
    lemma_freed_all_is_committable(v, ids, f, page_size);
    law_metadata_commit_keeps_sound(v, m.freed_all(ids), f, page_size, n, g);
    let c = v.with_meta(m.freed_all(ids)).bumped().committed().state;
    assert forall|j: int| #[trigger] c.meta.allocated(j) <==> m.allocated(j) && !among(ids, j) by {
        assert(m.freed_all(ids).allocated(j) <==> m.allocated(j) && !among(ids, j));
    }
}

/// Committing a directory page leaves a pager sound if the new directory is tidy;
/// and wherever the commit stops, the file is opened with the old state or with
/// the new one, as long as the directory section of page 0 reads as the old or the
/// new references.
pub proof fn law_directory_commit_keeps_sound(
    v: PagerView,
    t: StateView,
    idx: int,
    f: Seq<u8>,
    page_size: usize,
    n: int,
    g: Seq<u8>,
)
    requires
        valid_page_size(page_size),
        v.opened(f, page_size),
        v.dir_committable(t, idx, page_size),
        0 <= n <= 4,
    ensures
        ({
            let plan = t.dir_plan(idx, f, page_size);
            let c = t.dir_committed(idx);
            &&& v.with_state(c).sound(run(f, plan), page_size)
            &&& v.spares_dir_commit(t, idx, f, g, page_size, n) && crash_leaves(
                f,
                plan.take(n),
                g,
            ) ==> opens_as(
                g,
                page_size,
                v.state,
                c,
            )
        }),
{
    let plan = t.dir_plan(idx, f, page_size);
    let c = t.dir_committed(idx);
    lemma_opened(v, f, page_size);
    law_tidy_is_laid_out(t, f.len() as int, page_size);
    law_dir_commit_keeps_tidy(t, idx);
    assert(with_dir_of(v.state, t, idx) == c);
    law_dir_commit_reaches_file(v.state, t, idx, f, page_size);
    lemma_run_len(f, plan);
    if v.spares_dir_commit(t, idx, f, g, page_size, n) && crash_leaves(f, plan.take(n), g) {
        if v.sound(f, page_size) && (n == 3 ==> section_reads(
            g,
            page_size,
            v.state.blocks,
            c.blocks,
        )) {
            law_order_spares_dir_commit(v.state, t, idx, f, page_size, n, g);
        }
        law_first_dir_commit_survives_crash(v.state, t, idx, f, page_size, n, g);
    }
}

/// The entry of a new protected page, whose pages are reserved and committed, can
/// be committed.
pub proof fn lemma_entry_is_committable(
    v: PagerView,
    place: Place,
    pages: Seq<u64>,
    f: Seq<u8>,
    page_size: usize,
)
    requires
        valid_page_size(page_size),
        addressable(page_size),
        v.state.wf(page_size),
        v.state.tidy(),
        v.state.place(page_size) == Ok::<Place, MappedPageError>(place),
        pages.len() == place.pages(),
        increasing(pages),
        forall|i: int| 0 <= i < pages.len() ==> v.state.regular(#[trigger] pages[i] as int),
    ensures
        v.dir_committable(
            v.state.entered(place, pages, f, page_size),
            place.block(v.state),
            page_size,
        ),
{
    let d = v.state;
    let t = d.entered(place, pages, f, page_size);
    assert forall|i: int| 0 <= i < pages.len() implies {
        &&& FIRST_DATA_PAGE <= #[trigger] pages[i]
        &&& d.meta.allocated(pages[i] as int)
        &&& !d.internal(pages[i] as int)
    } by {
        assert(d.regular(pages[i] as int));
    }
    crate::protected::lemma_open_slot(d, 0);
    lemma_wf_sizes(d, page_size);
    law_enter_keeps_tidy(d, place, pages, f, page_size);
    match place {
        Place::Slot { block: b, slot: k } => {
            let e = t.dirs[b as int].entries[k as int];
            assert(t =~= d.with_entry(b as int, k as int, e));
            lemma_entry_differs(d, b as int, k as int, e, page_size);
        },
        Place::NewBlock => {
            assert(t.blocks.drop_last() =~= d.blocks);
            assert forall|i: int| 0 <= i < t.dirs.len() implies (#[trigger] t.dirs[i]).fits(
                page_size as int,
            ) by {
                if i < d.dirs.len() {
                    assert(d.dirs[i].fits(page_size as int));
                }
            }
        },
    }
}

/// Entering a protected page, whose pages are reserved and committed, leaves a pager
/// sound and is durable: the page is found when the file is opened again.
pub proof fn law_protected_alloc_keeps_sound(
    v: PagerView,
    place: Place,
    pages: Seq<u64>,
    f: Seq<u8>,
    page_size: usize,
    n: int,
    g: Seq<u8>,
)
    requires
        valid_page_size(page_size),
        addressable(page_size),
        v.opened(f, page_size),
        v.state.place(page_size) == Ok::<Place, MappedPageError>(place),
        pages.len() == place.pages(),
        increasing(pages),
        forall|i: int| 0 <= i < pages.len() ==> v.state.regular(#[trigger] pages[i] as int),
        0 <= n <= 4,
    ensures
        ({
            let block = place.block(v.state);
            let t = v.state.entered(place, pages, f, page_size);
            let plan = t.dir_plan(block, f, page_size);
            let c = t.dir_committed(block);
            &&& v.with_state(c).sound(run(f, plan), page_size)
            &&& v.spares_dir_commit(t, block, f, g, page_size, n) && crash_leaves(
                f,
                plan.take(n),
                g,
            ) ==> opens_as(
                g,
                page_size,
                v.state,
                c,
            )
        }),
{
    let block = place.block(v.state);
    let t = v.state.entered(place, pages, f, page_size);
    lemma_opened(v, f, page_size);
    lemma_entry_is_committable(v, place, pages, f, page_size);
    law_directory_commit_keeps_sound(v, t, block, f, page_size, n, g);
}

/// The entry of a protected page can be committed as free.
pub proof fn lemma_release_is_committable(v: PagerView, id: u64, page_size: usize)
    requires
        valid_page_size(page_size),
        v.state.wf(page_size),
        v.state.tidy(),
        v.state.free_protected_refusal(id, page_size) is None,
        v.state.meta.free_count + 2 <= u64::MAX,
    ensures
        v.dir_committable(
            v.entry_freed(id, page_size).state,
            StateView::block_of(id, page_size),
            page_size,
        ),
{
    let d = v.state;
    let e = d.entry(id, page_size)->0;
    let b = StateView::block_of(id, page_size);
    let k = StateView::slot_of(id, page_size);
    let freed = DirEntry { in_use: false, ..e };
    let t = v.entry_freed(id, page_size).state;
    assert(d.slot_in_use(b, k));
    assert(t == d.with_entry(b, k, freed));
    lemma_entry_differs(d, b, k, freed, page_size);
    law_free_protected_keeps_tidy(d, b, k);
}

/// Once the entry of a protected page is committed as free, the release of its
/// copies can be committed.
pub proof fn lemma_copies_are_committable(v: PagerView, id: u64, len: int, page_size: usize)
    requires
        valid_page_size(page_size),
        v.state.wf(page_size),
        v.state.tidy(),
        v.state.meta.accurate(),
        v.state.meta.total_pages * page_size <= len,
        v.state.free_protected_refusal(id, page_size) is None,
        v.state.meta.generation < u64::MAX,
        v.state.meta.free_count + 2 <= u64::MAX,
    ensures
        ({
            let e = v.state.entry(id, page_size)->0;
            let block = StateView::block_of(id, page_size);
            let c = v.with_state(v.entry_freed(id, page_size).state.dir_committed(block));
            let m = c.state.meta.freed(e.page_a).freed(e.page_b);
            &&& c.committable(m, len, page_size)
            &&& !m.allocated(e.page_a as int)
            &&& !m.allocated(e.page_b as int)
        }),
{
    let d = v.state;
    let e = d.entry(id, page_size)->0;
    let b = StateView::block_of(id, page_size);
    let k = StateView::slot_of(id, page_size);
    let t = v.entry_freed(id, page_size).state;
    let c = v.with_state(t.dir_committed(b));
    assert(d.slot_in_use(b, k));
    law_free_protected_keeps_tidy(d, b, k);
    law_dir_commit_keeps_tidy(t, b);
    let m = d.meta;
    let pair = seq![e.page_a, e.page_b];
    let both = m.freed(e.page_a).freed(e.page_b);
    let x = Owner::Slot(b, k, false);
    let y = Owner::Slot(b, k, true);
    assert(d.page_for(x) == e.page_a && d.page_for(y) == e.page_b);
    assert(d.page_for(x) != d.page_for(y));
    assert(pair.drop_last() =~= seq![e.page_a]);
    assert(seq![e.page_a].drop_last() =~= Seq::empty());
    assert(m.freed_all(Seq::empty()) == m);
    assert(m.freed_all(seq![e.page_a]) == m.freed(e.page_a));
    assert(m.freed_all(pair) == both);
    law_pages_given_back(m, pair);
    lemma_freed_all_frame(m, pair);
    assert forall|j: int| c.state.internal(j) && c.state.meta.allocated(j) implies #[trigger]
        both.allocated(j) by {
        law_internal_is_owned(c.state, j);
        law_internal_is_owned(t, j);
        let o = choose|o: Owner|
            c.state.holds(o) && #[trigger] c.state.page_for(o) == j;
        assert(t.holds(o) && t.page_for(o) == j);
        if among(pair, j) {
            assert(j == e.page_a || j == e.page_b);
            assert(t.internal(j));
        }
    }
    assert(among(pair, e.page_a as int)) by {
        assert(pair[0] == e.page_a);
    }
    assert(among(pair, e.page_b as int)) by {
        assert(pair[1] == e.page_b);
    }
}

/// Freeing the entry of a protected page, and then its copies, leaves a pager sound
/// at both commits; and wherever the first stops, the file is opened with the old
/// state or with the entry free, wherever the second stops, with the copies
/// allocated to nothing or free.
pub proof fn law_protected_free_keeps_sound(
    v: PagerView,
    id: u64,
    f: Seq<u8>,
    page_size: usize,
    n: int,
    g: Seq<u8>,
)
    requires
        valid_page_size(page_size),
        v.opened(f, page_size),
        v.free_protected_refusal(id, page_size) is None,
        v.state.meta.generation < u64::MAX,
        v.state.meta.free_count + 2 <= u64::MAX,
        0 <= n <= 4,
    ensures
        ({
            let e = v.state.entry(id, page_size)->0;
            let block = StateView::block_of(id, page_size);
            let t = v.entry_freed(id, page_size).state;
            let plan = t.dir_plan(block, f, page_size);
            let c = v.with_state(t.dir_committed(block));
            let f1 = run(f, plan);
            let w = c.copies_freed(e.page_a, e.page_b).bumped();
            let plan1 = w.state.commit_plan(page_size);
            &&& c.sound(f1, page_size)
            &&& w.committed().sound(run(f1, plan1), page_size)
            &&& v.spares_dir_commit(t, block, f, g, page_size, n) && crash_leaves(
                f,
                plan.take(n),
                g,
            ) ==> opens_as(
                g,
                page_size,
                v.state,
                c.state,
            )
            &&& crash_leaves(f1, plan1.take(n), g) ==> opens_as(
                g,
                page_size,
                c.state,
                w.committed().state,
            )
            &&& !w.committed().state.meta.allocated(e.page_a as int)
            &&& !w.committed().state.meta.allocated(e.page_b as int)
        }),
{
    let e = v.state.entry(id, page_size)->0;
    let b = StateView::block_of(id, page_size);
    let t = v.entry_freed(id, page_size).state;
    let plan = t.dir_plan(b, f, page_size);
    let c = v.with_state(t.dir_committed(b));
    let f1 = run(f, plan);
    let both = c.state.meta.freed(e.page_a).freed(e.page_b);
    lemma_opened(v, f, page_size);
    lemma_release_is_committable(v, id, page_size);
    law_directory_commit_keeps_sound(v, t, b, f, page_size, n, g);
    law_sound_pager_is_reopened(c, f1, page_size);
    lemma_run_len(f, plan);
    lemma_copies_are_committable(v, id, f.len() as int, page_size);
    law_metadata_commit_keeps_sound(c, both, f1, page_size, n, g);
}

/// The entry of a protected page that was written can be committed.
pub proof fn lemma_write_is_committable(v: PagerView, id: u64, page: Seq<u8>, page_size: usize)
    requires
        valid_page_size(page_size),
        v.state.wf(page_size),
        v.state.tidy(),
        v.state.protected_refusal(id, page_size) is None,
    ensures
        v.dir_committable(
            v.state.written(id, v.state.inactive_slot(id, page_size), page, page_size),
            StateView::block_of(id, page_size),
            page_size,
        ),
{
    let d = v.state;
    let b = StateView::block_of(id, page_size);
    let k = StateView::slot_of(id, page_size);
    let t = d.written(id, d.inactive_slot(id, page_size), page, page_size);
    assert(d.slot_in_use(b, k));
    lemma_entry_differs(d, b, k, t.dirs[b].entries[k], page_size);
    assert(t =~= d.with_entry(b, k, t.dirs[b].entries[k]));
    law_write_keeps_tidy(d, id, page, page_size);
}

/// Committing a write to a protected page, whose copy is flushed, leaves a pager
/// sound.
pub proof fn law_protected_write_keeps_sound(
    v: PagerView,
    id: u64,
    page: Seq<u8>,
    f: Seq<u8>,
    page_size: usize,
    n: int,
    g: Seq<u8>,
)
    requires
        valid_page_size(page_size),
        v.opened(f, page_size),
        v.state.protected_refusal(id, page_size) is None,
        0 <= n <= 4,
    ensures
        ({
            let b = StateView::block_of(id, page_size);
            let t = v.state.written(id, v.state.inactive_slot(id, page_size), page, page_size);
            let plan = t.dir_plan(b, f, page_size);
            let c = t.dir_committed(b);
            &&& v.with_state(c).sound(run(f, plan), page_size)
            &&& v.spares_dir_commit(t, b, f, g, page_size, n) && crash_leaves(
                f,
                plan.take(n),
                g,
            ) ==> opens_as(
                g,
                page_size,
                v.state,
                c,
            )
        }),
{
    let b = StateView::block_of(id, page_size);
    let t = v.state.written(id, v.state.inactive_slot(id, page_size), page, page_size);
    lemma_opened(v, f, page_size);
    lemma_write_is_committable(v, id, page, page_size);
    law_directory_commit_keeps_sound(v, t, b, f, page_size, n, g);
}

/// A write to a protected page as a whole.  Written and not committed, it is not seen:
/// opening the file still gives the pager, and every protected page, this one among
/// them, and every regular page read as before, now and when the file is opened again.
/// Committed, it is seen, now and when the file is opened again; every other
/// protected page and every regular page read as before, and no count changes.
pub proof fn law_protected_write_is_seen_once_committed(
    v: PagerView,
    f: Seq<u8>,
    id: u64,
    new: Seq<u8>,
    page_size: usize,
)
    requires
        valid_page_size(page_size),
        v.opened(f, page_size),
        v.state.protected_refusal(id, page_size) is None,
        new.len() == page_size,
    ensures
        ({
            let ps = page_size as int;
            let s = v.state;
            let b = StateView::block_of(id, page_size);
            let f1 = with_page(f, s.inactive_copy(id, page_size) as int, ps, new);
            let t = s.written(
                id,
                s.inactive_slot(id, page_size),
                page_of(f1, s.inactive_copy(id, page_size) as int, ps),
                page_size,
            );
            let w = v.with_state(t.dir_committed(b));
            let f2 = run(f1, t.dir_plan(b, f1, page_size));
            &&& v.opened(f1, page_size)
            &&& v.sound(f, page_size) ==> v.sound(f1, page_size)
            &&& reads_alike(s, f, s, f1, page_size)
            &&& page_of(f1, s.active_copy(id, page_size) as int, ps) == page_of(
                f,
                s.active_copy(id, page_size) as int,
                ps,
            )
            &&& w.sound(f2, page_size)
            &&& w.opened(f2, page_size)
            &&& w.state.meta == s.meta
            &&& w.state.protected_refusal(id, page_size) is None
            &&& page_of(f2, w.state.active_copy(id, page_size) as int, ps) == new
            &&& reads_alike_but(s, f, w.state, f2, page_size, id)
        }),
{
    let ps = page_size as int;
    let s = v.state;
    let b = StateView::block_of(id, page_size);
    let k = StateView::slot_of(id, page_size);
    let phys = s.inactive_copy(id, page_size);
    let f1 = with_page(f, phys as int, ps, new);
    lemma_opened(v, f, page_size);
    lemma_slot_pages(s, id, page_size);
    lemma_allocated_lies_in_file(s, phys, f.len() as int, page_size);
    law_page_write_keeps_sound(v, f, phys, new, page_size);
    lemma_opened(v, f1, page_size);
    law_write_unseen_before_commit(s, f, id, page_size, new);
    lemma_with_page(f, phys, phys, page_size, new);
    let t = s.written(id, s.inactive_slot(id, page_size), new, page_size);
    let w = v.with_state(t.dir_committed(b));
    let plan = t.dir_plan(b, f1, page_size);
    let f2 = run(f1, plan);
    law_protected_write_keeps_sound(v, id, new, f1, page_size, 0, f1);
    law_sound_pager_is_reopened(w, f2, page_size);
    law_write_seen_after_commit(s, id, new, page_size);
    lemma_write_is_committable(v, id, new, page_size);
    law_tidy_is_laid_out(t, f1.len() as int, page_size);
    assert forall|q: u64|
        FIRST_DATA_PAGE <= q && s.meta.allocated(q as int) && !s.backs_block(
            b,
            q as int,
        ) implies #[trigger] page_of(f2, q as int, ps) == page_of(f1, q as int, ps) by {
        lemma_allocated_lies_in_file(s, q, f1.len() as int, page_size);
        law_completed_commits_keep_data_pages(t, b, f1, page_size, q);
    }
    assert(reads_alike_but(s, f, w.state, f2, page_size, id)) by {
        assert forall|other: u64|
            other != id && s.protected_refusal(other, page_size) is None implies {
            &&& w.state.protected_refusal(other, page_size) is None
            &&& page_of(f2, #[trigger] w.state.active_copy(other, page_size) as int, ps) == page_of(
                f,
                s.active_copy(other, page_size) as int,
                ps,
            )
        } by {
            assert(w.state.entry(other, page_size) == s.entry(other, page_size));
            lemma_slot_pages(s, other, page_size);
            let q = s.active_copy(other, page_size);
            assert(!s.backs_block(b, q as int));
            assert(page_of(f2, q as int, ps) == page_of(f1, q as int, ps));
        }
        assert forall|q: u64| s.regular(q as int) implies #[trigger] w.state.regular(
            q as int,
        ) by {
            lemma_write_keeps_regular(s, id, new, q, page_size);
        }
        assert forall|q: u64| s.regular(q as int) implies #[trigger] page_of(f2, q as int, ps)
            == page_of(f, q as int, ps) by {
            assert(!s.backs_block(b, q as int));
            assert(page_of(f1, q as int, ps) == page_of(f, q as int, ps));
        }
    }
    assert(!s.backs_block(b, phys as int));
}

/// Every protected page and every regular page of `s` is one of `t`, and reads in `g`
/// as it did in `f`.
pub open spec fn reads_alike(
    s: StateView,
    f: Seq<u8>,
    t: StateView,
    g: Seq<u8>,
    page_size: usize,
) -> bool {
    &&& forall|id: u64|
        s.protected_refusal(id, page_size) is None ==> {
            &&& t.protected_refusal(id, page_size) is None
            &&& page_of(g, #[trigger] t.active_copy(id, page_size) as int, page_size as int)
                == page_of(f, s.active_copy(id, page_size) as int, page_size as int)
        }
    &&& forall|q: u64|
        s.regular(q as int) ==> {
            &&& t.regular(q as int)
            &&& #[trigger] page_of(g, q as int, page_size as int) == page_of(
                f,
                q as int,
                page_size as int,
            )
        }
}

/// The same, but for the protected page with handle `but`.
pub open spec fn reads_alike_but(
    s: StateView,
    f: Seq<u8>,
    t: StateView,
    g: Seq<u8>,
    page_size: usize,
    but: u64,
) -> bool {
    &&& forall|id: u64|
        id != but && s.protected_refusal(id, page_size) is None ==> {
            &&& t.protected_refusal(id, page_size) is None
            &&& page_of(g, #[trigger] t.active_copy(id, page_size) as int, page_size as int)
                == page_of(f, s.active_copy(id, page_size) as int, page_size as int)
        }
    &&& forall|q: u64|
        s.regular(q as int) ==> {
            &&& t.regular(q as int)
            &&& #[trigger] page_of(g, q as int, page_size as int) == page_of(
                f,
                q as int,
                page_size as int,
            )
        }
}

/// Both copies of a protected page are allocated data pages and no copies of a
/// directory block.
pub proof fn lemma_slot_pages(s: StateView, id: u64, page_size: usize)
    requires
        s.tidy(),
        s.protected_refusal(id, page_size) is None,
    ensures
        ({
            let x = s.active_copy(id, page_size);
            let y = s.inactive_copy(id, page_size);
            &&& FIRST_DATA_PAGE <= x && s.meta.allocated(x as int)
            &&& FIRST_DATA_PAGE <= y && s.meta.allocated(y as int)
            &&& forall|i: int|
                0 <= i < s.blocks.len() ==> !#[trigger] s.backs_block(i, x as int)
            &&& forall|i: int|
                0 <= i < s.blocks.len() ==> !#[trigger] s.backs_block(i, y as int)
        }),
{
    let b = StateView::block_of(id, page_size);
    let k = StateView::slot_of(id, page_size);
    assert(s.slot_in_use(b, k));
    let e = s.dirs[b].entries[k];
    let o = Owner::Slot(b, k, e.active_slot != 0);
    let p = Owner::Slot(b, k, e.active_slot == 0);
    assert(s.holds(o) && s.page_for(o) == s.active_copy(id, page_size));
    assert(s.holds(p) && s.page_for(p) == s.inactive_copy(id, page_size));
    assert forall|i: int| 0 <= i < s.blocks.len() implies {
        &&& !(#[trigger] s.backs_block(i, s.active_copy(id, page_size) as int))
        &&& !s.backs_block(i, s.inactive_copy(id, page_size) as int)
    } by {
        let x = Owner::Block(i, MetaSelector::A);
        let y = Owner::Block(i, MetaSelector::B);
        assert(s.page_for(x) != s.page_for(o) && s.page_for(y) != s.page_for(o));
        assert(s.page_for(x) != s.page_for(p) && s.page_for(y) != s.page_for(p));
    }
    assert forall|i: int| 0 <= i < s.blocks.len() implies !(#[trigger] s.backs_block(
        i,
        s.inactive_copy(id, page_size) as int,
    )) by {
        assert(!s.backs_block(i, s.active_copy(id, page_size) as int));
    }
}

/// An allocated page lies in a file that has all pages.
pub proof fn lemma_allocated_lies_in_file(s: StateView, q: u64, len: int, page_size: usize)
    requires
        s.meta.allocated(q as int),
        s.meta.total_pages * page_size <= len,
    ensures
        page_in_map(q, page_size, len),
{
    assert((q + 1) * page_size <= s.meta.total_pages * page_size) by (nonlinear_arith)
        requires
            q + 1 <= s.meta.total_pages,
    ;
}

/// A write to a protected page makes no regular page an internal one.
proof fn lemma_write_keeps_regular(s: StateView, id: u64, new: Seq<u8>, q: u64, page_size: usize)
    requires
        s.tidy(),
        s.protected_refusal(id, page_size) is None,
        s.regular(q as int),
    ensures
        s.written(id, s.inactive_slot(id, page_size), new, page_size).dir_committed(
            StateView::block_of(id, page_size),
        ).regular(q as int),
{
    let b = StateView::block_of(id, page_size);
    let t = s.written(id, s.inactive_slot(id, page_size), new, page_size).dir_committed(b);
    if t.internal(q as int) {
        if exists|i: int| 0 <= i < t.blocks.len() && #[trigger] t.backs_block(i, q as int) {
            let i = choose|i: int| 0 <= i < t.blocks.len() && #[trigger] t.backs_block(
                i,
                q as int,
            );
            assert(s.backs_block(i, q as int));
        } else {
            let (i, k) = choose|i: int, k: int|
                t.has_slot(i, k) && #[trigger] t.backs_slot(i, k, q as int);
            assert(s.has_slot(i, k) && s.backs_slot(i, k, q as int));
        }
    }
}

} // verus!
