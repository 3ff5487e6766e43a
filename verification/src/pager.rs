//! The `Pager`: allocation, growth, and crash-safe commits.
//!
//! A pager holds no file and no map.  It says what is to be stored, flushed,
//! resized and mapped, and is told how that went (see [`crate::task`]).

use std::collections::HashSet;

use vstd::prelude::*;

use crate::bytes::page_of;
use crate::error::MappedPageError;
use crate::growth::{
    handed_out, lemma_can_take_rest, lemma_doubled_after, lemma_freed_all_frame,
    lemma_handed_out_len, lemma_mark_frame, lemma_take_after, lemma_take_frame, lemma_take_short,
};
use crate::image::{
    State, StateView, fresh_file, page0_bytes, recover, valid_page_size,
};
use crate::meta::{FIRST_DATA_PAGE, MetaPage, MetaSelector, MetaView};
use crate::page::{MappedPage, PageId, page_in_map, page_slice, page_slice_mut, with_page};
use crate::task::{
    GrowTask, GrowTurn, IoEvent, Request, RequestView, ReserveTask, ReserveTaskView, ReserveTurn,
    ReserveTurnView, Turn,
};

verus! {

/// Manages a memory-mapped, fixed-size-page file.
///
/// The const generic `PAGE_SIZE` is the page size in bytes.  It must be a
/// power of two and at least 1024.  Using a mismatched `PAGE_SIZE` when
/// opening an existing file returns [`MappedPageError::InvalidPageSize`].
///
/// # Crash consistency
///
/// Every state-changing operation (alloc, free, grow) writes updated metadata
/// to the *inactive* metadata page, flushes it, then flips the active pointer
/// in the superblock and flushes the superblock.  The active page is never
/// overwritten in place.
///
/// # Unavailable state
///
/// If a grow operation fails after extending the file but before re-mapping,
/// the map is gone.  All subsequent operations on the pager return
/// `MappedPageError::Unavailable`; what they do to the state in memory, such as
/// marking a page as free, can no longer be committed.  The file on disk is still
/// consistent and can be reopened via `Pager::open`.
pub struct Pager<const PAGE_SIZE: usize> {
    /// `false` while the file grows, and for good after a failed remap.
    pub available: bool,
    pub state: State,
}

#[verifier::ext_equal]
pub struct PagerView {
    pub available: bool,
    pub state: StateView,
}

impl<const PAGE_SIZE: usize> View for Pager<PAGE_SIZE> {
    type V = PagerView;

    open spec fn view(&self) -> PagerView {
        PagerView { available: self.available, state: self.state@ }
    }
}

impl PagerView {
    pub open spec fn with_meta(self, meta: MetaView) -> PagerView {
        PagerView { state: StateView { meta, ..self.state }, ..self }
    }

    pub open spec fn with_state(self, state: StateView) -> PagerView {
        PagerView { state, ..self }
    }

    /// The pager without, or again with, a map.
    pub open spec fn mapped(self, available: bool) -> PagerView {
        PagerView { available, ..self }
    }

    /// The pager once its metadata are durable.
    pub open spec fn committed(self) -> PagerView {
        self.with_state(self.state.committed())
    }

    /// The pager that is about to commit its metadata, as a new generation.
    pub open spec fn bumped(self) -> PagerView {
        self.with_meta(self.state.meta.bumped())
    }

    /// The request that makes the metadata durable.
    pub open spec fn commit_request(self, page_size: usize) -> RequestView {
        RequestView::Apply(self.state.commit_plan(page_size))
    }

    /// The request with which the doubling of the file begins.
    pub open spec fn grow_request(self, page_size: usize) -> Request {
        Request::SetLen((2 * self.state.meta.total_pages * page_size) as u64)
    }

    /// How a doubling goes on after `event`.
    pub open spec fn grow_next(self, task: GrowTask, event: IoEvent, page_size: usize) -> (
        PagerView,
        GrowTurn,
    ) {
        match (task, event) {
            (GrowTask::SetLen, IoEvent::Done) => (self, GrowTurn::Ask(Request::Remap, GrowTask::Remap)),
            (GrowTask::SetLen, IoEvent::Failed { error, .. }) => (
                self,
                GrowTurn::Ask(Request::Remap, GrowTask::Restore(error)),
            ),
            (GrowTask::Remap, IoEvent::Done) => (
                self.with_meta(self.state.meta.doubled()).mapped(true),
                GrowTurn::Grown,
            ),
            (GrowTask::Remap, IoEvent::Failed { error, .. }) => (
                self,
                GrowTurn::Ask(
                    Request::SetLen((self.state.meta.total_pages * page_size) as u64),
                    GrowTask::Rollback(error),
                ),
            ),
            (GrowTask::Restore(first), IoEvent::Done) => (
                self.mapped(true),
                GrowTurn::Failed(MappedPageError::Io(first)),
            ),
            (GrowTask::Restore(_), IoEvent::Failed { error, .. }) => (
                self,
                GrowTurn::Failed(MappedPageError::Io(error)),
            ),
            (GrowTask::Rollback(first), _) => (
                self,
                GrowTurn::Failed(MappedPageError::Io(first)),
            ),
        }
    }

    /// How the reservation of pages goes on that has `got` some of the `want`
    /// wanted: it takes what is free, and has the file doubled if that is not
    /// enough.
    pub open spec fn reserve_next(self, got: Seq<u64>, want: usize, page_size: usize) -> (
        PagerView,
        ReserveTurnView,
    ) {
        let (m, ids) = self.state.meta.take((want - got.len()) as nat);
        let all = got + ids;
        if all.len() == want {
            (self.with_meta(m), ReserveTurnView::Reserved(all))
        } else {
            (
                self.with_meta(m).mapped(false),
                ReserveTurnView::Ask(
                    self.grow_request(page_size),
                    ReserveTaskView { got: all, want, grow: GrowTask::SetLen },
                ),
            )
        }
    }

    /// How a reservation goes on that waited for the file to grow.
    pub open spec fn reserve_resumed(
        self,
        task: ReserveTaskView,
        event: IoEvent,
        page_size: usize,
    ) -> (PagerView, ReserveTurnView) {
        let (v, turn) = self.grow_next(task.grow, event, page_size);
        match turn {
            GrowTurn::Grown => v.reserve_next(task.got, task.want, page_size),
            GrowTurn::Failed(e) => (v, ReserveTurnView::Failed(task.got, e)),
            GrowTurn::Ask(request, grow) => (
                v,
                ReserveTurnView::Ask(request, ReserveTaskView { grow, ..task }),
            ),
        }
    }
}

impl GrowTask {
    /// The doubling belongs to a pager in this state.
    pub open spec fn belongs_to(self, v: PagerView, page_size: usize) -> bool {
        &&& !v.available
        &&& v.state.meta.lowest_free() is None
        &&& v.state.meta.growable(page_size)
    }
}

impl ReserveTask {
    /// The reservation belongs to a pager in this state.
    pub open spec fn belongs_to(self, v: PagerView, page_size: usize) -> bool {
        &&& self.grow.belongs_to(v, page_size)
        &&& self.got@.len() < self.want
        &&& v.state.meta.can_take((self.want - self.got@.len()) as nat, page_size)
        &&& handed_out(v.state.meta, self.got@)
    }
}

impl<const PAGE_SIZE: usize> Pager<PAGE_SIZE> {
    /// The page size is one, and the state can be written.
    pub open spec fn wf(self) -> bool {
        &&& valid_page_size(PAGE_SIZE)
        &&& self@.state.wf(PAGE_SIZE)
    }

    // ── Construction ──────────────────────────────────────────────────────────

    /// A new pager with page size `PAGE_SIZE` bytes, and the bytes of its file.
    pub fn create() -> (r: (Self, Vec<u8>))
        requires
            valid_page_size(PAGE_SIZE),
        ensures
            r.0.wf(),
            r.0@ == (PagerView { available: true, state: StateView::fresh() }),
            r.1@ == fresh_file(PAGE_SIZE),
    {
        let state = State::new_fresh();
        let mut meta = crate::bytes::zeroed(PAGE_SIZE);
        state.meta.write_to(meta.as_mut_slice());
        let checksum = MetaPage::page_checksum(meta.as_slice());
        let empty: Vec<crate::directory::DirBlockRef> = Vec::new();
        let mut file = page0_bytes(PAGE_SIZE, MetaSelector::A, checksum, empty.as_slice());
        let mut copy = meta.clone();
        let mut free_page = crate::bytes::zeroed(PAGE_SIZE);
        assert(empty@ =~= Seq::empty());
        assert(copy@ =~= meta@);
        file.append(&mut meta);
        file.append(&mut copy);
        file.append(&mut free_page);
        (Pager { available: true, state }, file)
    }

    /// Open an existing file, validating and recovering metadata.
    ///
    /// Returns [`MappedPageError::InvalidPageSize`] if the on-disk page size
    /// does not match `PAGE_SIZE`.
    ///
    /// The superblock is read first; from it we learn the page size and which
    /// metadata page is active.  The active page is then validated against both
    /// its own embedded checksum and the superblock's `meta_checksum`.  If it
    /// fails, the alternate is tried (internal checksum only).  Both failing is
    /// an error.
    ///
    /// Protected-page directory blocks are loaded from page 0's extended section
    /// with the same A/B fallback logic.
    pub fn open(map: &[u8]) -> (r: Result<Self, MappedPageError>)
        requires
            valid_page_size(PAGE_SIZE),
        ensures
            match r {
                Ok(pager) => {
                    &&& pager.wf()
                    &&& pager@.available
                    &&& recover(map@, PAGE_SIZE) == Ok::<StateView, MappedPageError>(
                        pager@.state,
                    )
                },
                Err(e) => recover(map@, PAGE_SIZE) == Err::<StateView, MappedPageError>(e),
            },
    {
        match State::load(map, PAGE_SIZE) {
            Ok(state) => Ok(Pager { available: true, state }),
            Err(e) => Err(e),
        }
    }

    // ── Internal helpers ──────────────────────────────────────────────────────

    /// Begin a double-buffered commit of the metadata, as a new generation: they
    /// go to the *inactive* metadata page, and page 0 then points to that page.
    pub(crate) fn commit(&mut self) -> (r: Request)
        requires
            old(self).wf(),
            old(self)@.state.meta.generation < u64::MAX,
        ensures
            final(self).wf(),
            final(self)@ == old(self)@.bumped(),
            r@ == final(self)@.commit_request(PAGE_SIZE),
    {
        self.bump();
        Request::Apply(self.state.commit_plan(PAGE_SIZE))
    }

    /// Go on to a new generation.
    pub(crate) fn bump(&mut self)
        requires
            old(self).wf(),
            old(self)@.state.meta.generation < u64::MAX,
        ensures
            final(self).wf(),
            final(self)@ == old(self)@.bumped(),
    {
        self.state.meta.generation = self.state.meta.generation + 1;
        assert(self@ =~= old(self)@.bumped());
    }

    /// End a commit: if it is durable, the other metadata page is now active.
    pub(crate) fn commit_done(&mut self, event: IoEvent) -> (r: Result<(), MappedPageError>)
        requires
            old(self).wf(),
        ensures
            final(self).wf(),
            match event {
                IoEvent::Done => final(self)@ == old(self)@.committed() && r == Ok::<
                    (),
                    MappedPageError,
                >(()),
                IoEvent::Failed { error, .. } => final(self)@ == old(self)@ && r == Err::<
                    (),
                    MappedPageError,
                >(MappedPageError::Io(error)),
            },
    {
        match event {
            IoEvent::Done => {
                self.state.active_meta = self.state.active_meta.other();
                assert(self@ =~= old(self)@.committed());
                Ok(())
            },
            IoEvent::Failed { error, .. } => Err(MappedPageError::Io(error)),
        }
    }

    /// Begin to extend the file to twice its current page count.  The map is
    /// gone from here on.
    ///
    /// Does not commit; the caller allocates a page and commits once.
    pub(crate) fn grow(&mut self) -> (r: (Request, GrowTask))
        requires
            old(self).wf(),
            old(self)@.state.meta.growable(PAGE_SIZE),
        ensures
            final(self).wf(),
            final(self)@ == old(self)@.mapped(false),
            r.0 == old(self)@.grow_request(PAGE_SIZE),
            r.1 == GrowTask::SetLen,
    {
        self.available = false;
        let new_total: u64 = self.state.meta.total_pages * 2;
        assert(new_total * PAGE_SIZE == 2 * self.state.meta.total_pages * PAGE_SIZE);
        let new_size: u64 = new_total * PAGE_SIZE as u64;
        (Request::SetLen(new_size), GrowTask::SetLen)
    }

    /// Go on with extending the file.
    ///
    /// If it cannot be made longer, it is mapped again as it was and the error is
    /// returned.  If the longer file cannot be mapped, the pager stays
    /// unavailable; the file is consistent and can be reopened.
    pub(crate) fn grow_resume(&mut self, task: GrowTask, event: IoEvent) -> (r: GrowTurn)
        requires
            old(self).wf(),
            task.belongs_to(old(self)@, PAGE_SIZE),
        ensures
            final(self).wf(),
            (final(self)@, r) == old(self)@.grow_next(task, event, PAGE_SIZE),
    {
        match (task, event) {
            (GrowTask::SetLen, IoEvent::Done) => GrowTurn::Ask(Request::Remap, GrowTask::Remap),
            (GrowTask::SetLen, IoEvent::Failed { error, .. }) => GrowTurn::Ask(
                Request::Remap,
                GrowTask::Restore(error),
            ),
            (GrowTask::Remap, IoEvent::Done) => {
                let new_total: u64 = self.state.meta.total_pages * 2;
                self.state.meta.grow_to(new_total);
                self.available = true;
                assert(self@ =~= old(self)@.with_meta(old(self)@.state.meta.doubled()).mapped(
                    true,
                ));
                GrowTurn::Grown
            },
            (GrowTask::Remap, IoEvent::Failed { error, .. }) => {
                proof {
                    assert(self.state.meta.total_pages * PAGE_SIZE <= 2
                        * self.state.meta.total_pages * PAGE_SIZE) by (nonlinear_arith);
                }
                let old_size: u64 = self.state.meta.total_pages * PAGE_SIZE as u64;
                GrowTurn::Ask(Request::SetLen(old_size), GrowTask::Rollback(error))
            },
            (GrowTask::Restore(first), IoEvent::Done) => {
                self.available = true;
                GrowTurn::Failed(MappedPageError::Io(first))
            },
            (GrowTask::Restore(_), IoEvent::Failed { error, .. }) => GrowTurn::Failed(
                MappedPageError::Io(error),
            ),
            (GrowTask::Rollback(first), _) => GrowTurn::Failed(MappedPageError::Io(first)),
        }
    }

    /// Reserve pages, without committing, until there are `want` of them.
    pub(crate) fn reserve(&mut self, got: Vec<u64>, want: usize) -> (r: ReserveTurn)
        requires
            old(self).wf(),
            got@.len() <= want,
            old(self)@.state.meta.can_take((want - got@.len()) as nat, PAGE_SIZE),
            handed_out(old(self)@.state.meta, got@),
        ensures
            final(self).wf(),
            (final(self)@, r@) == old(self)@.reserve_next(got@, want, PAGE_SIZE),
            r matches ReserveTurn::Ask(_, task) ==> task.belongs_to(final(self)@, PAGE_SIZE),
            r matches ReserveTurn::Reserved(all) ==> handed_out(final(self)@.state.meta, all@),
    {
        let mut all = got;
        proof {
            let m = self@.state.meta;
            let n = (want - got@.len()) as nat;
            lemma_take_frame(m, n);
            lemma_take_short(m, n);
            lemma_can_take_rest(m, n, PAGE_SIZE);
            lemma_take_after(m, got@, n);
        }
        self.state.meta.take_into(&mut all, want);
        assert(self@ =~= old(self)@.with_meta(self@.state.meta));
        if all.len() == want {
            ReserveTurn::Reserved(all)
        } else {
            let (request, grow) = self.grow();
            ReserveTurn::Ask(request, ReserveTask { got: all, want, grow })
        }
    }

    /// Go on with a reservation that waited for the file to grow.
    pub(crate) fn reserve_resume(&mut self, task: ReserveTask, event: IoEvent) -> (r: ReserveTurn)
        requires
            old(self).wf(),
            task.belongs_to(old(self)@, PAGE_SIZE),
        ensures
            final(self).wf(),
            (final(self)@, r@) == old(self)@.reserve_resumed(task@, event, PAGE_SIZE),
            r matches ReserveTurn::Ask(_, t) ==> t.belongs_to(final(self)@, PAGE_SIZE),
            r matches ReserveTurn::Reserved(all) ==> handed_out(final(self)@.state.meta, all@),
            r matches ReserveTurn::Failed(got, _) ==> handed_out(final(self)@.state.meta, got@),
    {
        proof {
            lemma_doubled_after(self@.state.meta, task.got@);
        }
        let ReserveTask { got, want, grow } = task;
        match self.grow_resume(grow, event) {
            GrowTurn::Grown => self.reserve(got, want),
            GrowTurn::Failed(e) => ReserveTurn::Failed(got, e),
            GrowTurn::Ask(request, grow) => ReserveTurn::Ask(
                request,
                ReserveTask { got, want, grow },
            ),
        }
    }
}

// ── Allocation ────────────────────────────────────────────────────────────────

/// An allocation of one page that is under way.
#[derive(Debug)]
pub enum AllocTask<const PAGE_SIZE: usize> {
    /// No page was free; the file is being doubled.
    Grow(GrowTask),
    /// The page is reserved, and the metadata are being committed.
    Commit(PageId<PAGE_SIZE>),
}

/// An allocation of several pages that is under way.
#[derive(Debug)]
pub enum AllocBulkTask<const PAGE_SIZE: usize> {
    Grow(ReserveTask),
    Commit(Vec<PageId<PAGE_SIZE>>),
}

/// The release of pages whose metadata are being committed.
#[derive(Debug)]
pub struct FreeTask;

/// The handles of the pages `ids`.
pub open spec fn handles<const PAGE_SIZE: usize>(ids: Seq<u64>) -> Seq<PageId<PAGE_SIZE>> {
    Seq::new(ids.len(), |i: int| PageId(ids[i]))
}

/// The numbers of the pages `ids`.
pub open spec fn numbers<const PAGE_SIZE: usize>(ids: Seq<PageId<PAGE_SIZE>>) -> Seq<u64> {
    Seq::new(ids.len(), |i: int| ids[i].0)
}

impl<const PAGE_SIZE: usize> AllocTask<PAGE_SIZE> {
    /// The allocation belongs to a pager in this state.
    pub open spec fn belongs_to(self, v: PagerView) -> bool {
        match self {
            AllocTask::Grow(grow) => {
                &&& grow.belongs_to(v, PAGE_SIZE)
                &&& v.state.meta.generation < u64::MAX
            },
            AllocTask::Commit(_) => true,
        }
    }
}

impl<const PAGE_SIZE: usize> AllocBulkTask<PAGE_SIZE> {
    /// The allocation belongs to a pager in this state.
    pub open spec fn belongs_to(self, v: PagerView) -> bool {
        match self {
            AllocBulkTask::Grow(reserve) => {
                &&& reserve.belongs_to(v, PAGE_SIZE)
                &&& v.state.meta.generation < u64::MAX
            },
            AllocBulkTask::Commit(_) => true,
        }
    }
}

impl PagerView {
    /// How the allocation of a page goes on: it takes the lowest free page and
    /// has that committed, or has the file doubled if no page is free.
    pub open spec fn alloc_next<const PAGE_SIZE: usize>(
        self,
        after: PagerView,
        turn: Turn<PageId<PAGE_SIZE>, AllocTask<PAGE_SIZE>>,
    ) -> bool {
        match self.state.meta.lowest_free() {
            Some(id) => {
                &&& after == self.with_meta(self.state.meta.mark(id)).bumped()
                &&& turn matches Turn::Ask(request, task)
                &&& request@ == after.commit_request(PAGE_SIZE)
                &&& task == AllocTask::Commit(PageId::<PAGE_SIZE>(id))
            },
            None => {
                &&& after == self.mapped(false)
                &&& turn == Turn::<PageId<PAGE_SIZE>, AllocTask<PAGE_SIZE>>::Ask(
                    self.grow_request(PAGE_SIZE),
                    AllocTask::Grow(GrowTask::SetLen),
                )
            },
        }
    }

    /// How the allocation of a page begins.  Without a map the lowest free page is
    /// marked as allocated all the same, as a new generation, but that cannot be
    /// committed.
    pub open spec fn alloc_begun<const PAGE_SIZE: usize>(
        self,
        after: PagerView,
        turn: Turn<PageId<PAGE_SIZE>, AllocTask<PAGE_SIZE>>,
    ) -> bool {
        if self.available {
            self.alloc_next(after, turn)
        } else {
            &&& after == match self.state.meta.lowest_free() {
                Some(id) => self.with_meta(self.state.meta.mark(id)).bumped(),
                None => self,
            }
            &&& turn == Turn::<PageId<PAGE_SIZE>, AllocTask<PAGE_SIZE>>::Done(
                Err(MappedPageError::Unavailable),
            )
        }
    }

    /// The file can grow, if it has to for the allocation of a page, and there is
    /// a next generation, if one is made.
    pub open spec fn can_alloc(self, page_size: usize) -> bool {
        if self.available {
            &&& self.state.meta.can_take(1, page_size)
            &&& self.state.meta.generation < u64::MAX
        } else {
            self.state.meta.lowest_free() is Some ==> self.state.meta.generation < u64::MAX
        }
    }

    /// How the allocation of a page goes on after `event`.
    pub open spec fn alloc_resumed<const PAGE_SIZE: usize>(
        self,
        task: AllocTask<PAGE_SIZE>,
        event: IoEvent,
        after: PagerView,
        turn: Turn<PageId<PAGE_SIZE>, AllocTask<PAGE_SIZE>>,
    ) -> bool {
        match task {
            AllocTask::Grow(grow) => {
                let (v, grown) = self.grow_next(grow, event, PAGE_SIZE);
                match grown {
                    GrowTurn::Grown => v.alloc_next(after, turn),
                    GrowTurn::Failed(e) => {
                        &&& after == v
                        &&& turn == Turn::<PageId<PAGE_SIZE>, AllocTask<PAGE_SIZE>>::Done(Err(e))
                    },
                    GrowTurn::Ask(request, next) => {
                        &&& after == v
                        &&& turn == Turn::<PageId<PAGE_SIZE>, AllocTask<PAGE_SIZE>>::Ask(
                            request,
                            AllocTask::Grow(next),
                        )
                    },
                }
            },
            AllocTask::Commit(id) => match event {
                IoEvent::Done => {
                    &&& after == self.committed()
                    &&& turn == Turn::<PageId<PAGE_SIZE>, AllocTask<PAGE_SIZE>>::Done(Ok(id))
                },
                IoEvent::Failed { error, .. } => {
                    &&& after == self
                    &&& turn == Turn::<PageId<PAGE_SIZE>, AllocTask<PAGE_SIZE>>::Done(
                        Err(MappedPageError::Io(error)),
                    )
                },
            },
        }
    }

    /// How the release of a page begins: it is refused, or its metadata are
    /// committed.  Without a map the page is marked as free all the same, as a new
    /// generation, but that cannot be committed.
    pub open spec fn free_next(
        self,
        id: u64,
        page_size: usize,
        after: PagerView,
        turn: Turn<(), FreeTask>,
    ) -> bool {
        &&& after == match self.state.free_refusal(id) {
            Some(_) => self,
            None => self.with_meta(self.state.meta.release(id)).bumped(),
        }
        &&& match self.free_refusal(id) {
            Some(e) => turn == Turn::<(), FreeTask>::Done(Err(e)),
            None => {
                &&& turn matches Turn::Ask(request, FreeTask)
                &&& request@ == after.commit_request(page_size)
            },
        }
    }

    /// The counters can take the release of page `id`, if it is allocated.
    pub open spec fn can_free(self, id: u64) -> bool {
        self.state.free_refusal(id) is None ==> {
            &&& self.state.meta.free_count < u64::MAX
            &&& self.state.meta.generation < u64::MAX
        }
    }

    /// How the release of pages ends.
    pub open spec fn free_resumed(
        self,
        event: IoEvent,
        after: PagerView,
        turn: Turn<(), FreeTask>,
    ) -> bool {
        match event {
            IoEvent::Done => {
                &&& after == self.committed()
                &&& turn == Turn::<(), FreeTask>::Done(Ok(()))
            },
            IoEvent::Failed { error, .. } => {
                &&& after == self
                &&& turn == Turn::<(), FreeTask>::Done(Err(MappedPageError::Io(error)))
            },
        }
    }

    /// How the allocation of several pages goes on once `reserved` says how their
    /// reservation does.
    pub open spec fn alloc_bulk_next<const PAGE_SIZE: usize>(
        self,
        reserved: ReserveTurnView,
        after: PagerView,
        turn: Turn<Vec<PageId<PAGE_SIZE>>, AllocBulkTask<PAGE_SIZE>>,
    ) -> bool {
        match reserved {
            ReserveTurnView::Reserved(ids) => {
                &&& after == self.bumped()
                &&& turn matches Turn::Ask(request, AllocBulkTask::Commit(pages))
                &&& request@ == after.commit_request(PAGE_SIZE)
                &&& pages@ == handles::<PAGE_SIZE>(ids)
            },
            ReserveTurnView::Failed(ids, e) => {
                &&& after == self.with_meta(self.state.meta.freed_all(ids))
                &&& turn == Turn::<Vec<PageId<PAGE_SIZE>>, AllocBulkTask<PAGE_SIZE>>::Done(Err(e))
            },
            ReserveTurnView::Ask(request, task) => {
                &&& after == self
                &&& turn matches Turn::Ask(asked, AllocBulkTask::Grow(next))
                &&& asked == request
                &&& next@ == task
            },
        }
    }

    /// How the allocation of `count` pages begins.
    pub open spec fn alloc_bulk_begun<const PAGE_SIZE: usize>(
        self,
        count: usize,
        after: PagerView,
        turn: Turn<Vec<PageId<PAGE_SIZE>>, AllocBulkTask<PAGE_SIZE>>,
    ) -> bool {
        if !self.available {
            &&& after == self
            &&& turn == Turn::<Vec<PageId<PAGE_SIZE>>, AllocBulkTask<PAGE_SIZE>>::Done(
                Err(MappedPageError::Unavailable),
            )
        } else if count == 0 {
            &&& after == self
            &&& turn matches Turn::Done(Ok(pages))
            &&& pages@ == Seq::<PageId<PAGE_SIZE>>::empty()
        } else {
            let (v, reserved) = self.reserve_next(Seq::empty(), count, PAGE_SIZE);
            v.alloc_bulk_next(reserved, after, turn)
        }
    }

    /// How the allocation of several pages goes on after `event`.
    pub open spec fn alloc_bulk_resumed<const PAGE_SIZE: usize>(
        self,
        task: AllocBulkTask<PAGE_SIZE>,
        event: IoEvent,
        after: PagerView,
        turn: Turn<Vec<PageId<PAGE_SIZE>>, AllocBulkTask<PAGE_SIZE>>,
    ) -> bool {
        match task {
            AllocBulkTask::Grow(reserve) => {
                let (v, reserved) = self.reserve_resumed(reserve@, event, PAGE_SIZE);
                v.alloc_bulk_next(reserved, after, turn)
            },
            AllocBulkTask::Commit(pages) => match event {
                IoEvent::Done => {
                    &&& after == self.committed()
                    &&& turn == Turn::<Vec<PageId<PAGE_SIZE>>, AllocBulkTask<PAGE_SIZE>>::Done(
                        Ok(pages),
                    )
                },
                IoEvent::Failed { error, .. } => {
                    &&& after == self
                    &&& turn == Turn::<Vec<PageId<PAGE_SIZE>>, AllocBulkTask<PAGE_SIZE>>::Done(
                        Err(MappedPageError::Io(error)),
                    )
                },
            },
        }
    }

    /// How the release of the pages `ids` begins: it is refused as a whole, or the
    /// metadata without them are committed.
    pub open spec fn free_bulk_next(
        self,
        ids: Seq<u64>,
        page_size: usize,
        after: PagerView,
        turn: Turn<(), FreeTask>,
    ) -> bool {
        match self.free_bulk_refusal(ids) {
            Some(e) => {
                &&& after == self
                &&& turn == Turn::<(), FreeTask>::Done(Err(e))
            },
            None => if ids.len() == 0 {
                &&& after == self
                &&& turn == Turn::<(), FreeTask>::Done(Ok(()))
            } else {
                &&& after == self.with_meta(self.state.meta.freed_all(ids)).bumped()
                &&& turn matches Turn::Ask(request, FreeTask)
                &&& request@ == after.commit_request(page_size)
            },
        }
    }

    /// Why page `id` cannot be freed, if it cannot.
    pub open spec fn free_refusal(self, id: u64) -> Option<MappedPageError> {
        if !self.available {
            Some(MappedPageError::Unavailable)
        } else {
            self.state.free_refusal(id)
        }
    }

    /// Why the pages `ids` cannot be freed together, if they cannot: a page that
    /// is named twice, or else the first page that cannot be freed.
    pub open spec fn free_bulk_refusal(self, ids: Seq<u64>) -> Option<MappedPageError> {
        if !self.available {
            Some(MappedPageError::Unavailable)
        } else if !ids.no_duplicates() {
            Some(MappedPageError::DoubleFree)
        } else {
            self.first_refusal(ids)
        }
    }

    /// Why the first of the pages that cannot be freed cannot.
    pub open spec fn first_refusal(self, ids: Seq<u64>) -> Option<MappedPageError>
        decreases ids.len(),
    {
        if ids.len() == 0 {
            None
        } else {
            match self.first_refusal(ids.drop_last()) {
                Some(e) => Some(e),
                None => self.free_refusal(ids.last()),
            }
        }
    }
}

impl StateView {
    /// Why page `id` is no allocated data page of the file, if it is none.
    pub open spec fn free_refusal(self, id: u64) -> Option<MappedPageError> {
        if id < FIRST_DATA_PAGE {
            Some(MappedPageError::ReservedPage)
        } else if id >= self.meta.total_pages {
            Some(MappedPageError::OutOfBounds)
        } else if !self.meta.allocated(id as int) {
            Some(MappedPageError::DoubleFree)
        } else {
            None
        }
    }
}

impl<const PAGE_SIZE: usize> Pager<PAGE_SIZE> {
    /// Test whether `n` pages can be reserved, with the file doubled as often as
    /// needed: whether its size and its metadata can then still be represented.
    pub fn can_reserve(&self, n: usize) -> (r: bool)
        ensures
            r == (self@.state.meta.can_take(n as nat, PAGE_SIZE)
                && self@.state.meta.generation < u64::MAX),
    {
        self.state.meta.generation < u64::MAX && self.state.meta.is_able_to_take(n, PAGE_SIZE)
    }

    /// Allocate a fresh page.  Grows the file if no free pages remain.
    ///
    /// Pages 0–2 are never returned.
    pub fn allocate(&mut self) -> (r: Turn<PageId<PAGE_SIZE>, AllocTask<PAGE_SIZE>>)
        requires
            old(self).wf(),
            old(self)@.can_alloc(PAGE_SIZE),
        ensures
            final(self).wf(),
            old(self)@.alloc_begun(final(self)@, r),
            r matches Turn::Ask(_, task) ==> task.belongs_to(final(self)@),
    {
        if !self.available {
            proof {
                if let Some(id) = self@.state.meta.lowest_free() {
                    lemma_mark_frame(self@.state.meta, id);
                }
            }
            if let Some(id) = self.state.meta.alloc_page() {
                assert(self@ =~= old(self)@.with_meta(old(self)@.state.meta.mark(id)));
                self.bump();
            }
            return Turn::Done(Err(MappedPageError::Unavailable));
        }
        self.alloc_one()
    }

    /// Take one page and begin its commit, or begin to grow.
    fn alloc_one(&mut self) -> (r: Turn<PageId<PAGE_SIZE>, AllocTask<PAGE_SIZE>>)
        requires
            old(self).wf(),
            old(self)@.state.meta.can_take(1, PAGE_SIZE),
            old(self)@.state.meta.generation < u64::MAX,
        ensures
            final(self).wf(),
            old(self)@.alloc_next(final(self)@, r),
            r matches Turn::Ask(_, task) ==> task.belongs_to(final(self)@),
    {
        proof {
            if let Some(id) = self@.state.meta.lowest_free() {
                lemma_mark_frame(self@.state.meta, id);
            }
        }
        match self.state.meta.alloc_page() {
            Some(id) => {
                assert(self@ =~= old(self)@.with_meta(old(self)@.state.meta.mark(id)));
                let request = self.commit();
                Turn::Ask(request, AllocTask::Commit(PageId(id)))
            },
            None => {
                let (request, grow) = self.grow();
                Turn::Ask(request, AllocTask::Grow(grow))
            },
        }
    }

    /// Go on with an allocation.
    pub fn resume_alloc(&mut self, task: AllocTask<PAGE_SIZE>, event: IoEvent) -> (r: Turn<
        PageId<PAGE_SIZE>,
        AllocTask<PAGE_SIZE>,
    >)
        requires
            old(self).wf(),
            task.belongs_to(old(self)@),
        ensures
            final(self).wf(),
            old(self)@.alloc_resumed(task, event, final(self)@, r),
            r matches Turn::Ask(_, next) ==> next.belongs_to(final(self)@),
    {
        match task {
            AllocTask::Grow(grow) => match self.grow_resume(grow, event) {
                GrowTurn::Grown => {
                    proof {
                        assert(self@.state.meta.mark(self@.state.meta.lowest_free()->0).can_take(
                            0,
                            PAGE_SIZE,
                        ));
                    }
                    self.alloc_one()
                },
                GrowTurn::Failed(e) => Turn::Done(Err(e)),
                GrowTurn::Ask(request, next) => Turn::Ask(request, AllocTask::Grow(next)),
            },
            AllocTask::Commit(id) => match self.commit_done(event) {
                Ok(()) => Turn::Done(Ok(id)),
                Err(e) => Turn::Done(Err(e)),
            },
        }
    }

    /// Mark `id` as free so it can be returned by a future `allocate`.
    ///
    /// Returns an error if `id` is reserved (0–2), out of range, or already free.
    pub fn free(&mut self, id: PageId<PAGE_SIZE>) -> (r: Turn<(), FreeTask>)
        requires
            old(self).wf(),
            old(self)@.can_free(id.0),
        ensures
            final(self).wf(),
            old(self)@.free_next(id.0, PAGE_SIZE, final(self)@, r),
    {
        if id.0 < FIRST_DATA_PAGE || !self.state.meta.free_page(id.0) {
            return Turn::Done(
                Err(
                    if !self.available {
                        MappedPageError::Unavailable
                    } else if id.0 < FIRST_DATA_PAGE {
                        MappedPageError::ReservedPage
                    } else if id.0 >= self.state.meta.total_pages {
                        MappedPageError::OutOfBounds
                    } else {
                        MappedPageError::DoubleFree
                    },
                ),
            );
        }
        assert(self@ =~= old(self)@.with_meta(old(self)@.state.meta.release(id.0)));
        if !self.available {
            self.bump();
            return Turn::Done(Err(MappedPageError::Unavailable));
        }
        let request = self.commit();
        Turn::Ask(request, FreeTask)
    }

    /// Go on with the release of pages.
    pub fn resume_free(&mut self, task: FreeTask, event: IoEvent) -> (r: Turn<(), FreeTask>)
        requires
            old(self).wf(),
        ensures
            final(self).wf(),
            old(self)@.free_resumed(event, final(self)@, r),
    {
        Turn::Done(self.commit_done(event))
    }
}

impl<const PAGE_SIZE: usize> Pager<PAGE_SIZE> {
    // ── Bulk operations ───────────────────────────────────────────────────────

    /// Allocate `count` pages in a single commit.  Grows the file as needed.
    ///
    /// If the file cannot grow, no page stays allocated.
    pub fn alloc_bulk(&mut self, count: usize) -> (r: Turn<
        Vec<PageId<PAGE_SIZE>>,
        AllocBulkTask<PAGE_SIZE>,
    >)
        requires
            old(self).wf(),
            old(self)@.available && count > 0 ==> {
                &&& old(self)@.state.meta.can_take(count as nat, PAGE_SIZE)
                &&& old(self)@.state.meta.generation < u64::MAX
            },
        ensures
            final(self).wf(),
            old(self)@.alloc_bulk_begun(count, final(self)@, r),
            r matches Turn::Ask(_, task) ==> task.belongs_to(final(self)@),
    {
        if !self.available {
            return Turn::Done(Err(MappedPageError::Unavailable));
        }
        if count == 0 {
            return Turn::Done(Ok(Vec::new()));
        }
        let none: Vec<u64> = Vec::new();
        assert(none@ =~= Seq::empty());
        proof {
            lemma_take_frame(self@.state.meta, count as nat);
        }
        let reserved = self.reserve(none, count);
        self.after_reserve(reserved)
    }

    /// Commit the pages that were reserved, or give them back.
    fn after_reserve(&mut self, reserved: ReserveTurn) -> (r: Turn<
        Vec<PageId<PAGE_SIZE>>,
        AllocBulkTask<PAGE_SIZE>,
    >)
        requires
            old(self).wf(),
            old(self)@.state.meta.generation < u64::MAX,
            reserved matches ReserveTurn::Ask(_, task) ==> task.belongs_to(
                old(self)@,
                PAGE_SIZE,
            ),
            reserved matches ReserveTurn::Failed(ids, _) ==> old(self)@.state.meta.free_count
                + ids@.len() <= u64::MAX,
        ensures
            final(self).wf(),
            old(self)@.alloc_bulk_next(reserved@, final(self)@, r),
            r matches Turn::Ask(_, task) ==> task.belongs_to(final(self)@),
    {
        match reserved {
            ReserveTurn::Reserved(ids) => {
                let mut pages: Vec<PageId<PAGE_SIZE>> = Vec::new();
                let mut i: usize = 0;
                while i < ids.len()
                    invariant
                        i <= ids@.len(),
                        pages@ == handles::<PAGE_SIZE>(ids@.take(i as int)),
                    decreases ids.len() - i,
                {
                    pages.push(PageId(ids[i]));
                    i += 1;
                    assert(pages@ =~= handles::<PAGE_SIZE>(ids@.take(i as int)));
                }
                assert(ids@.take(i as int) =~= ids@);
                let request = self.commit();
                Turn::Ask(request, AllocBulkTask::Commit(pages))
            },
            ReserveTurn::Failed(ids, e) => {
                proof {
                    lemma_freed_all_frame(self@.state.meta, ids@);
                }
                self.state.meta.free_all(&ids);
                assert(self@ =~= old(self)@.with_meta(old(self)@.state.meta.freed_all(ids@)));
                Turn::Done(Err(e))
            },
            ReserveTurn::Ask(request, task) => Turn::Ask(request, AllocBulkTask::Grow(task)),
        }
    }

    /// Go on with an allocation of several pages.
    pub fn resume_alloc_bulk(&mut self, task: AllocBulkTask<PAGE_SIZE>, event: IoEvent) -> (r: Turn<
        Vec<PageId<PAGE_SIZE>>,
        AllocBulkTask<PAGE_SIZE>,
    >)
        requires
            old(self).wf(),
            task.belongs_to(old(self)@),
        ensures
            final(self).wf(),
            old(self)@.alloc_bulk_resumed(task, event, final(self)@, r),
            r matches Turn::Ask(_, next) ==> next.belongs_to(final(self)@),
    {
        match task {
            AllocBulkTask::Grow(reserve) => {
                proof {
                    let m = self@.state.meta;
                    lemma_handed_out_len(m, reserve.got@);
                    lemma_take_frame(
                        m.doubled(),
                        (reserve.want - reserve.got@.len()) as nat,
                    );
                }
                let reserved = self.reserve_resume(reserve, event);
                self.after_reserve(reserved)
            },
            AllocBulkTask::Commit(pages) => match self.commit_done(event) {
                Ok(()) => Turn::Done(Ok(pages)),
                Err(e) => Turn::Done(Err(e)),
            },
        }
    }

    /// Free several pages in a single commit.
    ///
    /// All ids are validated before any page is freed: a single invalid id, or one
    /// that is named twice, leaves all pages unchanged.
    pub fn free_bulk(&mut self, ids: Vec<PageId<PAGE_SIZE>>) -> (r: Turn<(), FreeTask>)
        requires
            old(self).wf(),
            old(self)@.free_bulk_refusal(numbers(ids@)) is None && ids@.len() > 0 ==> {
                &&& old(self)@.state.meta.free_count + ids@.len() <= u64::MAX
                &&& old(self)@.state.meta.generation < u64::MAX
            },
        ensures
            final(self).wf(),
            old(self)@.free_bulk_next(numbers(ids@), PAGE_SIZE, final(self)@, r),
    {
        let pages = page_numbers(&ids);
        if let Some(e) = self.bulk_refusal(&pages) {
            return Turn::Done(Err(e));
        }
        if pages.len() == 0 {
            return Turn::Done(Ok(()));
        }
        proof {
            lemma_freed_all_frame(self@.state.meta, pages@);
        }
        self.state.meta.free_all(&pages);
        assert(self@ =~= old(self)@.with_meta(old(self)@.state.meta.freed_all(pages@)));
        let request = self.commit();
        Turn::Ask(request, FreeTask)
    }

    /// Why the pages cannot be freed together, if they cannot.
    pub(crate) fn bulk_refusal(&self, pages: &Vec<u64>) -> (r: Option<MappedPageError>)
        requires
            self.wf(),
        ensures
            r == self@.free_bulk_refusal(pages@),
    {
        if !self.available {
            return Some(MappedPageError::Unavailable);
        }
        if has_duplicates(pages) {
            return Some(MappedPageError::DoubleFree);
        }
        self.find_refusal(pages)
    }

    /// Why page `id` cannot be freed, if it cannot.
    pub(crate) fn refusal(&self, id: u64) -> (r: Option<MappedPageError>)
        requires
            self.wf(),
        ensures
            r == self@.free_refusal(id),
    {
        if !self.available {
            return Some(MappedPageError::Unavailable);
        }
        self.state.release_refusal(id)
    }

    /// Why the first of the pages that cannot be freed cannot.
    fn find_refusal(&self, pages: &Vec<u64>) -> (r: Option<MappedPageError>)
        requires
            self.wf(),
        ensures
            r == self@.first_refusal(pages@),
    {
        let mut i: usize = 0;
        assert(pages@.take(0) =~= Seq::empty());
        while i < pages.len()
            invariant
                self.wf(),
                i <= pages@.len(),
                self@.first_refusal(pages@.take(i as int)) is None,
            decreases pages.len() - i,
        {
            proof {
                assert(pages@.take(i + 1).drop_last() =~= pages@.take(i as int));
            }
            if let Some(e) = self.refusal(pages[i]) {
                proof {
                    lemma_first_refusal_stays(self@, pages@, i + 1);
                }
                return Some(e);
            }
            i += 1;
        }
        assert(pages@.take(i as int) =~= pages@);
        None
    }

    // ── Metadata accessors ────────────────────────────────────────────────────

    /// The page size this pager was created with, in bytes.
    pub fn page_size(&self) -> (r: usize)
        ensures
            r == PAGE_SIZE,
    {
        PAGE_SIZE
    }

    /// Total number of pages in the file, including reserved pages 0–2.
    pub fn page_count(&self) -> (r: u64)
        ensures
            r == self@.state.meta.total_pages,
    {
        self.state.meta.total_pages
    }

    /// Number of pages currently available for allocation.
    pub fn free_page_count(&self) -> (r: u64)
        ensures
            r == self@.state.meta.free_count,
    {
        self.state.meta.free_count
    }

    /// Which metadata selector is currently active.
    pub fn active_meta_selector(&self) -> (r: MetaSelector)
        ensures
            r == self@.state.active,
    {
        self.state.active_meta
    }

    // ── Page access ───────────────────────────────────────────────────────────

    /// Borrow page `id` of the map.
    pub fn get_page<'a>(&self, id: PageId<PAGE_SIZE>, map: &'a [u8]) -> (r: Result<
        MappedPage<&'a [u8]>,
        MappedPageError,
    >)
        requires
            self.wf(),
            self@.page_refusal(id.0) is None ==> page_in_map(id.0, PAGE_SIZE, map.len() as int),
        ensures
            match r {
                Ok(page) => {
                    &&& self@.page_refusal(id.0) is None
                    &&& page@ == page_of(map@, id.0 as int, PAGE_SIZE as int)
                },
                Err(e) => self@.page_refusal(id.0) == Some(e),
            },
    {
        match self.page_access(id.0) {
            Some(e) => Err(e),
            None => Ok(MappedPage::from_slice(page_slice(map, id.0, PAGE_SIZE))),
        }
    }

    /// Borrow page `id` of the map to write to it.
    pub fn get_page_mut<'a>(&self, id: PageId<PAGE_SIZE>, map: &'a mut [u8]) -> (r: Result<
        MappedPage<&'a mut [u8]>,
        MappedPageError,
    >)
        requires
            self.wf(),
            self@.page_refusal(id.0) is None ==> page_in_map(
                id.0,
                PAGE_SIZE,
                old(map).len() as int,
            ),
        ensures
            match r {
                Ok(page) => {
                    &&& self@.page_refusal(id.0) is None
                    &&& page@ == page_of(old(map)@, id.0 as int, PAGE_SIZE as int)
                    &&& final(map)@ == with_page(
                        old(map)@,
                        id.0 as int,
                        PAGE_SIZE as int,
                        final(page.bytes)@,
                    )
                },
                Err(e) => self@.page_refusal(id.0) == Some(e) && final(map)@ == old(map)@,
            },
    {
        match self.page_access(id.0) {
            Some(e) => Err(e),
            None => Ok(MappedPage::from_slice_mut(page_slice_mut(map, id.0, PAGE_SIZE))),
        }
    }

    /// Why page `id` cannot be borrowed, if it cannot.
    pub fn page_access(&self, id: u64) -> (r: Option<MappedPageError>)
        ensures
            r == self@.page_refusal(id),
    {
        if !self.available {
            return Some(MappedPageError::Unavailable);
        }
        self.state.page_access(id)
    }
}

impl State {
    /// Why page `id` is no allocated data page of the file, if it is none.
    pub(crate) fn release_refusal(&self, id: u64) -> (r: Option<MappedPageError>)
        requires
            self@.meta.well_sized(),
        ensures
            r == self@.free_refusal(id),
    {
        if let Some(e) = self.page_access(id) {
            return Some(e);
        }
        if !self.meta.is_allocated(id) {
            return Some(MappedPageError::DoubleFree);
        }
        None
    }
}

/// The numbers of the pages `ids`.
pub(crate) fn page_numbers<const PAGE_SIZE: usize>(ids: &Vec<PageId<PAGE_SIZE>>) -> (r: Vec<u64>)
    ensures
        r@ == numbers(ids@),
{
    let mut pages: Vec<u64> = Vec::new();
    let mut i: usize = 0;
    while i < ids.len()
        invariant
            i <= ids@.len(),
            pages@ == numbers(ids@).take(i as int),
        decreases ids.len() - i,
    {
        pages.push(ids[i].0);
        i += 1;
        assert(pages@ =~= numbers(ids@).take(i as int));
    }
    assert(pages@ =~= numbers(ids@));
    pages
}

/// Test whether a number occurs twice.
pub(crate) fn has_duplicates(ids: &Vec<u64>) -> (r: bool)
    ensures
        r == !ids@.no_duplicates(),
{
    broadcast use vstd::std_specs::hash::group_hash_axioms;

    let mut seen: HashSet<u64> = HashSet::new();
    let mut i: usize = 0;
    while i < ids.len()
        invariant
            i <= ids@.len(),
            seen@ == ids@.take(i as int).to_set(),
            ids@.take(i as int).no_duplicates(),
        decreases ids.len() - i,
    {
        let id = ids[i];
        assert(ids@.take(i + 1) =~= ids@.take(i as int).push(id));
        if !seen.insert(id) {
            proof {
                let j = choose|j: int| 0 <= j < i && ids@.take(i as int)[j] == id;
                assert(ids@[j] == id && ids@[i as int] == id);
            }
            return true;
        }
        proof {
            let had = ids@.take(i as int);
            assert(had.push(id).to_set() =~= had.to_set().insert(id)) by {
                assert forall|x: u64| had.push(id).contains(x) <==> had.contains(x) || x == id by {
                    if had.contains(x) {
                        let j = choose|j: int| 0 <= j < had.len() && had[j] == x;
                        assert(had.push(id)[j] == x);
                    }
                    assert(had.push(id)[had.len() as int] == id);
                }
            }
            assert(!had.contains(id));
        }
        i += 1;
    }
    assert(ids@.take(i as int) =~= ids@);
    false
}

/// A page that cannot be freed decides for every longer list.
proof fn lemma_first_refusal_stays(v: PagerView, ids: Seq<u64>, k: int)
    requires
        0 <= k <= ids.len(),
        v.first_refusal(ids.take(k)) is Some,
    ensures
        v.first_refusal(ids) == v.first_refusal(ids.take(k)),
    decreases ids.len() - k,
{
    if k == ids.len() {
        assert(ids.take(k) =~= ids);
    } else {
        assert(ids.take(k + 1).drop_last() =~= ids.take(k));
        lemma_first_refusal_stays(v, ids, k + 1);
    }
}

impl PagerView {
    /// Why page `id` cannot be borrowed, if it cannot.
    pub open spec fn page_refusal(self, id: u64) -> Option<MappedPageError> {
        if !self.available {
            Some(MappedPageError::Unavailable)
        } else {
            self.state.page_refusal(id)
        }
    }
}

// ── Laws ──────────────────────────────────────────────────────────────────────

/// A doubling of the file changes the state only when it is complete: whatever
/// fails on the way, metadata and directory are as before.
pub proof fn law_growth_is_all_or_nothing(
    v: PagerView,
    task: GrowTask,
    event: IoEvent,
    page_size: usize,
)
    ensures
        ({
            let (w, turn) = v.grow_next(task, event, page_size);
            &&& turn is Grown ==> w.available && w.state == (StateView {
                meta: v.state.meta.doubled(),
                ..v.state
            })
            &&& !(turn is Grown) ==> w.state == v.state
        }),
{
}

/// A reservation for which the file is doubled as often as needed, with no
/// failure, hands out the pages that the metadata have for it: after any turn,
/// what is still to come completes the same list.
pub proof fn law_reservation_completes(v: PagerView, got: Seq<u64>, want: usize, page_size: usize)
    requires
        got.len() <= want,
        v.state.meta.well_sized(),
        v.state.meta.can_take((want - got.len()) as nat, page_size),
    ensures
        ({
            let all = v.state.meta.take_growing((want - got.len()) as nat);
            let (w, turn) = v.reserve_next(got, want, page_size);
            match turn {
                ReserveTurnView::Reserved(ids) => {
                    &&& ids == got + all.1
                    &&& w.state.meta == all.0
                },
                ReserveTurnView::Ask(_, task) => {
                    // The file is made longer, and then mapped.
                    let (w1, t1) = w.reserve_resumed(task, IoEvent::Done, page_size);
                    let asked = t1->Ask_1;
                    let (w2, _) = w1.grow_next(asked.grow, IoEvent::Done, page_size);
                    let rest = w2.state.meta.take_growing((want - asked.got.len()) as nat);
                    &&& t1 is Ask
                    &&& w1.reserve_resumed(asked, IoEvent::Done, page_size) == w2.reserve_next(
                        asked.got,
                        want,
                        page_size,
                    )
                    &&& w2.available
                    &&& w2.state.meta == w.state.meta.doubled()
                    &&& asked.got + rest.1 == got + all.1
                    &&& rest.0 == all.0
                },
                ReserveTurnView::Failed(_, _) => false,
            }
        }),
{
    let n = (want - got.len()) as nat;
    let m = v.state.meta;
    lemma_take_frame(m, n);
    lemma_take_short(m, n);
    lemma_can_take_rest(m, n, page_size);
    crate::growth::law_growth_between_takes(m, n);
    let (k, ids) = m.take(n);
    if ids.len() < n {
        let rest = k.doubled().take_growing((n - ids.len()) as nat);
        assert((got + ids) + rest.1 =~= got + (ids + rest.1));
    }
}

} // verus!
