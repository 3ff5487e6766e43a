//! [`PageAllocator`] trait and its [`PageHandle`] bound.

use vstd::prelude::*;

use crate::bulk::{BulkFreeStep, BulkStep, start_step};
use crate::bytes::page_of;
use crate::error::MappedPageError;
use crate::page::{MappedPage, PageId, page_in_map, with_page};
use crate::pager::{AllocBulkTask, AllocTask, FreeTask, Pager, numbers};
use crate::protected::{
    AllocProtectedTask, FreeProtectedTask, ProtectedPageId, ProtectedPageWriter, addressable,
};
use crate::sub_allocator::{SubAllocTask, SubPageAllocator, SubPageId, sub_page, with_sub_page};
use crate::task::{IoEvent, Turn};

verus! {

/// A handle to an allocated page that can borrow its contents from the map of
/// the allocator that produced it.
///
/// The `Mut` associated type allows each handle to name its own mutable
/// accessor: [`PageId`] returns the page directly, while [`ProtectedPageId`]
/// returns a [`ProtectedPageWriter`] that must be committed to make the write
/// crash-consistent.
pub trait PageHandle<A> {
    /// The error type returned by [`get`](Self::get) and [`get_mut`](Self::get_mut).
    type Error;

    /// The type returned by [`get_mut`](Self::get_mut).
    type Mut<'a> where A: 'a, Self: 'a;

    /// The page can be borrowed, or is refused with an error.
    spec fn can_get(&self, allocator: &A, map: Seq<u8>) -> bool;

    /// What borrowing the page gives.
    spec fn gets(&self, allocator: &A, map: Seq<u8>) -> Result<Seq<u8>, Self::Error>;

    /// The page can be borrowed to write to it, or is refused with an error.
    spec fn can_get_mut(&self, allocator: &A, map: Seq<u8>) -> bool;

    /// Immutably borrow the page contents.
    fn get<'a>(&self, allocator: &A, map: &'a [u8]) -> (r: Result<
        MappedPage<&'a [u8]>,
        Self::Error,
    >)
        requires
            self.can_get(allocator, map@),
        ensures
            match r {
                Ok(page) => self.gets(allocator, map@) == Ok::<Seq<u8>, Self::Error>(page@),
                Err(e) => self.gets(allocator, map@) == Err::<Seq<u8>, Self::Error>(e),
            },
    ;

    /// Mutably access the page contents.
    fn get_mut<'a>(&self, allocator: &'a mut A, map: &'a mut [u8]) -> (r: Result<
        Self::Mut<'a>,
        Self::Error,
    >)
        requires
            self.can_get_mut(old(allocator), old(map)@),
        ensures
            match r {
                Ok(_) => self.gets(old(allocator), old(map)@) is Ok,
                Err(e) => self.gets(old(allocator), old(map)@) == Err::<Seq<u8>, Self::Error>(e),
            },
    ;
}

impl<const PAGE_SIZE: usize> PageHandle<Pager<PAGE_SIZE>> for PageId<PAGE_SIZE> {
    type Error = MappedPageError;

    type Mut<'a> = MappedPage<&'a mut [u8]>;

    open spec fn can_get(&self, pager: &Pager<PAGE_SIZE>, map: Seq<u8>) -> bool {
        &&& pager.wf()
        &&& pager@.page_refusal(self.0) is None ==> page_in_map(
            self.0,
            PAGE_SIZE,
            map.len() as int,
        )
    }

    open spec fn gets(&self, pager: &Pager<PAGE_SIZE>, map: Seq<u8>) -> Result<
        Seq<u8>,
        MappedPageError,
    > {
        match pager@.page_refusal(self.0) {
            Some(e) => Err(e),
            None => Ok(page_of(map, self.0 as int, PAGE_SIZE as int)),
        }
    }

    open spec fn can_get_mut(&self, pager: &Pager<PAGE_SIZE>, map: Seq<u8>) -> bool {
        self.can_get(pager, map)
    }

    fn get<'a>(&self, pager: &Pager<PAGE_SIZE>, map: &'a [u8]) -> (r: Result<
        MappedPage<&'a [u8]>,
        MappedPageError,
    >) {
        pager.get_page(*self, map)
    }

    fn get_mut<'a>(&self, pager: &'a mut Pager<PAGE_SIZE>, map: &'a mut [u8]) -> (r: Result<
        MappedPage<&'a mut [u8]>,
        MappedPageError,
    >)
        ensures
            *final(pager) == *old(pager),
            match r {
                Ok(page) => {
                    &&& page@ == page_of(old(map)@, self.0 as int, PAGE_SIZE as int)
                    &&& final(map)@ == with_page(
                        old(map)@,
                        self.0 as int,
                        PAGE_SIZE as int,
                        final(page.bytes)@,
                    )
                },
                Err(_) => final(map)@ == old(map)@,
            },
    {
        pager.get_page_mut(*self, map)
    }
}

impl<const PAGE_SIZE: usize> PageHandle<Pager<PAGE_SIZE>> for ProtectedPageId<PAGE_SIZE> {
    type Error = MappedPageError;

    /// A [`ProtectedPageWriter`] that must be
    /// [`commit`](ProtectedPageWriter::commit)ted to make the write
    /// crash-consistent.
    type Mut<'a> = ProtectedPageWriter<'a, PAGE_SIZE>;

    open spec fn can_get(&self, pager: &Pager<PAGE_SIZE>, map: Seq<u8>) -> bool {
        &&& pager.wf()
        &&& pager@.protected_refusal(self.0, PAGE_SIZE) is None ==> page_in_map(
            pager@.state.active_copy(self.0, PAGE_SIZE),
            PAGE_SIZE,
            map.len() as int,
        )
    }

    open spec fn gets(&self, pager: &Pager<PAGE_SIZE>, map: Seq<u8>) -> Result<
        Seq<u8>,
        MappedPageError,
    > {
        match pager@.protected_refusal(self.0, PAGE_SIZE) {
            Some(e) => Err(e),
            None => Ok(
                page_of(
                    map,
                    pager@.state.active_copy(self.0, PAGE_SIZE) as int,
                    PAGE_SIZE as int,
                ),
            ),
        }
    }

    open spec fn can_get_mut(&self, pager: &Pager<PAGE_SIZE>, map: Seq<u8>) -> bool {
        &&& pager.wf()
        &&& pager@.protected_refusal(self.0, PAGE_SIZE) is None ==> pager@.state.entry(
            self.0,
            PAGE_SIZE,
        )->0.active_slot <= 1
    }

    fn get<'a>(&self, pager: &Pager<PAGE_SIZE>, map: &'a [u8]) -> (r: Result<
        MappedPage<&'a [u8]>,
        MappedPageError,
    >) {
        pager.get_protected_page(*self, map)
    }

    fn get_mut<'a>(&self, pager: &'a mut Pager<PAGE_SIZE>, map: &'a mut [u8]) -> (r: Result<
        ProtectedPageWriter<'a, PAGE_SIZE>,
        MappedPageError,
    >)
        ensures
            match r {
                Ok(w) => {
                    &&& *w.pager == *old(pager)
                    &&& *final(pager) == *final(w.pager)
                    &&& w.map@ == old(map)@
                    &&& final(map)@ == final(w.map)@
                    &&& w.id == *self
                    &&& w.inactive_slot == old(pager)@.state.inactive_slot(self.0, PAGE_SIZE)
                    &&& w.inactive_phys_page == old(pager)@.state.inactive_copy(
                        self.0,
                        PAGE_SIZE,
                    )
                },
                Err(_) => *final(pager) == *old(pager) && final(map)@ == old(map)@,
            },
    {
        pager.get_protected_page_mut(*self, map)
    }
}

impl<const PARENT_SIZE: usize, const SUB_SIZE: usize> PageHandle<
    SubPageAllocator<PARENT_SIZE, SUB_SIZE>,
> for SubPageId<PARENT_SIZE, SUB_SIZE> {
    type Error = MappedPageError;

    type Mut<'a> = MappedPage<&'a mut [u8]>;

    open spec fn can_get(
        &self,
        allocator: &SubPageAllocator<PARENT_SIZE, SUB_SIZE>,
        map: Seq<u8>,
    ) -> bool {
        &&& allocator.wf()
        &&& self.get_refusal(allocator@) is None ==> page_in_map(
            self.big(allocator@),
            PARENT_SIZE,
            map.len() as int,
        )
    }

    open spec fn gets(
        &self,
        allocator: &SubPageAllocator<PARENT_SIZE, SUB_SIZE>,
        map: Seq<u8>,
    ) -> Result<Seq<u8>, MappedPageError> {
        match self.get_refusal(allocator@) {
            Some(e) => Err(e),
            None => Ok(
                sub_page(
                    page_of(map, self.big(allocator@) as int, PARENT_SIZE as int),
                    self.sub_index as int,
                    SUB_SIZE as int,
                ),
            ),
        }
    }

    open spec fn can_get_mut(
        &self,
        allocator: &SubPageAllocator<PARENT_SIZE, SUB_SIZE>,
        map: Seq<u8>,
    ) -> bool {
        self.can_get(allocator, map)
    }

    fn get<'a>(
        &self,
        allocator: &SubPageAllocator<PARENT_SIZE, SUB_SIZE>,
        map: &'a [u8],
    ) -> (r: Result<MappedPage<&'a [u8]>, MappedPageError>) {
        SubPageId::get(self, allocator, map)
    }

    fn get_mut<'a>(
        &self,
        allocator: &'a mut SubPageAllocator<PARENT_SIZE, SUB_SIZE>,
        map: &'a mut [u8],
    ) -> (r: Result<MappedPage<&'a mut [u8]>, MappedPageError>)
        ensures
            *final(allocator) == *old(allocator),
            match r {
                Ok(page) => {
                    let big = page_of(
                        old(map)@,
                        self.big(old(allocator)@) as int,
                        PARENT_SIZE as int,
                    );
                    &&& page@ == sub_page(big, self.sub_index as int, SUB_SIZE as int)
                    &&& final(map)@ == with_page(
                        old(map)@,
                        self.big(old(allocator)@) as int,
                        PARENT_SIZE as int,
                        with_sub_page(
                            big,
                            self.sub_index as int,
                            SUB_SIZE as int,
                            final(page.bytes)@,
                        ),
                    )
                },
                Err(_) => final(map)@ == old(map)@,
            },
    {
        SubPageId::get_mut(self, allocator, map)
    }
}

// ── PageAllocator ─────────────────────────────────────────────────────────────

/// Allocates and frees pages of type `AllocatedType`.
///
/// `AllocatedType` must implement [`PageHandle<Self>`] so that callers can
/// borrow page data back through the same allocator.
///
/// An allocation or a release that needs I/O asks for it and goes on with a task
/// (see [`crate::task`]).
pub trait PageAllocator<AllocatedType: PageHandle<Self>>: Sized {
    /// The error type that allocation and release end with.
    type Error;

    /// An allocation that is under way.
    type AllocTask;

    /// A release that is under way.
    type FreeTask;

    /// A page can be allocated, or is refused with an error.
    spec fn can_allocate(&self) -> bool;

    /// How an allocation begins.
    spec fn allocates(
        before: &Self,
        after: &Self,
        turn: Turn<AllocatedType, Self::AllocTask, Self::Error>,
    ) -> bool;

    /// The allocation can go on.
    spec fn can_resume_allocate(
        &self,
        task: Self::AllocTask,
        event: IoEvent,
        map: Seq<u8>,
    ) -> bool;

    /// How an allocation goes on.
    spec fn resumes_allocate(
        before: &Self,
        task: Self::AllocTask,
        event: IoEvent,
        map: Seq<u8>,
        after: &Self,
        turn: Turn<AllocatedType, Self::AllocTask, Self::Error>,
    ) -> bool;

    /// The page can be freed, or is refused with an error.
    spec fn can_free(&self, id: AllocatedType, map: Seq<u8>) -> bool;

    /// How a release begins.
    spec fn frees(
        before: &Self,
        id: AllocatedType,
        map: Seq<u8>,
        after: &Self,
        turn: Turn<(), Self::FreeTask, Self::Error>,
    ) -> bool;

    /// The release can go on.
    spec fn can_resume_free(&self, task: Self::FreeTask) -> bool;

    /// How a release goes on.
    spec fn resumes_free(
        before: &Self,
        task: Self::FreeTask,
        event: IoEvent,
        after: &Self,
        turn: Turn<(), Self::FreeTask, Self::Error>,
    ) -> bool;

    /// Allocate a fresh page.
    fn allocate(&mut self) -> (r: Turn<AllocatedType, Self::AllocTask, Self::Error>)
        requires
            old(self).can_allocate(),
        ensures
            Self::allocates(old(self), final(self), r),
    ;

    /// Go on with an allocation.
    fn resume_allocate(&mut self, task: Self::AllocTask, event: IoEvent, map: &[u8]) -> (r: Turn<
        AllocatedType,
        Self::AllocTask,
        Self::Error,
    >)
        requires
            old(self).can_resume_allocate(task, event, map@),
        ensures
            Self::resumes_allocate(old(self), task, event, map@, final(self), r),
    ;

    /// Free a previously allocated page.
    fn free(&mut self, id: AllocatedType, map: &[u8]) -> (r: Turn<(), Self::FreeTask, Self::Error>)
        requires
            old(self).can_free(id, map@),
        ensures
            Self::frees(old(self), id, map@, final(self), r),
    ;

    /// Go on with a release.
    fn resume_free(&mut self, task: Self::FreeTask, event: IoEvent) -> (r: Turn<
        (),
        Self::FreeTask,
        Self::Error,
    >)
        requires
            old(self).can_resume_free(task),
        ensures
            Self::resumes_free(old(self), task, event, final(self), r),
    ;
}

impl<const PAGE_SIZE: usize> PageAllocator<PageId<PAGE_SIZE>> for Pager<PAGE_SIZE> {
    type Error = MappedPageError;

    type AllocTask = AllocTask<PAGE_SIZE>;

    type FreeTask = FreeTask;

    open spec fn can_allocate(&self) -> bool {
        &&& self.wf()
        &&& self@.can_alloc(PAGE_SIZE)
    }

    open spec fn allocates(
        before: &Self,
        after: &Self,
        turn: Turn<PageId<PAGE_SIZE>, AllocTask<PAGE_SIZE>>,
    ) -> bool {
        &&& after.wf()
        &&& before@.alloc_begun(after@, turn)
        &&& turn matches Turn::Ask(_, task) ==> task.belongs_to(after@)
    }

    open spec fn can_resume_allocate(
        &self,
        task: AllocTask<PAGE_SIZE>,
        event: IoEvent,
        map: Seq<u8>,
    ) -> bool {
        self.wf() && task.belongs_to(self@)
    }

    open spec fn resumes_allocate(
        before: &Self,
        task: AllocTask<PAGE_SIZE>,
        event: IoEvent,
        map: Seq<u8>,
        after: &Self,
        turn: Turn<PageId<PAGE_SIZE>, AllocTask<PAGE_SIZE>>,
    ) -> bool {
        &&& after.wf()
        &&& before@.alloc_resumed(task, event, after@, turn)
        &&& turn matches Turn::Ask(_, next) ==> next.belongs_to(after@)
    }

    open spec fn can_free(&self, id: PageId<PAGE_SIZE>, map: Seq<u8>) -> bool {
        &&& self.wf()
        &&& self@.can_free(id.0)
    }

    open spec fn frees(
        before: &Self,
        id: PageId<PAGE_SIZE>,
        map: Seq<u8>,
        after: &Self,
        turn: Turn<(), FreeTask>,
    ) -> bool {
        &&& after.wf()
        &&& before@.free_next(id.0, PAGE_SIZE, after@, turn)
    }

    open spec fn can_resume_free(&self, task: FreeTask) -> bool {
        self.wf()
    }

    open spec fn resumes_free(
        before: &Self,
        task: FreeTask,
        event: IoEvent,
        after: &Self,
        turn: Turn<(), FreeTask>,
    ) -> bool {
        &&& after.wf()
        &&& before@.free_resumed(event, after@, turn)
    }

    fn allocate(&mut self) -> (r: Turn<PageId<PAGE_SIZE>, AllocTask<PAGE_SIZE>>) {
        Pager::allocate(self)
    }

    fn resume_allocate(&mut self, task: AllocTask<PAGE_SIZE>, event: IoEvent, map: &[u8]) -> (r:
        Turn<PageId<PAGE_SIZE>, AllocTask<PAGE_SIZE>>) {
        self.resume_alloc(task, event)
    }

    fn free(&mut self, id: PageId<PAGE_SIZE>, map: &[u8]) -> (r: Turn<(), FreeTask>) {
        Pager::free(self, id)
    }

    fn resume_free(&mut self, task: FreeTask, event: IoEvent) -> (r: Turn<(), FreeTask>) {
        Pager::resume_free(self, task, event)
    }
}

impl<const PAGE_SIZE: usize> PageAllocator<ProtectedPageId<PAGE_SIZE>> for Pager<PAGE_SIZE> {
    type Error = MappedPageError;

    type AllocTask = AllocProtectedTask;

    type FreeTask = FreeProtectedTask;

    open spec fn can_allocate(&self) -> bool {
        &&& self.wf()
        &&& addressable(PAGE_SIZE)
        &&& self@.can_alloc_protected(PAGE_SIZE)
    }

    open spec fn allocates(
        before: &Self,
        after: &Self,
        turn: Turn<ProtectedPageId<PAGE_SIZE>, AllocProtectedTask>,
    ) -> bool {
        &&& after.wf()
        &&& before@.alloc_protected_begun(after@, turn)
        &&& turn matches Turn::Ask(_, task) ==> task.belongs_to(after@, PAGE_SIZE)
    }

    open spec fn can_resume_allocate(
        &self,
        task: AllocProtectedTask,
        event: IoEvent,
        map: Seq<u8>,
    ) -> bool {
        &&& self.wf()
        &&& task.belongs_to(self@, PAGE_SIZE)
        &&& task.in_map(self@, event, map.len() as int, PAGE_SIZE)
    }

    open spec fn resumes_allocate(
        before: &Self,
        task: AllocProtectedTask,
        event: IoEvent,
        map: Seq<u8>,
        after: &Self,
        turn: Turn<ProtectedPageId<PAGE_SIZE>, AllocProtectedTask>,
    ) -> bool {
        &&& after.wf()
        &&& before@.alloc_protected_resumed(task@, event, map, after@, turn)
        &&& turn matches Turn::Ask(_, next) ==> next.belongs_to(after@, PAGE_SIZE)
    }

    open spec fn can_free(&self, id: ProtectedPageId<PAGE_SIZE>, map: Seq<u8>) -> bool {
        &&& self.wf()
        &&& self@.free_protected_refusal(id.0, PAGE_SIZE) is None ==> {
            &&& self@.free_protected_in_map(id.0, map.len() as int, PAGE_SIZE)
            &&& self@.state.meta.free_count + 2 <= u64::MAX
            &&& self@.state.meta.generation < u64::MAX
        }
    }

    open spec fn frees(
        before: &Self,
        id: ProtectedPageId<PAGE_SIZE>,
        map: Seq<u8>,
        after: &Self,
        turn: Turn<(), FreeProtectedTask>,
    ) -> bool {
        &&& after.wf()
        &&& before@.free_protected_begun(id.0, map, PAGE_SIZE, after@, turn)
        &&& turn matches Turn::Ask(_, task) ==> task.belongs_to(after@)
    }

    open spec fn can_resume_free(&self, task: FreeProtectedTask) -> bool {
        self.wf() && task.belongs_to(self@)
    }

    open spec fn resumes_free(
        before: &Self,
        task: FreeProtectedTask,
        event: IoEvent,
        after: &Self,
        turn: Turn<(), FreeProtectedTask>,
    ) -> bool {
        &&& after.wf()
        &&& before@.free_protected_resumed(task, event, PAGE_SIZE, after@, turn)
        &&& turn matches Turn::Ask(_, next) ==> next.belongs_to(after@)
    }

    fn allocate(&mut self) -> (r: Turn<ProtectedPageId<PAGE_SIZE>, AllocProtectedTask>) {
        self.alloc_protected()
    }

    fn resume_allocate(&mut self, task: AllocProtectedTask, event: IoEvent, map: &[u8]) -> (r: Turn<
        ProtectedPageId<PAGE_SIZE>,
        AllocProtectedTask,
    >) {
        self.resume_alloc_protected(task, event, map)
    }

    fn free(&mut self, id: ProtectedPageId<PAGE_SIZE>, map: &[u8]) -> (r: Turn<
        (),
        FreeProtectedTask,
    >) {
        self.free_protected(id, map)
    }

    fn resume_free(&mut self, task: FreeProtectedTask, event: IoEvent) -> (r: Turn<
        (),
        FreeProtectedTask,
    >) {
        self.resume_free_protected(task, event)
    }
}

impl<const PARENT_SIZE: usize, const SUB_SIZE: usize> PageAllocator<
    SubPageId<PARENT_SIZE, SUB_SIZE>,
> for SubPageAllocator<PARENT_SIZE, SUB_SIZE> {
    type Error = MappedPageError;

    type AllocTask = SubAllocTask<PARENT_SIZE>;

    type FreeTask = FreeTask;

    open spec fn can_allocate(&self) -> bool {
        &&& self.wf()
        &&& self@.open_from(0, Self::per_page()) is None ==> {
            &&& self@.slots.len() < u32::MAX
            &&& self@.pager.can_alloc(PARENT_SIZE)
        }
    }

    open spec fn allocates(
        before: &Self,
        after: &Self,
        turn: Turn<SubPageId<PARENT_SIZE, SUB_SIZE>, SubAllocTask<PARENT_SIZE>>,
    ) -> bool {
        &&& after.wf()
        &&& Self::allocated(before@, after@, turn)
        &&& turn matches Turn::Ask(_, task) ==> task.belongs_to(after@)
    }

    open spec fn can_resume_allocate(
        &self,
        task: SubAllocTask<PARENT_SIZE>,
        event: IoEvent,
        map: Seq<u8>,
    ) -> bool {
        &&& self.wf()
        &&& task.belongs_to(self@)
    }

    open spec fn resumes_allocate(
        before: &Self,
        task: SubAllocTask<PARENT_SIZE>,
        event: IoEvent,
        map: Seq<u8>,
        after: &Self,
        turn: Turn<SubPageId<PARENT_SIZE, SUB_SIZE>, SubAllocTask<PARENT_SIZE>>,
    ) -> bool {
        &&& after.wf()
        &&& Self::alloc_resumed(before@, task, event, after@, turn)
        &&& turn matches Turn::Ask(_, next) ==> next.belongs_to(after@)
    }

    open spec fn can_free(&self, id: SubPageId<PARENT_SIZE, SUB_SIZE>, map: Seq<u8>) -> bool {
        self.wf() && Self::free_fits(self@, id)
    }

    open spec fn frees(
        before: &Self,
        id: SubPageId<PARENT_SIZE, SUB_SIZE>,
        map: Seq<u8>,
        after: &Self,
        turn: Turn<(), FreeTask>,
    ) -> bool {
        &&& after.wf()
        &&& Self::freed(before@, id, after@, turn)
    }

    open spec fn can_resume_free(&self, task: FreeTask) -> bool {
        self.wf()
    }

    open spec fn resumes_free(
        before: &Self,
        task: FreeTask,
        event: IoEvent,
        after: &Self,
        turn: Turn<(), FreeTask>,
    ) -> bool {
        &&& after.wf()
        &&& after@ == before@.with_pager(after@.pager)
        &&& before@.pager.free_resumed(event, after@.pager, turn)
    }

    fn allocate(&mut self) -> (r: Turn<
        SubPageId<PARENT_SIZE, SUB_SIZE>,
        SubAllocTask<PARENT_SIZE>,
    >) {
        SubPageAllocator::allocate(self)
    }

    fn resume_allocate(
        &mut self,
        task: SubAllocTask<PARENT_SIZE>,
        event: IoEvent,
        map: &[u8],
    ) -> (r: Turn<SubPageId<PARENT_SIZE, SUB_SIZE>, SubAllocTask<PARENT_SIZE>>) {
        self.resume_alloc(task, event)
    }

    fn free(&mut self, id: SubPageId<PARENT_SIZE, SUB_SIZE>, map: &[u8]) -> (r: Turn<
        (),
        FreeTask,
    >) {
        SubPageAllocator::free(self, id)
    }

    fn resume_free(&mut self, task: FreeTask, event: IoEvent) -> (r: Turn<(), FreeTask>) {
        SubPageAllocator::resume_free(self, task, event)
    }
}

// ── BulkPageAllocator ─────────────────────────────────────────────────────────

/// An allocator that can allocate or free several handles at once, or needs
/// all-or-nothing validation across a batch.
pub trait BulkPageAllocator<AllocatedType: PageHandle<Self>>: PageAllocator<AllocatedType> {
    /// Where a batch of allocations stands.
    type AllocBulk;

    /// Where a batch of releases stands.
    type FreeBulk;

    /// A batch of `count` can be allocated, or is refused with an error.
    spec fn can_alloc_bulk(&self, count: usize) -> bool;

    /// How a batch of allocations begins.
    spec fn allocates_bulk(
        before: &Self,
        count: usize,
        after: &Self,
        batch: Self::AllocBulk,
    ) -> bool;

    /// The handles can be freed together, or are refused with an error.
    spec fn can_free_bulk(&self, ids: Seq<AllocatedType>) -> bool;

    /// How a batch of releases begins.
    spec fn frees_bulk(
        before: &Self,
        ids: Seq<AllocatedType>,
        after: &Self,
        batch: Self::FreeBulk,
    ) -> bool;

    /// Allocate `count` handles.
    fn alloc_bulk(&mut self, count: usize) -> (r: Self::AllocBulk)
        requires
            old(self).can_alloc_bulk(count),
        ensures
            Self::allocates_bulk(old(self), count, final(self), r),
    ;

    /// Free several handles, all of which are validated before any is freed.
    fn free_bulk(&mut self, ids: Vec<AllocatedType>) -> (r: Self::FreeBulk)
        requires
            old(self).can_free_bulk(ids@),
        ensures
            Self::frees_bulk(old(self), ids@, final(self), r),
    ;
}

impl<const PAGE_SIZE: usize> BulkPageAllocator<PageId<PAGE_SIZE>> for Pager<PAGE_SIZE> {
    type AllocBulk = Turn<Vec<PageId<PAGE_SIZE>>, AllocBulkTask<PAGE_SIZE>>;

    type FreeBulk = Turn<(), FreeTask>;

    open spec fn can_alloc_bulk(&self, count: usize) -> bool {
        &&& self.wf()
        &&& self@.available && count > 0 ==> {
            &&& self@.state.meta.can_take(count as nat, PAGE_SIZE)
            &&& self@.state.meta.generation < u64::MAX
        }
    }

    open spec fn allocates_bulk(
        before: &Self,
        count: usize,
        after: &Self,
        batch: Turn<Vec<PageId<PAGE_SIZE>>, AllocBulkTask<PAGE_SIZE>>,
    ) -> bool {
        &&& after.wf()
        &&& before@.alloc_bulk_begun(count, after@, batch)
        &&& batch matches Turn::Ask(_, task) ==> task.belongs_to(after@)
    }

    open spec fn can_free_bulk(&self, ids: Seq<PageId<PAGE_SIZE>>) -> bool {
        &&& self.wf()
        &&& self@.free_bulk_refusal(numbers(ids)) is None && ids.len() > 0 ==> {
            &&& self@.state.meta.free_count + ids.len() <= u64::MAX
            &&& self@.state.meta.generation < u64::MAX
        }
    }

    open spec fn frees_bulk(
        before: &Self,
        ids: Seq<PageId<PAGE_SIZE>>,
        after: &Self,
        batch: Turn<(), FreeTask>,
    ) -> bool {
        &&& after.wf()
        &&& before@.free_bulk_next(numbers(ids), PAGE_SIZE, after@, batch)
    }

    fn alloc_bulk(&mut self, count: usize) -> (r: Turn<
        Vec<PageId<PAGE_SIZE>>,
        AllocBulkTask<PAGE_SIZE>,
    >) {
        Pager::alloc_bulk(self, count)
    }

    fn free_bulk(&mut self, ids: Vec<PageId<PAGE_SIZE>>) -> (r: Turn<(), FreeTask>) {
        Pager::free_bulk(self, ids)
    }
}

impl<const PAGE_SIZE: usize> BulkPageAllocator<ProtectedPageId<PAGE_SIZE>> for Pager<PAGE_SIZE> {
    type AllocBulk = BulkStep<ProtectedPageId<PAGE_SIZE>>;

    type FreeBulk = BulkFreeStep<ProtectedPageId<PAGE_SIZE>>;

    open spec fn can_alloc_bulk(&self, count: usize) -> bool {
        true
    }

    open spec fn allocates_bulk(
        before: &Self,
        count: usize,
        after: &Self,
        batch: BulkStep<ProtectedPageId<PAGE_SIZE>>,
    ) -> bool {
        &&& *after == *before
        &&& before@.alloc_protected_bulk_begun(count, batch)
    }

    open spec fn can_free_bulk(&self, ids: Seq<ProtectedPageId<PAGE_SIZE>>) -> bool {
        self.wf()
    }

    open spec fn frees_bulk(
        before: &Self,
        ids: Seq<ProtectedPageId<PAGE_SIZE>>,
        after: &Self,
        batch: BulkFreeStep<ProtectedPageId<PAGE_SIZE>>,
    ) -> bool {
        &&& *after == *before
        &&& before@.free_protected_bulk_begun(ids, batch)
    }

    fn alloc_bulk(&mut self, count: usize) -> (r: BulkStep<ProtectedPageId<PAGE_SIZE>>) {
        self.alloc_protected_bulk(count)
    }

    fn free_bulk(&mut self, ids: Vec<ProtectedPageId<PAGE_SIZE>>) -> (r: BulkFreeStep<
        ProtectedPageId<PAGE_SIZE>,
    >) {
        self.free_protected_bulk(ids)
    }
}

impl<const PARENT_SIZE: usize, const SUB_SIZE: usize> BulkPageAllocator<
    SubPageId<PARENT_SIZE, SUB_SIZE>,
> for SubPageAllocator<PARENT_SIZE, SUB_SIZE> {
    type AllocBulk = BulkStep<SubPageId<PARENT_SIZE, SUB_SIZE>>;

    type FreeBulk = BulkFreeStep<PageId<PARENT_SIZE>>;

    open spec fn can_alloc_bulk(&self, count: usize) -> bool {
        true
    }

    open spec fn allocates_bulk(
        before: &Self,
        count: usize,
        after: &Self,
        batch: BulkStep<SubPageId<PARENT_SIZE, SUB_SIZE>>,
    ) -> bool {
        &&& *after == *before
        &&& start_step(count, batch)
    }

    open spec fn can_free_bulk(&self, ids: Seq<SubPageId<PARENT_SIZE, SUB_SIZE>>) -> bool {
        self.wf()
    }

    open spec fn frees_bulk(
        before: &Self,
        ids: Seq<SubPageId<PARENT_SIZE, SUB_SIZE>>,
        after: &Self,
        batch: BulkFreeStep<PageId<PARENT_SIZE>>,
    ) -> bool {
        &&& after.wf()
        &&& Self::freed_bulk(before@, ids, after@, batch)
    }

    fn alloc_bulk(&mut self, count: usize) -> (r: BulkStep<SubPageId<PARENT_SIZE, SUB_SIZE>>) {
        SubPageAllocator::alloc_bulk(self, count)
    }

    fn free_bulk(&mut self, ids: Vec<SubPageId<PARENT_SIZE, SUB_SIZE>>) -> (r: BulkFreeStep<
        PageId<PARENT_SIZE>,
    >) {
        SubPageAllocator::free_bulk(self, ids)
    }
}

} // verus!
