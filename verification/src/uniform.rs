//! What the traits promise of each kind of page: through them, pages are borrowed, allocated
//! and freed as by the pager and the sub-page allocator themselves.

use vstd::prelude::*;

use crate::allocator::{BulkPageAllocator, PageAllocator, PageHandle};
use crate::bulk::{BulkFreeStep, BulkStep};
use crate::bytes::page_of;
use crate::error::MappedPageError;
use crate::page::PageId;
use crate::pager::{AllocBulkTask, AllocTask, FreeTask, Pager, numbers};
use crate::protected::{AllocProtectedTask, FreeProtectedTask, ProtectedPageId, addressable};
use crate::sub_allocator::{SubAllocTask, SubPageAllocator, SubPageId};
use crate::task::{IoEvent, Turn};

verus! {

// ── Borrowing ─────────────────────────────────────────────────────────────────

/// A page is borrowed as its bytes of the file, if the pager is available and it is a data
/// page of the file, and it may be asked for wherever they lie inside the map.
pub proof fn law_page_handle<const PAGE_SIZE: usize>(
    id: PageId<PAGE_SIZE>,
    pager: Pager<PAGE_SIZE>,
    map: Seq<u8>,
)
    ensures
        ({
            let total = pager@.state.meta.total_pages;
            let owned = pager@.available && 3 <= id.0 < total;
            &&& id.gets(&pager, map) == if owned {
                Ok(page_of(map, id.0 as int, PAGE_SIZE as int))
            } else if !pager@.available {
                Err(MappedPageError::Unavailable)
            } else if id.0 < 3 {
                Err(MappedPageError::ReservedPage)
            } else {
                Err(MappedPageError::OutOfBounds)
            }
            &&& id.can_get(&pager, map) <==> pager.wf() && (owned ==> (id.0 + 1) * PAGE_SIZE
                <= map.len())
            &&& id.can_get_mut(&pager, map) <==> id.can_get(&pager, map)
        }),
{
}

/// A protected page is borrowed as the bytes of its active copy.  It may be asked for
/// wherever those lie inside the map, and a writer for it wherever one of its two copies is
/// the active one.
pub proof fn law_protected_handle<const PAGE_SIZE: usize>(
    id: ProtectedPageId<PAGE_SIZE>,
    pager: Pager<PAGE_SIZE>,
    map: Seq<u8>,
)
    requires
        1024 <= PAGE_SIZE,
    ensures
        ({
            let n = (PAGE_SIZE - 12) / 30;
            let s = pager@.state;
            let (block, slot) = (id.0 as int / n, id.0 as int % n);
            let e = s.dirs[block].entries[slot];
            let held = pager@.available && block < s.dirs.len() && slot
                < s.dirs[block].entries.len() && e.in_use;
            let active = if e.active_slot == 0 {
                e.page_a
            } else {
                e.page_b
            };
            &&& id.gets(&pager, map) == if held {
                Ok(page_of(map, active as int, PAGE_SIZE as int))
            } else if !pager@.available {
                Err(MappedPageError::Unavailable)
            } else {
                Err(MappedPageError::OutOfBounds)
            }
            &&& id.can_get(&pager, map) <==> pager.wf() && (held ==> (active + 1) * PAGE_SIZE
                <= map.len())
            &&& id.can_get_mut(&pager, map) <==> pager.wf() && (held ==> e.active_slot <= 1)
        }),
{
    crate::slots::law_protected_page_can_be_borrowed(pager@, id.0, PAGE_SIZE);
    crate::slots::law_handle_names_a_slot(pager@.state, id.0, PAGE_SIZE);
}

/// A sub-page is borrowed as its bytes, if the pager gives its big page, and it may be asked
/// for wherever that lies inside the map.
pub proof fn law_sub_page_handle<const PARENT_SIZE: usize, const SUB_SIZE: usize>(
    id: SubPageId<PARENT_SIZE, SUB_SIZE>,
    allocator: SubPageAllocator<PARENT_SIZE, SUB_SIZE>,
    map: Seq<u8>,
)
    ensures
        id.gets(&allocator, map) == match id.get_refusal(allocator@) {
            Some(e) => Err(e),
            None => Ok(id.seen(allocator@, map)),
        },
        id.can_get(&allocator, map) <==> allocator.wf() && (id.get_refusal(allocator@) is None
            ==> (id.big(allocator@) + 1) * PARENT_SIZE <= map.len()),
        id.can_get_mut(&allocator, map) <==> id.can_get(&allocator, map),
{
}

// ── Single pages ──────────────────────────────────────────────────────────────

/// Through the trait a page is allocated as [`Pager::allocate`] does it.
pub proof fn law_pager_allocates_pages<const PAGE_SIZE: usize>(
    before: Pager<PAGE_SIZE>,
    after: Pager<PAGE_SIZE>,
    turn: Turn<PageId<PAGE_SIZE>, AllocTask<PAGE_SIZE>>,
    task: AllocTask<PAGE_SIZE>,
    event: IoEvent,
    map: Seq<u8>,
)
    ensures
        PageAllocator::<PageId<PAGE_SIZE>>::can_allocate(&before) <==> before.wf()
            && before@.can_alloc(PAGE_SIZE),
        PageAllocator::<PageId<PAGE_SIZE>>::can_resume_allocate(&before, task, event, map)
            <==> before.wf() && task.belongs_to(before@),
        <Pager<PAGE_SIZE> as PageAllocator<PageId<PAGE_SIZE>>>::allocates(&before, &after, turn)
            ==> after.wf() && before@.alloc_begun(after@, turn),
        <Pager<PAGE_SIZE> as PageAllocator<PageId<PAGE_SIZE>>>::resumes_allocate(
            &before,
            task,
            event,
            map,
            &after,
            turn,
        ) ==> after.wf() && before@.alloc_resumed(task, event, after@, turn),
{
}

/// Through the trait a page is freed as [`Pager::free`] does it.
pub proof fn law_pager_frees_pages<const PAGE_SIZE: usize>(
    before: Pager<PAGE_SIZE>,
    id: PageId<PAGE_SIZE>,
    after: Pager<PAGE_SIZE>,
    turn: Turn<(), FreeTask>,
    event: IoEvent,
    map: Seq<u8>,
)
    ensures
        PageAllocator::<PageId<PAGE_SIZE>>::can_free(&before, id, map) <==> before.wf()
            && before@.can_free(id.0),
        PageAllocator::<PageId<PAGE_SIZE>>::can_resume_free(&before, FreeTask) <==> before.wf(),
        <Pager<PAGE_SIZE> as PageAllocator<PageId<PAGE_SIZE>>>::frees(
            &before,
            id,
            map,
            &after,
            turn,
        ) ==> after.wf() && before@.free_next(id.0, PAGE_SIZE, after@, turn),
        <Pager<PAGE_SIZE> as PageAllocator<PageId<PAGE_SIZE>>>::resumes_free(
            &before,
            FreeTask,
            event,
            &after,
            turn,
        ) ==> after.wf() && before@.free_resumed(event, after@, turn),
{
}

/// Through the trait a protected page is allocated as [`Pager::alloc_protected`] does it.
pub proof fn law_pager_allocates_protected_pages<const PAGE_SIZE: usize>(
    before: Pager<PAGE_SIZE>,
    after: Pager<PAGE_SIZE>,
    turn: Turn<ProtectedPageId<PAGE_SIZE>, AllocProtectedTask>,
    task: AllocProtectedTask,
    event: IoEvent,
    map: Seq<u8>,
)
    ensures
        PageAllocator::<ProtectedPageId<PAGE_SIZE>>::can_allocate(&before) <==> before.wf()
            && addressable(PAGE_SIZE) && before@.can_alloc_protected(PAGE_SIZE),
        PageAllocator::<ProtectedPageId<PAGE_SIZE>>::can_resume_allocate(&before, task, event, map)
            <==> before.wf() && task.belongs_to(before@, PAGE_SIZE) && task.in_map(
            before@,
            event,
            map.len() as int,
            PAGE_SIZE,
        ),
        <Pager<PAGE_SIZE> as PageAllocator<ProtectedPageId<PAGE_SIZE>>>::allocates(
            &before,
            &after,
            turn,
        ) ==> after.wf() && before@.alloc_protected_begun(after@, turn),
        <Pager<PAGE_SIZE> as PageAllocator<ProtectedPageId<PAGE_SIZE>>>::resumes_allocate(
            &before,
            task,
            event,
            map,
            &after,
            turn,
        ) ==> after.wf() && before@.alloc_protected_resumed(task@, event, map, after@, turn),
{
}

/// Through the trait a protected page is freed as [`Pager::free_protected`] does it.
pub proof fn law_pager_frees_protected_pages<const PAGE_SIZE: usize>(
    before: Pager<PAGE_SIZE>,
    id: ProtectedPageId<PAGE_SIZE>,
    after: Pager<PAGE_SIZE>,
    turn: Turn<(), FreeProtectedTask>,
    task: FreeProtectedTask,
    event: IoEvent,
    map: Seq<u8>,
)
    ensures
        PageAllocator::<ProtectedPageId<PAGE_SIZE>>::can_free(&before, id, map) <==> before.wf()
            && (before@.free_protected_refusal(id.0, PAGE_SIZE) is None ==> {
            &&& before@.free_protected_in_map(id.0, map.len() as int, PAGE_SIZE)
            &&& before@.state.meta.free_count + 2 <= u64::MAX
            &&& before@.state.meta.generation < u64::MAX
        }),
        PageAllocator::<ProtectedPageId<PAGE_SIZE>>::can_resume_free(&before, task)
            <==> before.wf() && task.belongs_to(before@),
        <Pager<PAGE_SIZE> as PageAllocator<ProtectedPageId<PAGE_SIZE>>>::frees(
            &before,
            id,
            map,
            &after,
            turn,
        ) ==> after.wf() && before@.free_protected_begun(id.0, map, PAGE_SIZE, after@, turn),
        <Pager<PAGE_SIZE> as PageAllocator<ProtectedPageId<PAGE_SIZE>>>::resumes_free(
            &before,
            task,
            event,
            &after,
            turn,
        ) ==> after.wf() && before@.free_protected_resumed(task, event, PAGE_SIZE, after@, turn),
{
}

/// Through the trait a sub-page is allocated as [`SubPageAllocator::allocate`] does it: if
/// some sub-slot is free, it may always be asked for.
pub proof fn law_sub_pages_are_allocated<const PARENT_SIZE: usize, const SUB_SIZE: usize>(
    before: SubPageAllocator<PARENT_SIZE, SUB_SIZE>,
    after: SubPageAllocator<PARENT_SIZE, SUB_SIZE>,
    turn: Turn<SubPageId<PARENT_SIZE, SUB_SIZE>, SubAllocTask<PARENT_SIZE>>,
    task: SubAllocTask<PARENT_SIZE>,
    event: IoEvent,
    map: Seq<u8>,
)
    ensures
        ({
            let n = PARENT_SIZE as int / SUB_SIZE as int;
            let open = exists|i: int, b: int| #[trigger] crate::subslots::free_at(before@, n, i, b);
            before.can_allocate() <==> before.wf() && (!open ==> {
                &&& before@.slots.len() < u32::MAX
                &&& before@.pager.can_alloc(PARENT_SIZE)
            })
        }),
        before.can_resume_allocate(task, event, map) <==> before.wf() && task.belongs_to(before@),
        SubPageAllocator::<PARENT_SIZE, SUB_SIZE>::allocates(&before, &after, turn) ==> after.wf()
            && SubPageAllocator::<PARENT_SIZE, SUB_SIZE>::allocated(before@, after@, turn),
        SubPageAllocator::<PARENT_SIZE, SUB_SIZE>::resumes_allocate(
            &before,
            task,
            event,
            map,
            &after,
            turn,
        ) ==> after.wf() && SubPageAllocator::<PARENT_SIZE, SUB_SIZE>::alloc_resumed(
            before@,
            task,
            event,
            after@,
            turn,
        ),
{
    if before.wf() {
        SubPageAllocator::<PARENT_SIZE, SUB_SIZE>::lemma_sizes();
        crate::subslots::lemma_open_is_first(before@, 0, PARENT_SIZE as int / SUB_SIZE as int);
    }
}

/// Through the trait a sub-page is freed as [`SubPageAllocator::free`] does it.
pub proof fn law_sub_pages_are_freed<const PARENT_SIZE: usize, const SUB_SIZE: usize>(
    before: SubPageAllocator<PARENT_SIZE, SUB_SIZE>,
    id: SubPageId<PARENT_SIZE, SUB_SIZE>,
    after: SubPageAllocator<PARENT_SIZE, SUB_SIZE>,
    turn: Turn<(), FreeTask>,
    event: IoEvent,
    map: Seq<u8>,
)
    ensures
        before.can_free(id, map) <==> before.wf() && SubPageAllocator::<
            PARENT_SIZE,
            SUB_SIZE,
        >::free_fits(before@, id),
        before.can_resume_free(FreeTask) <==> before.wf(),
        SubPageAllocator::<PARENT_SIZE, SUB_SIZE>::frees(&before, id, map, &after, turn)
            ==> after.wf() && SubPageAllocator::<PARENT_SIZE, SUB_SIZE>::freed(
            before@,
            id,
            after@,
            turn,
        ),
        SubPageAllocator::<PARENT_SIZE, SUB_SIZE>::resumes_free(
            &before,
            FreeTask,
            event,
            &after,
            turn,
        ) ==> after.wf() && after@.slots == before@.slots && before@.pager.free_resumed(
            event,
            after@.pager,
            turn,
        ),
{
}

// ── Batches ───────────────────────────────────────────────────────────────────

/// Through the trait several pages are allocated, or freed, as [`Pager::alloc_bulk`] and
/// [`Pager::free_bulk`] do it.
pub proof fn law_pager_batches_pages<const PAGE_SIZE: usize>(
    before: Pager<PAGE_SIZE>,
    count: usize,
    ids: Seq<PageId<PAGE_SIZE>>,
    after: Pager<PAGE_SIZE>,
    taken: Turn<Vec<PageId<PAGE_SIZE>>, AllocBulkTask<PAGE_SIZE>>,
    freed: Turn<(), FreeTask>,
)
    ensures
        BulkPageAllocator::<PageId<PAGE_SIZE>>::can_alloc_bulk(&before, count) <==> before.wf() && (
        before@.available && count > 0 ==> before@.state.meta.can_take(count as nat, PAGE_SIZE)
            && before@.state.meta.generation < u64::MAX),
        BulkPageAllocator::<PageId<PAGE_SIZE>>::can_free_bulk(&before, ids) <==> before.wf() && (
        before@.free_bulk_refusal(numbers(ids)) is None && ids.len() > 0
            ==> before@.state.meta.free_count + ids.len() <= u64::MAX
            && before@.state.meta.generation < u64::MAX),
        <Pager<PAGE_SIZE> as BulkPageAllocator<PageId<PAGE_SIZE>>>::allocates_bulk(
            &before,
            count,
            &after,
            taken,
        ) ==> after.wf() && before@.alloc_bulk_begun(count, after@, taken),
        <Pager<PAGE_SIZE> as BulkPageAllocator<PageId<PAGE_SIZE>>>::frees_bulk(
            &before,
            ids,
            &after,
            freed,
        ) ==> after.wf() && before@.free_bulk_next(numbers(ids), PAGE_SIZE, after@, freed),
{
}

/// Through the trait several protected pages are allocated, or freed, as
/// [`Pager::alloc_protected_bulk`] and [`Pager::free_protected_bulk`] do it; neither changes
/// the pager before its first step.
pub proof fn law_pager_batches_protected_pages<const PAGE_SIZE: usize>(
    before: Pager<PAGE_SIZE>,
    count: usize,
    ids: Seq<ProtectedPageId<PAGE_SIZE>>,
    after: Pager<PAGE_SIZE>,
    taken: BulkStep<ProtectedPageId<PAGE_SIZE>>,
    freed: BulkFreeStep<ProtectedPageId<PAGE_SIZE>>,
)
    ensures
        BulkPageAllocator::<ProtectedPageId<PAGE_SIZE>>::can_alloc_bulk(&before, count),
        BulkPageAllocator::<ProtectedPageId<PAGE_SIZE>>::can_free_bulk(&before, ids)
            <==> before.wf(),
        <Pager<PAGE_SIZE> as BulkPageAllocator<ProtectedPageId<PAGE_SIZE>>>::allocates_bulk(
            &before,
            count,
            &after,
            taken,
        ) ==> after == before && before@.alloc_protected_bulk_begun(count, taken),
        <Pager<PAGE_SIZE> as BulkPageAllocator<ProtectedPageId<PAGE_SIZE>>>::frees_bulk(
            &before,
            ids,
            &after,
            freed,
        ) ==> after == before && before@.free_protected_bulk_begun(ids, freed),
{
}

/// Through the trait several sub-pages are allocated one after the other, exactly as many as
/// are asked for, and freed as [`SubPageAllocator::free_bulk`] does it.
pub proof fn law_sub_pages_are_batched<const PARENT_SIZE: usize, const SUB_SIZE: usize>(
    before: SubPageAllocator<PARENT_SIZE, SUB_SIZE>,
    count: usize,
    ids: Seq<SubPageId<PARENT_SIZE, SUB_SIZE>>,
    after: SubPageAllocator<PARENT_SIZE, SUB_SIZE>,
    taken: BulkStep<SubPageId<PARENT_SIZE, SUB_SIZE>>,
    freed: BulkFreeStep<PageId<PARENT_SIZE>>,
)
    ensures
        before.can_alloc_bulk(count),
        before.can_free_bulk(ids) <==> before.wf(),
        SubPageAllocator::<PARENT_SIZE, SUB_SIZE>::allocates_bulk(&before, count, &after, taken)
            ==> after == before && match taken {
            BulkStep::Allocate(batch) => count > 0 && batch.want == count && batch.got@.len() == 0,
            BulkStep::Done(Ok(none)) => count == 0 && none@.len() == 0,
            _ => false,
        },
        SubPageAllocator::<PARENT_SIZE, SUB_SIZE>::frees_bulk(&before, ids, &after, freed)
            ==> after.wf() && SubPageAllocator::<PARENT_SIZE, SUB_SIZE>::freed_bulk(
            before@,
            ids,
            after@,
            freed,
        ),
{
}

} // verus!
