//! Which big pages a sub-page allocator has checked out: an invariant that every
//! operation keeps.

use vstd::prelude::*;

use crate::bulk::BulkFreeStep;
use crate::growth::lemma_mark_allocates;
use crate::live::lemma_least_bad;
use crate::meta::{
    FIRST_DATA_PAGE, law_grown_is_accurate, law_mark_is_accurate, law_release_is_accurate,
};
use crate::page::PageId;
use crate::pager::{AllocTask, FreeTask, PagerView};
use crate::sub_allocator::{
    SubAllocTask, SubPageAllocator, SubPageId, SubView, emptied, lemma_open_from,
    lemma_vacant_from, tombstoned, with_taken,
};
use crate::task::{IoEvent, Turn};

verus! {

impl<const PARENT_SIZE: usize> SubView<PARENT_SIZE> {
    /// Every big page checked out is an allocated page of the pager, and none is
    /// checked out twice.
    pub open spec fn checked_out(self) -> bool {
        &&& forall|i: int|
            0 <= i < self.slots.len() ==> (#[trigger] self.slots[i] matches Some(slot)
                ==> self.pager.state.meta.allocated(slot.id.0 as int))
        &&& forall|i: int, j: int|
            0 <= i < j < self.slots.len() && (#[trigger] self.slots[i]) is Some && (
            #[trigger] self.slots[j]) is Some ==> self.slots[i]->0.id.0 != self.slots[j]->0.id.0
    }

    /// Page `id` is checked out.
    pub open spec fn has_out(self, id: u64) -> bool {
        exists|i: int|
            0 <= i < self.slots.len() && ((#[trigger] self.slots[i]) matches Some(slot)
                && slot.id.0 == id)
    }
}

/// Where no big page is checked out, the invariant holds.
pub proof fn law_none_checked_out<const PARENT_SIZE: usize>(v: SubView<PARENT_SIZE>)
    requires
        v.slots.len() == 0,
    ensures
        v.checked_out(),
{
}

/// Whatever the pager does keeps the invariant, if no page that is checked out is
/// freed.  So do commits, allocation and growth.
pub proof fn law_pager_keeps_checked_out<const PARENT_SIZE: usize>(
    v: SubView<PARENT_SIZE>,
    p: PagerView,
)
    requires
        v.checked_out(),
        forall|id: u64|
            v.has_out(id) && v.pager.state.meta.allocated(id as int)
                ==> #[trigger] p.state.meta.allocated(id as int),
    ensures
        v.with_pager(p).checked_out(),
{
    let w = v.with_pager(p);
    assert forall|i: int| 0 <= i < w.slots.len() implies (#[trigger] w.slots[i] matches Some(slot)
        ==> w.pager.state.meta.allocated(slot.id.0 as int)) by {
        if let Some(slot) = w.slots[i] {
            assert(v.slots[i] == Some(slot));
            assert(v.has_out(slot.id.0));
        }
    }
}

/// The doubling of the file keeps the invariant.
pub proof fn law_growth_keeps_checked_out<const PARENT_SIZE: usize>(v: SubView<PARENT_SIZE>)
    requires
        v.checked_out(),
        v.pager.state.meta.well_sized(),
        2 * v.pager.state.meta.total_pages <= u64::MAX,
    ensures
        v.with_pager(v.pager.with_meta(v.pager.state.meta.doubled())).checked_out(),
{
    crate::growth::lemma_doubled_keeps(v.pager.state.meta);
    law_pager_keeps_checked_out(v, v.pager.with_meta(v.pager.state.meta.doubled()));
}

/// Handing out a sub-page of a big page in use keeps the invariant.
pub proof fn law_sub_alloc_keeps_checked_out<const PARENT_SIZE: usize>(
    v: SubView<PARENT_SIZE>,
    n: int,
    i: int,
    b: int,
)
    requires
        v.checked_out(),
        v.open_from(0, n) == Some((i, b)),
    ensures
        v.with_used(i, with_taken(v.slots[i]->0.used, b)).checked_out(),
{
    lemma_open_from(v, 0, n);
}

/// The page that the pager hands out for a new big page is not checked out yet, and
/// marking it as allocated keeps the invariant.
pub proof fn law_mark_keeps_checked_out<const PARENT_SIZE: usize>(
    v: SubView<PARENT_SIZE>,
    id: u64,
)
    requires
        v.checked_out(),
        v.pager.state.meta.lowest_free() == Some(id),
    ensures
        ({
            let p = v.pager.with_meta(v.pager.state.meta.mark(id)).bumped();
            &&& !v.has_out(id)
            &&& v.with_pager(p).checked_out()
            &&& p.state.meta.allocated(id as int)
        }),
{
    let m = v.pager.state.meta;
    let p = v.pager.with_meta(m.mark(id)).bumped();
    lemma_mark_allocates(m, id);
    assert forall|j: int| #[trigger] p.state.meta.allocated(j) <==> m.mark(id).allocated(j) by {}
    law_pager_keeps_checked_out(v, p);
    assert(m.mark(id).allocated(id as int));
    if v.has_out(id) {
        let k = choose|k: int|
            0 <= k < v.slots.len() && ((#[trigger] v.slots[k]) matches Some(slot) && slot.id.0
                == id);
        assert(m.allocated(v.slots[k]->0.id.0 as int));
    }
}

/// Putting an allocated page that is not checked out yet into the first vacant slot
/// keeps the invariant, and every other slot is as before.
pub proof fn law_placed_keeps_checked_out<const PARENT_SIZE: usize>(
    v: SubView<PARENT_SIZE>,
    id: u64,
)
    requires
        v.checked_out(),
        v.pager.state.meta.allocated(id as int),
        !v.has_out(id),
    ensures
        ({
            let i = v.vacant_from(0);
            let w = v.with_big(i, PageId(id));
            &&& w.checked_out()
            &&& w.has_out(id)
            &&& forall|j: int| 0 <= j < v.slots.len() && j != i ==> w.slots[j] == v.slots[j]
            &&& 0 <= i <= v.slots.len()
            &&& i < v.slots.len() ==> v.slots[i] is None
        }),
{
    let i = v.vacant_from(0);
    let w = v.with_big(i, PageId(id));
    lemma_vacant_from(v, 0);
    assert forall|j: int| 0 <= j < w.slots.len() && j != i implies #[trigger] w.slots[j]
        == v.slots[j] && !(v.slots[j] matches Some(slot) && slot.id.0 == id) by {
        assert(!v.has_out(id));
    }
    assert(w.slots[i]->0.id.0 == id);
    assert forall|j: int, k: int|
        0 <= j < k < w.slots.len() && (#[trigger] w.slots[j]) is Some && (
        #[trigger] w.slots[k]) is Some implies w.slots[j]->0.id.0 != w.slots[k]->0.id.0 by {
        if j != i && k != i {
            assert(v.slots[j] is Some && v.slots[k] is Some ==> v.slots[j]->0.id.0
                != v.slots[k]->0.id.0);
        }
    }
}

/// Freeing a page that is not checked out keeps the invariant.
pub proof fn law_release_keeps_checked_out<const PARENT_SIZE: usize>(
    v: SubView<PARENT_SIZE>,
    id: u64,
)
    requires
        v.checked_out(),
        v.pager.state.meta.well_sized(),
        v.pager.state.meta.allocated(id as int),
        !v.has_out(id),
    ensures
        v.with_pager(v.pager.with_meta(v.pager.state.meta.release(id)).bumped()).checked_out(),
{
    let m = v.pager.state.meta;
    let p = v.pager.with_meta(m.release(id)).bumped();
    assert forall|j: u64| v.has_out(j) && m.allocated(j as int) implies #[trigger] p.state.meta.allocated(
        j as int,
    ) by {
        crate::bitmap::lemma_with_clear(m.bitmap, id as int, j as int);
    }
    law_pager_keeps_checked_out(v, p);
}

/// Freeing a sub-page keeps the invariant; a big page with no sub-page left is then
/// no longer checked out, so it can be given back.
pub proof fn law_sub_free_keeps_checked_out<const PARENT_SIZE: usize>(
    v: SubView<PARENT_SIZE>,
    i: int,
    b: int,
)
    requires
        v.checked_out(),
        v.pager.state.meta.well_sized(),
        0 <= i < v.slots.len(),
        v.slots[i] is Some,
    ensures
        ({
            let w = v.with_freed(i, b);
            let id = v.slots[i]->0.id.0;
            &&& w.checked_out()
            &&& v.empties(i, b) ==> {
                &&& !w.has_out(id)
                &&& w.with_pager(
                    w.pager.with_meta(w.pager.state.meta.release(id)).bumped(),
                ).checked_out()
            }
        }),
{
    let w = v.with_freed(i, b);
    let id = v.slots[i]->0.id.0;
    assert forall|j: int| 0 <= j < w.slots.len() && j != i implies #[trigger] w.slots[j]
        == v.slots[j] by {}
    assert forall|j: int, k: int|
        0 <= j < k < w.slots.len() && (#[trigger] w.slots[j]) is Some && (
        #[trigger] w.slots[k]) is Some implies w.slots[j]->0.id.0 != w.slots[k]->0.id.0 by {
        assert(v.slots[j] is Some && v.slots[k] is Some ==> v.slots[j]->0.id.0
            != v.slots[k]->0.id.0);
    }
    if v.empties(i, b) {
        assert(!w.has_out(id)) by {
            if w.has_out(id) {
                let k = choose|k: int|
                    0 <= k < w.slots.len() && ((#[trigger] w.slots[k]) matches Some(slot)
                        && slot.id.0 == id);
                assert(v.slots[k] == w.slots[k]);
            }
        }
        law_release_keeps_checked_out(w, id);
    }
}

/// Clearing sub-slots changes no big page.
proof fn lemma_cleared_ids<const PARENT_SIZE: usize, const SUB_SIZE: usize>(
    v: SubView<PARENT_SIZE>,
    ids: Seq<SubPageId<PARENT_SIZE, SUB_SIZE>>,
)
    requires
        SubPageAllocator::<PARENT_SIZE, SUB_SIZE>::least_bad(v, ids) is None,
    ensures
        ({
            let w = SubPageAllocator::<PARENT_SIZE, SUB_SIZE>::cleared(v, ids);
            &&& w.pager == v.pager
            &&& w.slots.len() == v.slots.len()
            &&& forall|i: int|
                0 <= i < v.slots.len() ==> {
                    &&& (#[trigger] w.slots[i] is Some <==> v.slots[i] is Some)
                    &&& w.slots[i] is Some ==> w.slots[i]->0.id == v.slots[i]->0.id
                }
        }),
    decreases ids.len(),
{
    if ids.len() > 0 {
        lemma_cleared_ids(v, ids.drop_last());
    }
}

/// Freeing sub-pages together keeps the invariant, and the big pages that are then
/// to be given back are allocated, no longer checked out, and all different.
pub proof fn law_sub_free_bulk_keeps_checked_out<
    const PARENT_SIZE: usize,
    const SUB_SIZE: usize,
>(v: SubView<PARENT_SIZE>, ids: Seq<SubPageId<PARENT_SIZE, SUB_SIZE>>)
    requires
        v.checked_out(),
        SubPageAllocator::<PARENT_SIZE, SUB_SIZE>::least_bad(v, ids) is None,
    ensures
        ({
            let w = SubPageAllocator::<PARENT_SIZE, SUB_SIZE>::cleared(v, ids);
            let t = SubView { slots: tombstoned(w.slots), ..w };
            let pages = emptied(w.slots, w.slots.len() as int);
            &&& t.checked_out()
            &&& forall|k: int|
                0 <= k < pages.len() ==> {
                    &&& t.pager.state.meta.allocated((#[trigger] pages[k]).0 as int)
                    &&& !t.has_out(pages[k].0)
                }
            &&& forall|k: int, l: int|
                0 <= k < l < pages.len() ==> (#[trigger] pages[k]).0 != (#[trigger] pages[l]).0
        }),
{
    let w = SubPageAllocator::<PARENT_SIZE, SUB_SIZE>::cleared(v, ids);
    let t = SubView { slots: tombstoned(w.slots), ..w };
    lemma_cleared_ids(v, ids);
    assert(w.checked_out()) by {
        assert forall|i: int, j: int|
            0 <= i < j < w.slots.len() && (#[trigger] w.slots[i]) is Some && (
            #[trigger] w.slots[j]) is Some implies w.slots[i]->0.id.0 != w.slots[j]->0.id.0 by {
            assert(v.slots[i] is Some && v.slots[j] is Some ==> v.slots[i]->0.id.0
                != v.slots[j]->0.id.0);
        }
    }
    assert forall|i: int, j: int|
        0 <= i < j < t.slots.len() && (#[trigger] t.slots[i]) is Some && (
        #[trigger] t.slots[j]) is Some implies t.slots[i]->0.id.0 != t.slots[j]->0.id.0 by {
        assert(w.slots[i] is Some && w.slots[j] is Some ==> w.slots[i]->0.id.0
            != w.slots[j]->0.id.0);
    }
    lemma_emptied(w, t, w.slots.len() as int);
}

/// The big pages of the emptied slots below `upto`.
proof fn lemma_emptied<const PARENT_SIZE: usize>(
    w: SubView<PARENT_SIZE>,
    t: SubView<PARENT_SIZE>,
    upto: int,
)
    requires
        w.checked_out(),
        t == (SubView { slots: tombstoned(w.slots), ..w }),
        0 <= upto <= w.slots.len(),
    ensures
        ({
            let pages = emptied(w.slots, upto);
            &&& forall|k: int|
                0 <= k < pages.len() ==> {
                    &&& t.pager.state.meta.allocated((#[trigger] pages[k]).0 as int)
                    &&& !t.has_out(pages[k].0)
                    &&& exists|i: int|
                        0 <= i < upto && ((#[trigger] w.slots[i]) matches Some(slot) && slot.id
                            == pages[k])
                }
            &&& forall|k: int, l: int|
                0 <= k < l < pages.len() ==> (#[trigger] pages[k]).0 != (#[trigger] pages[l]).0
        }),
    decreases upto,
{
    if upto > 0 {
        lemma_emptied(w, t, upto - 1);
        let before = emptied(w.slots, upto - 1);
        let pages = emptied(w.slots, upto);
        match w.slots[upto - 1] {
            Some(slot) if slot.used == 0 => {
                let id = slot.id.0;
                assert(t.slots[upto - 1] is None);
                assert(!t.has_out(id)) by {
                    if t.has_out(id) {
                        let i = choose|i: int|
                            0 <= i < t.slots.len() && ((#[trigger] t.slots[i]) matches Some(other)
                                && other.id.0 == id);
                        assert(w.slots[i] == t.slots[i]);
                        assert(i != upto - 1);
                        if i < upto - 1 {
                            assert(w.slots[i]->0.id.0 != w.slots[upto - 1]->0.id.0);
                        } else {
                            assert(w.slots[upto - 1]->0.id.0 != w.slots[i]->0.id.0);
                        }
                    }
                }
                assert forall|k: int| 0 <= k < pages.len() implies {
                    &&& t.pager.state.meta.allocated((#[trigger] pages[k]).0 as int)
                    &&& !t.has_out(pages[k].0)
                    &&& exists|i: int|
                        0 <= i < upto && ((#[trigger] w.slots[i]) matches Some(s) && s.id
                            == pages[k])
                } by {
                    if k < before.len() {
                        assert(pages[k] == before[k]);
                        let i = choose|i: int|
                            0 <= i < upto - 1 && ((#[trigger] w.slots[i]) matches Some(s) && s.id
                                == before[k]);
                        assert(w.slots[i]->0.id == pages[k]);
                    } else {
                        assert(w.slots[upto - 1]->0.id == pages[k]);
                    }
                }
                assert forall|k: int, l: int| 0 <= k < l < pages.len() implies (
                #[trigger] pages[k]).0 != (#[trigger] pages[l]).0 by {
                    assert(pages[k] == before[k]);
                    if l < before.len() {
                        assert(pages[l] == before[l]);
                    } else {
                        let i = choose|i: int|
                            0 <= i < upto - 1 && ((#[trigger] w.slots[i]) matches Some(s) && s.id
                                == before[k]);
                        assert(w.slots[i]->0.id.0 != w.slots[upto - 1]->0.id.0);
                    }
                }
            },
            _ => {
                assert(pages == before);
                assert forall|k: int| 0 <= k < pages.len() implies exists|i: int|
                    0 <= i < upto && ((#[trigger] w.slots[i]) matches Some(s) && s.id
                        == #[trigger] pages[k]) by {
                    let i = choose|i: int|
                        0 <= i < upto - 1 && ((#[trigger] w.slots[i]) matches Some(s) && s.id
                            == before[k]);
                    assert(w.slots[i]->0.id == pages[k]);
                }
            },
        }
    }
}

// ── Data pages ────────────────────────────────────────────────────────────────

impl<const PARENT_SIZE: usize> SubView<PARENT_SIZE> {
    /// The metadata are accurate, and every big page checked out is a data page.
    pub open spec fn holds_data_pages(self) -> bool {
        &&& self.pager.state.meta.accurate()
        &&& forall|i: int|
            0 <= i < self.slots.len() ==> (#[trigger] self.slots[i] matches Some(slot)
                ==> FIRST_DATA_PAGE <= slot.id.0)
    }
}

impl<const PARENT_SIZE: usize> SubAllocTask<PARENT_SIZE> {
    /// The big page that is being committed, if one is, is a data page.
    pub open spec fn brings_data_page(self) -> bool {
        self.0 matches AllocTask::Commit(id) ==> FIRST_DATA_PAGE <= id.0
    }
}

/// An allocator that has nothing checked out, of a pager with accurate metadata, holds
/// data pages alone.
pub proof fn law_none_out_holds_data_pages<const PARENT_SIZE: usize>(v: SubView<PARENT_SIZE>)
    requires
        v.slots.len() == 0,
        v.pager.state.meta.accurate(),
    ensures
        v.holds_data_pages(),
{
}

/// Whatever the pager does to its metadata, as long as they stay accurate, the allocator
/// holds data pages alone.
pub proof fn law_pager_keeps_data_pages<const PARENT_SIZE: usize>(
    v: SubView<PARENT_SIZE>,
    p: PagerView,
)
    requires
        v.holds_data_pages(),
        p.state.meta.accurate(),
    ensures
        v.with_pager(p).holds_data_pages(),
{
}

/// The release of a data page keeps the metadata accurate: as it begins, also where the
/// page cannot be freed, and as it ends, however its commit goes.
pub proof fn law_free_keeps_accurate(
    v: PagerView,
    id: u64,
    page_size: usize,
    event: IoEvent,
    w: PagerView,
    turn: Turn<(), FreeTask>,
)
    requires
        v.state.meta.accurate(),
        v.free_next(id, page_size, w, turn) || v.free_resumed(event, w, turn),
    ensures
        w.state.meta.accurate(),
{
    if v.free_next(id, page_size, w, turn) && v.state.free_refusal(id) is None {
        law_release_is_accurate(v.state.meta, id);
    }
}

/// The allocation of a page keeps the metadata accurate as it goes on, and the page is a
/// data page.
proof fn lemma_alloc_next_keeps_accurate<const PAGE_SIZE: usize>(
    v: PagerView,
    w: PagerView,
    turn: Turn<PageId<PAGE_SIZE>, AllocTask<PAGE_SIZE>>,
)
    requires
        v.state.meta.accurate(),
        v.alloc_next(w, turn),
    ensures
        w.state.meta.accurate(),
        turn matches Turn::Ask(_, AllocTask::Commit(id)) ==> FIRST_DATA_PAGE <= id.0,
{
    if let Some(id) = v.state.meta.lowest_free() {
        law_mark_is_accurate(v.state.meta, id);
    }
}

/// Beginning an allocation keeps it so that the allocator holds data pages alone.
pub proof fn law_sub_alloc_keeps_data_pages<const PARENT_SIZE: usize, const SUB_SIZE: usize>(
    v: SubView<PARENT_SIZE>,
    w: SubView<PARENT_SIZE>,
    turn: Turn<SubPageId<PARENT_SIZE, SUB_SIZE>, SubAllocTask<PARENT_SIZE>>,
)
    requires
        v.holds_data_pages(),
        SubPageAllocator::<PARENT_SIZE, SUB_SIZE>::allocated(v, w, turn),
    ensures
        w.holds_data_pages(),
        turn matches Turn::Ask(_, task) ==> task.brings_data_page(),
{
    let n = SubPageAllocator::<PARENT_SIZE, SUB_SIZE>::per_page();
    lemma_open_from(v, 0, n);
    if v.open_from(0, n) is None {
        if v.pager.available {
            if let Turn::Ask(request, SubAllocTask(task)) = turn {
                lemma_alloc_next_keeps_accurate::<PARENT_SIZE>(
                    v.pager,
                    w.pager,
                    Turn::Ask(request, task),
                );
            }
        } else if let Some(id) = v.pager.state.meta.lowest_free() {
            law_mark_is_accurate(v.pager.state.meta, id);
        }
    } else {
        assert forall|j: int| 0 <= j < w.slots.len() implies (#[trigger] w.slots[j] matches Some(
            slot,
        ) ==> FIRST_DATA_PAGE <= slot.id.0) by {
            assert(v.slots[j] matches Some(slot) ==> FIRST_DATA_PAGE <= slot.id.0);
        }
    }
}

/// Going on with an allocation keeps it so that the allocator holds data pages alone.
pub proof fn law_sub_alloc_goes_on_with_data_pages<
    const PARENT_SIZE: usize,
    const SUB_SIZE: usize,
>(
    v: SubView<PARENT_SIZE>,
    task: SubAllocTask<PARENT_SIZE>,
    event: IoEvent,
    w: SubView<PARENT_SIZE>,
    turn: Turn<SubPageId<PARENT_SIZE, SUB_SIZE>, SubAllocTask<PARENT_SIZE>>,
)
    requires
        v.holds_data_pages(),
        task.belongs_to(v),
        task.brings_data_page(),
        SubPageAllocator::<PARENT_SIZE, SUB_SIZE>::alloc_resumed(v, task, event, w, turn),
    ensures
        w.holds_data_pages(),
        turn matches Turn::Ask(_, next) ==> next.brings_data_page(),
{
    match task.0 {
        AllocTask::Commit(id) => {
            if event is Done {
                let c = v.with_pager(v.pager.committed());
                lemma_vacant_from(c, 0);
                assert forall|j: int| 0 <= j < w.slots.len() implies (
                #[trigger] w.slots[j] matches Some(slot) ==> FIRST_DATA_PAGE <= slot.id.0) by {
                    if j < v.slots.len() {
                        assert(v.slots[j] matches Some(slot) ==> FIRST_DATA_PAGE <= slot.id.0);
                    }
                }
            }
        },
        AllocTask::Grow(grow) => {
            let m = v.pager.state.meta;
            law_grown_is_accurate(m, (2 * m.total_pages) as u64);
            let (p, grown) = v.pager.grow_next(grow, event, PARENT_SIZE);
            if grown is Grown {
                if let Turn::Ask(request, SubAllocTask(next)) = turn {
                    lemma_alloc_next_keeps_accurate::<PARENT_SIZE>(
                        p,
                        w.pager,
                        Turn::Ask(request, next),
                    );
                }
            }
        },
    }
}

/// Freeing a sub-page keeps it so that the allocator holds data pages alone.
pub proof fn law_sub_free_keeps_data_pages<const PARENT_SIZE: usize, const SUB_SIZE: usize>(
    v: SubView<PARENT_SIZE>,
    id: SubPageId<PARENT_SIZE, SUB_SIZE>,
    w: SubView<PARENT_SIZE>,
    turn: Turn<(), FreeTask>,
)
    requires
        v.holds_data_pages(),
        SubPageAllocator::<PARENT_SIZE, SUB_SIZE>::freed(v, id, w, turn),
    ensures
        w.holds_data_pages(),
{
    let i = id.slot_index as int;
    if SubPageAllocator::<PARENT_SIZE, SUB_SIZE>::refusal(v, id) is None {
        assert(v.slots[i] is Some);
        if v.empties(i, id.sub_index as int) {
            law_free_keeps_accurate(
                v.pager,
                v.slots[i]->0.id.0,
                PARENT_SIZE,
                IoEvent::Done,
                w.pager,
                turn,
            );
        }
        assert forall|j: int| 0 <= j < w.slots.len() implies (#[trigger] w.slots[j] matches Some(
            slot,
        ) ==> FIRST_DATA_PAGE <= slot.id.0) by {
            assert(v.slots[j] matches Some(slot) ==> FIRST_DATA_PAGE <= slot.id.0);
        }
    }
}

/// Freeing several sub-pages keeps it so that the allocator holds data pages alone.
pub proof fn law_sub_free_bulk_keeps_data_pages<const PARENT_SIZE: usize, const SUB_SIZE: usize>(
    v: SubView<PARENT_SIZE>,
    ids: Seq<SubPageId<PARENT_SIZE, SUB_SIZE>>,
    w: SubView<PARENT_SIZE>,
    step: BulkFreeStep<PageId<PARENT_SIZE>>,
)
    requires
        v.holds_data_pages(),
        SubPageAllocator::<PARENT_SIZE, SUB_SIZE>::freed_bulk(v, ids, w, step),
    ensures
        w.holds_data_pages(),
{
    if SubPageAllocator::<PARENT_SIZE, SUB_SIZE>::bulk_refusal(v, ids) is None {
        lemma_least_bad(v, ids);
        lemma_cleared_ids(v, ids);
        let c = SubPageAllocator::<PARENT_SIZE, SUB_SIZE>::cleared(v, ids);
        assert forall|j: int| 0 <= j < w.slots.len() implies (#[trigger] w.slots[j] matches Some(
            slot,
        ) ==> FIRST_DATA_PAGE <= slot.id.0) by {
            assert(c.slots[j] is Some ==> v.slots[j] is Some && c.slots[j]->0.id
                == v.slots[j]->0.id);
            assert(v.slots[j] matches Some(slot) ==> FIRST_DATA_PAGE <= slot.id.0);
        }
    }
}

/// On a pager that is available, every live sub-page can be borrowed, if the allocator
/// holds data pages alone.
pub proof fn law_live_sub_page_can_be_borrowed<const PARENT_SIZE: usize, const SUB_SIZE: usize>(
    v: SubView<PARENT_SIZE>,
    id: SubPageId<PARENT_SIZE, SUB_SIZE>,
)
    requires
        v.pager.available,
        v.checked_out(),
        v.holds_data_pages(),
        SubPageAllocator::<PARENT_SIZE, SUB_SIZE>::live(v, id),
    ensures
        id.get_refusal(v) is None,
{
    let i = id.slot_index as int;
    assert(v.slots[i] is Some);
    assert(v.pager.state.meta.allocated(v.slots[i]->0.id.0 as int));
}

/// Different sub-pages share no byte of the file.
pub proof fn law_sub_pages_share_no_byte<const PARENT_SIZE: usize, const SUB_SIZE: usize>(
    v: SubView<PARENT_SIZE>,
    x: SubPageId<PARENT_SIZE, SUB_SIZE>,
    y: SubPageId<PARENT_SIZE, SUB_SIZE>,
)
    requires
        crate::sub_allocator::valid_sub_size(PARENT_SIZE, SUB_SIZE),
        v.checked_out(),
        x.get_refusal(v) is None,
        y.get_refusal(v) is None,
        x != y,
    ensures
        ({
            let at_x = x.big(v) * PARENT_SIZE + x.sub_index * SUB_SIZE;
            let at_y = y.big(v) * PARENT_SIZE + y.sub_index * SUB_SIZE;
            at_x + SUB_SIZE <= at_y || at_y + SUB_SIZE <= at_x
        }),
{
    SubPageAllocator::<PARENT_SIZE, SUB_SIZE>::lemma_sizes();
    let n = SubPageAllocator::<PARENT_SIZE, SUB_SIZE>::per_page();
    let (b, c) = (x.sub_index as int, y.sub_index as int);
    let (p, q) = (x.big(v) as int, y.big(v) as int);
    let (big, sub) = (PARENT_SIZE as int, SUB_SIZE as int);
    assert(0 <= b * sub && b * sub + sub <= n * sub) by (nonlinear_arith)
        requires
            0 <= b < n,
            0 < sub,
    ;
    assert(0 <= c * sub && c * sub + sub <= n * sub) by (nonlinear_arith)
        requires
            0 <= c < n,
            0 < sub,
    ;
    if x.slot_index == y.slot_index {
        assert(b < c ==> b * sub + sub <= c * sub) by (nonlinear_arith)
            requires
                0 < sub,
        ;
        assert(c < b ==> c * sub + sub <= b * sub) by (nonlinear_arith)
            requires
                0 < sub,
        ;
    } else {
        assert(v.slots[x.slot_index as int] is Some && v.slots[y.slot_index as int] is Some);
        assert(p != q);
        assert(p < q ==> p * big + big <= q * big) by (nonlinear_arith)
            requires
                0 < big,
        ;
        assert(q < p ==> q * big + big <= p * big) by (nonlinear_arith)
            requires
                0 < big,
        ;
    }
}

} // verus!
