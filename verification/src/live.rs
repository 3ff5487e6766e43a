//! Which handles are live, and what the operations do to that.

use vstd::prelude::*;

use crate::bulk::{
    BulkFreeStep, BulkStep, alloc_step, batch_turn, free_step, law_batch_is_all_or_nothing,
    lemma_batch_state, start_step, undo_step,
};
use crate::bytes::page_of;
use crate::directory::spec_dir_entries_per_page;
use crate::error::MappedPageError;
use crate::image::{StateView, valid_page_size};
use crate::ownership::{
    law_freed_handle_is_gone, lemma_handles_apart, lemma_wf_sizes, lemma_with_page,
};
use crate::page::{PageId, page_in_map};
use crate::pager::{FreeTask, PagerView};
use crate::protected::{
    AllocProtectedTask, AllocProtectedTaskView, FreeProtectedTask, Place, ProtectedPageId,
    addressable, lemma_open_slot,
};
use crate::sub_allocator::{
    BigPageSlot, SubAllocTask, SubPageAllocator, SubPageId, SubView, emptied, keys,
    law_sub_pages_apart, lemma_open_from, lemma_same_taken, lemma_taken_below, lemma_taken_of_one,
    lemma_vacant_from, lemma_with_taken, lemma_without_taken, lemma_zero_mask, taken,
    valid_sub_size, with_sub_page, without_taken,
};
use crate::task::{IoEvent, Turn};

verus! {

// ── Single sub-pages ──────────────────────────────────────────────────────────

impl<const PARENT_SIZE: usize, const SUB_SIZE: usize> SubPageAllocator<PARENT_SIZE, SUB_SIZE> {
    /// Handle `id` names a sub-page that is allocated.
    pub open spec fn live(v: SubView<PARENT_SIZE>, id: SubPageId<PARENT_SIZE, SUB_SIZE>) -> bool {
        Self::refusal(v, id) is None
    }

    /// The live handles of `w` are those of `v` and `id`, which is not one of them.
    pub open spec fn live_with(
        v: SubView<PARENT_SIZE>,
        w: SubView<PARENT_SIZE>,
        id: SubPageId<PARENT_SIZE, SUB_SIZE>,
    ) -> bool {
        &&& !Self::live(v, id)
        &&& forall|x: SubPageId<PARENT_SIZE, SUB_SIZE>|
            #[trigger] Self::live(w, x) <==> Self::live(v, x) || x == id
    }

    /// The live handles of `w` are those of `v`.
    pub open spec fn live_same(v: SubView<PARENT_SIZE>, w: SubView<PARENT_SIZE>) -> bool {
        forall|x: SubPageId<PARENT_SIZE, SUB_SIZE>|
            #[trigger] Self::live(w, x) <==> Self::live(v, x)
    }

    /// An allocation that asks in `turn`, or is done, ends with `result` after `n`
    /// more events, whatever they are.
    pub open spec fn alloc_ends(
        v: SubView<PARENT_SIZE>,
        turn: Turn<SubPageId<PARENT_SIZE, SUB_SIZE>, SubAllocTask<PARENT_SIZE>>,
        n: nat,
        w: SubView<PARENT_SIZE>,
        result: Result<SubPageId<PARENT_SIZE, SUB_SIZE>, MappedPageError>,
    ) -> bool
        decreases n,
    {
        match turn {
            Turn::Done(r) => n == 0 && w == v && result == r,
            Turn::Ask(_, task) => n > 0 && exists|
                event: IoEvent,
                v1: SubView<PARENT_SIZE>,
                turn1: Turn<SubPageId<PARENT_SIZE, SUB_SIZE>, SubAllocTask<PARENT_SIZE>>,
            |
                #[trigger] Self::alloc_resumed(v, task, event, v1, turn1) && Self::alloc_ends(
                    v1,
                    turn1,
                    (n - 1) as nat,
                    w,
                    result,
                ),
        }
    }

    /// A whole allocation leads from `v` to `w` and results in `result`.
    pub open spec fn completes_alloc(
        v: SubView<PARENT_SIZE>,
        w: SubView<PARENT_SIZE>,
        result: Result<SubPageId<PARENT_SIZE, SUB_SIZE>, MappedPageError>,
    ) -> bool {
        &&& v.open_from(0, Self::per_page()) is None ==> v.slots.len() < u32::MAX
        &&& exists|
            v1: SubView<PARENT_SIZE>,
            turn: Turn<SubPageId<PARENT_SIZE, SUB_SIZE>, SubAllocTask<PARENT_SIZE>>,
            n: nat,
        |
            #[trigger] Self::allocated(v, v1, turn) && #[trigger] Self::alloc_ends(
                v1,
                turn,
                n,
                w,
                result,
            )
    }

    /// A whole release of `id` leads from `v` to `w`.
    pub open spec fn completes_free(
        v: SubView<PARENT_SIZE>,
        id: SubPageId<PARENT_SIZE, SUB_SIZE>,
        w: SubView<PARENT_SIZE>,
    ) -> bool {
        exists|v1: SubView<PARENT_SIZE>, turn: Turn<(), FreeTask>|
            {
                &&& #[trigger] Self::freed(v, id, v1, turn)
                &&& match turn {
                    Turn::Done(_) => w == v1,
                    Turn::Ask(_, _) => w == v1.with_pager(w.pager) && exists|
                        event: IoEvent,
                        end: Turn<(), FreeTask>,
                    |
                        #[trigger] v1.pager.free_resumed(event, w.pager, end),
                }
            }
    }
}

/// Beginning an allocation makes the handle live that it hands out, and no other;
/// as long as it hands out none, no handle changes.
pub proof fn law_sub_alloc_begins<const PARENT_SIZE: usize, const SUB_SIZE: usize>(
    v: SubView<PARENT_SIZE>,
    w: SubView<PARENT_SIZE>,
    turn: Turn<SubPageId<PARENT_SIZE, SUB_SIZE>, SubAllocTask<PARENT_SIZE>>,
)
    requires
        valid_sub_size(PARENT_SIZE, SUB_SIZE),
        v.slots.len() <= u32::MAX,
        SubPageAllocator::<PARENT_SIZE, SUB_SIZE>::allocated(v, w, turn),
    ensures
        w.slots.len() == v.slots.len(),
        match turn {
            Turn::Done(Ok(id)) => SubPageAllocator::<PARENT_SIZE, SUB_SIZE>::live_with(v, w, id),
            _ => w.slots == v.slots,
        },
{
    SubPageAllocator::<PARENT_SIZE, SUB_SIZE>::lemma_sizes();
    let n = SubPageAllocator::<PARENT_SIZE, SUB_SIZE>::per_page();
    lemma_open_from(v, 0, n);
    match v.open_from(0, n) {
        Some((i, b)) => {
            let id: SubPageId<PARENT_SIZE, SUB_SIZE> = turn->Done_0->Ok_0;
            assert(id.slot_index == i && id.sub_index == b);
            assert forall|x: SubPageId<PARENT_SIZE, SUB_SIZE>|
                #[trigger] SubPageAllocator::<PARENT_SIZE, SUB_SIZE>::live(w, x) <==>
                    SubPageAllocator::<PARENT_SIZE, SUB_SIZE>::live(v, x) || x == id by {
                if x.slot_index == i {
                    lemma_with_taken(v.slots[i]->0.used, b, x.sub_index as int);
                }
            }
        },
        None => {},
    }
}

/// Going on with an allocation makes the handle live that it hands out, and no
/// other; as long as it hands out none, no handle changes.
pub proof fn law_sub_alloc_goes_on<const PARENT_SIZE: usize, const SUB_SIZE: usize>(
    v: SubView<PARENT_SIZE>,
    task: SubAllocTask<PARENT_SIZE>,
    event: IoEvent,
    w: SubView<PARENT_SIZE>,
    turn: Turn<SubPageId<PARENT_SIZE, SUB_SIZE>, SubAllocTask<PARENT_SIZE>>,
)
    requires
        valid_sub_size(PARENT_SIZE, SUB_SIZE),
        v.slots.len() < u32::MAX,
        SubPageAllocator::<PARENT_SIZE, SUB_SIZE>::alloc_resumed(v, task, event, w, turn),
    ensures
        w.slots.len() <= u32::MAX,
        match turn {
            Turn::Done(Ok(id)) => SubPageAllocator::<PARENT_SIZE, SUB_SIZE>::live_with(v, w, id),
            _ => w.slots == v.slots,
        },
{
    SubPageAllocator::<PARENT_SIZE, SUB_SIZE>::lemma_sizes();
    lemma_vacant_from(v, 0);
    let i = v.vacant_from(0);
    lemma_vacant_ignores_pager(v, v.with_pager(v.pager.committed()), 0);
    if let Turn::Done(Ok(id)) = turn {
        assert(id.slot_index == i && id.sub_index == 0);
        assert forall|x: SubPageId<PARENT_SIZE, SUB_SIZE>|
            #[trigger] SubPageAllocator::<PARENT_SIZE, SUB_SIZE>::live(w, x) <==>
                SubPageAllocator::<PARENT_SIZE, SUB_SIZE>::live(v, x) || x == id by {
            if x.slot_index == i {
                lemma_taken_of_one(x.sub_index as int);
            }
        }
    }
}

/// The first vacant slot depends on the slots alone.
proof fn lemma_vacant_ignores_pager<const PARENT_SIZE: usize>(
    v: SubView<PARENT_SIZE>,
    w: SubView<PARENT_SIZE>,
    from: int,
)
    requires
        v.slots == w.slots,
    ensures
        v.vacant_from(from) == w.vacant_from(from),
    decreases v.slots.len() - from,
{
    if from < v.slots.len() && v.slots[from] is Some {
        lemma_vacant_ignores_pager(v, w, from + 1);
    }
}

proof fn lemma_alloc_ends<const PARENT_SIZE: usize, const SUB_SIZE: usize>(
    v: SubView<PARENT_SIZE>,
    turn: Turn<SubPageId<PARENT_SIZE, SUB_SIZE>, SubAllocTask<PARENT_SIZE>>,
    n: nat,
    w: SubView<PARENT_SIZE>,
    result: Result<SubPageId<PARENT_SIZE, SUB_SIZE>, MappedPageError>,
)
    requires
        valid_sub_size(PARENT_SIZE, SUB_SIZE),
        turn is Ask,
        v.slots.len() < u32::MAX,
        SubPageAllocator::<PARENT_SIZE, SUB_SIZE>::alloc_ends(v, turn, n, w, result),
    ensures
        w.slots.len() <= u32::MAX,
        match result {
            Ok(id) => SubPageAllocator::<PARENT_SIZE, SUB_SIZE>::live_with(v, w, id),
            Err(_) => SubPageAllocator::<PARENT_SIZE, SUB_SIZE>::live_same(v, w),
        },
    decreases n,
{
    if let Turn::Ask(_, task) = turn {
        let (event, v1, turn1) = choose|
            event: IoEvent,
            v1: SubView<PARENT_SIZE>,
            turn1: Turn<SubPageId<PARENT_SIZE, SUB_SIZE>, SubAllocTask<PARENT_SIZE>>,
        |
            #[trigger] SubPageAllocator::<PARENT_SIZE, SUB_SIZE>::alloc_resumed(
                v,
                task,
                event,
                v1,
                turn1,
            ) && SubPageAllocator::<PARENT_SIZE, SUB_SIZE>::alloc_ends(
                v1,
                turn1,
                (n - 1) as nat,
                w,
                result,
            );
        law_sub_alloc_goes_on(v, task, event, v1, turn1);
        if turn1 is Ask {
            lemma_alloc_ends(v1, turn1, (n - 1) as nat, w, result);
            lemma_live_of_slots::<PARENT_SIZE, SUB_SIZE>(v, v1);
            lemma_live_steps::<PARENT_SIZE, SUB_SIZE>(v, v1, w, result);
        } else if result is Err {
            lemma_live_of_slots::<PARENT_SIZE, SUB_SIZE>(v, w);
        }
    }
}

/// What is live depends on the slots alone.
proof fn lemma_live_of_slots<const PARENT_SIZE: usize, const SUB_SIZE: usize>(
    v: SubView<PARENT_SIZE>,
    w: SubView<PARENT_SIZE>,
)
    requires
        v.slots == w.slots,
    ensures
        SubPageAllocator::<PARENT_SIZE, SUB_SIZE>::live_same(v, w),
{
}

proof fn lemma_live_steps<const PARENT_SIZE: usize, const SUB_SIZE: usize>(
    v: SubView<PARENT_SIZE>,
    v1: SubView<PARENT_SIZE>,
    w: SubView<PARENT_SIZE>,
    result: Result<SubPageId<PARENT_SIZE, SUB_SIZE>, MappedPageError>,
)
    requires
        SubPageAllocator::<PARENT_SIZE, SUB_SIZE>::live_same(v, v1),
        match result {
            Ok(id) => SubPageAllocator::<PARENT_SIZE, SUB_SIZE>::live_with(v1, w, id),
            Err(_) => SubPageAllocator::<PARENT_SIZE, SUB_SIZE>::live_same(v1, w),
        },
    ensures
        match result {
            Ok(id) => SubPageAllocator::<PARENT_SIZE, SUB_SIZE>::live_with(v, w, id),
            Err(_) => SubPageAllocator::<PARENT_SIZE, SUB_SIZE>::live_same(v, w),
        },
{
    assert forall|x: SubPageId<PARENT_SIZE, SUB_SIZE>|
        #[trigger] SubPageAllocator::<PARENT_SIZE, SUB_SIZE>::live(w, x) <==>
            SubPageAllocator::<PARENT_SIZE, SUB_SIZE>::live(v, x) || (result is Ok && result->Ok_0
            == x) by {
        assert(SubPageAllocator::<PARENT_SIZE, SUB_SIZE>::live(v1, x) <==>
            SubPageAllocator::<PARENT_SIZE, SUB_SIZE>::live(v, x));
    }
    if let Ok(id) = result {
        assert(SubPageAllocator::<PARENT_SIZE, SUB_SIZE>::live(v1, id) <==>
            SubPageAllocator::<PARENT_SIZE, SUB_SIZE>::live(v, id));
    }
}

/// A whole allocation that succeeds makes its handle live, which was not, and no
/// other; one that fails changes no handle.
pub proof fn law_sub_alloc_makes_one_live<const PARENT_SIZE: usize, const SUB_SIZE: usize>(
    v: SubView<PARENT_SIZE>,
    w: SubView<PARENT_SIZE>,
    result: Result<SubPageId<PARENT_SIZE, SUB_SIZE>, MappedPageError>,
)
    requires
        valid_sub_size(PARENT_SIZE, SUB_SIZE),
        v.slots.len() <= u32::MAX,
        SubPageAllocator::<PARENT_SIZE, SUB_SIZE>::completes_alloc(v, w, result),
    ensures
        w.slots.len() <= u32::MAX,
        match result {
            Ok(id) => SubPageAllocator::<PARENT_SIZE, SUB_SIZE>::live_with(v, w, id),
            Err(_) => SubPageAllocator::<PARENT_SIZE, SUB_SIZE>::live_same(v, w),
        },
{
    let (v1, turn, n) = choose|
        v1: SubView<PARENT_SIZE>,
        turn: Turn<SubPageId<PARENT_SIZE, SUB_SIZE>, SubAllocTask<PARENT_SIZE>>,
        n: nat,
    |
        #[trigger] SubPageAllocator::<PARENT_SIZE, SUB_SIZE>::allocated(v, v1, turn)
            && #[trigger] SubPageAllocator::<PARENT_SIZE, SUB_SIZE>::alloc_ends(
            v1,
            turn,
            n,
            w,
            result,
        );
    law_sub_alloc_begins(v, v1, turn);
    if turn is Ask {
        lemma_alloc_ends(v1, turn, n, w, result);
        lemma_live_of_slots::<PARENT_SIZE, SUB_SIZE>(v, v1);
        lemma_live_steps::<PARENT_SIZE, SUB_SIZE>(v, v1, w, result);
    } else if result is Err {
        lemma_live_of_slots::<PARENT_SIZE, SUB_SIZE>(v, w);
    }
}

/// A whole release of a live handle ends its life, and that of no other, also if the
/// pager cannot commit the release of the big page.
pub proof fn law_sub_free_ends_one<const PARENT_SIZE: usize, const SUB_SIZE: usize>(
    v: SubView<PARENT_SIZE>,
    id: SubPageId<PARENT_SIZE, SUB_SIZE>,
    w: SubView<PARENT_SIZE>,
)
    requires
        valid_sub_size(PARENT_SIZE, SUB_SIZE),
        SubPageAllocator::<PARENT_SIZE, SUB_SIZE>::live(v, id),
        SubPageAllocator::<PARENT_SIZE, SUB_SIZE>::completes_free(v, id, w),
    ensures
        w.slots.len() == v.slots.len(),
        forall|x: SubPageId<PARENT_SIZE, SUB_SIZE>|
            #[trigger] SubPageAllocator::<PARENT_SIZE, SUB_SIZE>::live(w, x) <==>
                SubPageAllocator::<PARENT_SIZE, SUB_SIZE>::live(v, x) && x != id,
{
    SubPageAllocator::<PARENT_SIZE, SUB_SIZE>::lemma_sizes();
    let i = id.slot_index as int;
    let b = id.sub_index as int;
    let used = v.slots[i]->0.used;
    let left = without_taken(used, b);
    assert(w.slots == v.with_freed(i, b).slots);
    lemma_zero_mask(left);
    assert forall|x: SubPageId<PARENT_SIZE, SUB_SIZE>|
        #[trigger] SubPageAllocator::<PARENT_SIZE, SUB_SIZE>::live(w, x) <==>
            SubPageAllocator::<PARENT_SIZE, SUB_SIZE>::live(v, x) && x != id by {
        if x.slot_index == i {
            lemma_without_taken(used, b, x.sub_index as int);
            if left == 0 {
                assert(!taken(left, x.sub_index as int));
            }
        }
    }
}

// ── Batches of sub-pages ──────────────────────────────────────────────────────

/// Step `i` of a batch of sub-page allocations is carried out on the allocator,
/// which is in the state `views[i]` before and in the next one after it.
pub open spec fn sub_batch_turn<const PARENT_SIZE: usize, const SUB_SIZE: usize>(
    steps: Seq<BulkStep<SubPageId<PARENT_SIZE, SUB_SIZE>>>,
    views: Seq<SubView<PARENT_SIZE>>,
    i: int,
) -> bool {
    match steps[i] {
        BulkStep::Allocate(batch) => exists|
            result: Result<SubPageId<PARENT_SIZE, SUB_SIZE>, MappedPageError>,
        |
            {
                &&& #[trigger] SubPageAllocator::<PARENT_SIZE, SUB_SIZE>::completes_alloc(
                    views[i],
                    views[i + 1],
                    result,
                )
                &&& alloc_step(batch.got@, batch.want, result, steps[i + 1])
            },
        BulkStep::Free(id, undo) => {
            &&& SubPageAllocator::<PARENT_SIZE, SUB_SIZE>::completes_free(
                views[i],
                id,
                views[i + 1],
            )
            &&& undo_step(undo.ids@, undo.next as int, undo.error, steps[i + 1])
        },
        BulkStep::Done(_) => true,
    }
}

/// A batch of sub-page allocations is all or nothing: if it fails, exactly those
/// handles are live that were live before; if it succeeds, the handles that it
/// results in as well, which are all different and were not live before.
pub proof fn law_sub_batch_is_all_or_nothing<const PARENT_SIZE: usize, const SUB_SIZE: usize>(
    want: usize,
    steps: Seq<BulkStep<SubPageId<PARENT_SIZE, SUB_SIZE>>>,
    views: Seq<SubView<PARENT_SIZE>>,
)
    requires
        valid_sub_size(PARENT_SIZE, SUB_SIZE),
        0 < steps.len(),
        views.len() == steps.len(),
        views[0].slots.len() <= u32::MAX,
        start_step(want, steps[0]),
        forall|i: int| 0 <= i < steps.len() - 1 ==> #[trigger] sub_batch_turn(steps, views, i),
        forall|i: int| 0 <= i < steps.len() - 1 ==> !(#[trigger] steps[i] is Done),
    ensures
        match steps.last() {
            BulkStep::Done(Err(_)) => SubPageAllocator::<PARENT_SIZE, SUB_SIZE>::live_same(
                views[0],
                views.last(),
            ),
            BulkStep::Done(Ok(ids)) => {
                &&& ids@.len() == want
                &&& ids@.no_duplicates()
                &&& forall|x: SubPageId<PARENT_SIZE, SUB_SIZE>|
                    #[trigger] SubPageAllocator::<PARENT_SIZE, SUB_SIZE>::live(views.last(), x) <==>
                        SubPageAllocator::<PARENT_SIZE, SUB_SIZE>::live(views[0], x)
                        || ids@.contains(x)
                &&& forall|k: int|
                    0 <= k < ids@.len() ==> !SubPageAllocator::<PARENT_SIZE, SUB_SIZE>::live(
                        views[0],
                        #[trigger] ids@[k],
                    )
            },
            _ => true,
        },
{
    let live = |i: int, x: SubPageId<PARENT_SIZE, SUB_SIZE>|
        SubPageAllocator::<PARENT_SIZE, SUB_SIZE>::live(views[i], x);
    assert forall|i: int| 0 <= i < steps.len() - 1 implies #[trigger] batch_turn(
        steps,
        live,
        i,
    ) by {
        lemma_sub_batch_at(want, steps, views, i);
    }
    law_batch_is_all_or_nothing(want, steps, live);
    let last = steps.len() - 1;
    assert forall|x: SubPageId<PARENT_SIZE, SUB_SIZE>|
        #[trigger] SubPageAllocator::<PARENT_SIZE, SUB_SIZE>::live(views.last(), x) <==> live(
            last,
            x,
        ) by {}
    assert forall|x: SubPageId<PARENT_SIZE, SUB_SIZE>|
        #[trigger] SubPageAllocator::<PARENT_SIZE, SUB_SIZE>::live(views[0], x) <==> live(
            0,
            x,
        ) by {}
    if let BulkStep::Done(Ok(ids)) = steps.last() {
        assert forall|k: int| 0 <= k < ids@.len() implies !SubPageAllocator::<
            PARENT_SIZE,
            SUB_SIZE,
        >::live(views[0], #[trigger] ids@[k]) by {
            assert(!live(0, ids@[k]));
        }
    }
}

proof fn lemma_sub_batch_at<const PARENT_SIZE: usize, const SUB_SIZE: usize>(
    want: usize,
    steps: Seq<BulkStep<SubPageId<PARENT_SIZE, SUB_SIZE>>>,
    views: Seq<SubView<PARENT_SIZE>>,
    i: int,
)
    requires
        valid_sub_size(PARENT_SIZE, SUB_SIZE),
        views.len() == steps.len(),
        views[0].slots.len() <= u32::MAX,
        start_step(want, steps[0]),
        forall|i: int| 0 <= i < steps.len() - 1 ==> #[trigger] sub_batch_turn(steps, views, i),
        forall|i: int| 0 <= i < steps.len() - 1 ==> !(#[trigger] steps[i] is Done),
        0 <= i < steps.len() - 1,
    ensures
        views[i + 1].slots.len() <= u32::MAX,
        batch_turn(
            steps,
            |i: int, x: SubPageId<PARENT_SIZE, SUB_SIZE>|
                SubPageAllocator::<PARENT_SIZE, SUB_SIZE>::live(views[i], x),
            i,
        ),
    decreases i,
{
    let live = |i: int, x: SubPageId<PARENT_SIZE, SUB_SIZE>|
        SubPageAllocator::<PARENT_SIZE, SUB_SIZE>::live(views[i], x);
    assert forall|j: int| 0 <= j < i implies #[trigger] batch_turn(steps, live, j) by {
        lemma_sub_batch_at(want, steps, views, j);
    }
    if i > 0 {
        lemma_sub_batch_at(want, steps, views, i - 1);
    }
    let done = steps.take(i + 1);
    assert forall|j: int| 0 <= j < done.len() - 1 implies #[trigger] batch_turn(
        done,
        live,
        j,
    ) by {
        assert(batch_turn(steps, live, j));
        assert(done[j] == steps[j] && done[j + 1] == steps[j + 1]);
    }
    assert forall|j: int| 0 <= j < done.len() - 1 implies !(#[trigger] done[j] is Done) by {
        assert(done[j] == steps[j]);
    }
    lemma_batch_state(want, done, live, i);
    assert(done[i] == steps[i]);
    assert(sub_batch_turn(steps, views, i));
    match steps[i] {
        BulkStep::Allocate(batch) => {
            let result = choose|
                result: Result<SubPageId<PARENT_SIZE, SUB_SIZE>, MappedPageError>,
            |
                {
                    &&& #[trigger] SubPageAllocator::<PARENT_SIZE, SUB_SIZE>::completes_alloc(
                        views[i],
                        views[i + 1],
                        result,
                    )
                    &&& alloc_step(batch.got@, batch.want, result, steps[i + 1])
                };
            law_sub_alloc_makes_one_live(views[i], views[i + 1], result);
            match result {
                Ok(id) => {
                    assert forall|x: SubPageId<PARENT_SIZE, SUB_SIZE>|
                        #[trigger] live(i + 1, x) <==> live(i, x) || x == id by {
                        assert(SubPageAllocator::<PARENT_SIZE, SUB_SIZE>::live(views[i + 1], x)
                            <==> SubPageAllocator::<PARENT_SIZE, SUB_SIZE>::live(views[i], x) || x
                            == id);
                    }
                    assert(!live(i, id));
                },
                Err(_) => {
                    assert forall|x: SubPageId<PARENT_SIZE, SUB_SIZE>|
                        #[trigger] live(i + 1, x) <==> live(i, x) by {
                        assert(SubPageAllocator::<PARENT_SIZE, SUB_SIZE>::live(views[i + 1], x)
                            <==> SubPageAllocator::<PARENT_SIZE, SUB_SIZE>::live(views[i], x));
                    }
                },
            }
        },
        BulkStep::Free(id, undo) => {
            assert(undo.ids@[undo.next - 1] == id);
            assert(live(i, id));
            law_sub_free_ends_one(views[i], id, views[i + 1]);
            assert forall|x: SubPageId<PARENT_SIZE, SUB_SIZE>|
                #[trigger] live(i + 1, x) <==> live(i, x) && x != id by {
                assert(SubPageAllocator::<PARENT_SIZE, SUB_SIZE>::live(views[i + 1], x) <==>
                    SubPageAllocator::<PARENT_SIZE, SUB_SIZE>::live(views[i], x) && x != id);
            }
        },
        BulkStep::Done(_) => {},
    }
}

// ── Releasing a batch of sub-pages ────────────────────────────────────────────

/// Slot `i` has a big page, and every live handle to a sub-page of it is in `ids`.
pub open spec fn all_named<const PARENT_SIZE: usize, const SUB_SIZE: usize>(
    v: SubView<PARENT_SIZE>,
    ids: Seq<SubPageId<PARENT_SIZE, SUB_SIZE>>,
    i: int,
) -> bool {
    &&& 0 <= i < v.slots.len()
    &&& v.slots[i] is Some
    &&& forall|x: SubPageId<PARENT_SIZE, SUB_SIZE>|
        x.slot_index == i && #[trigger] SubPageAllocator::<PARENT_SIZE, SUB_SIZE>::live(v, x)
            ==> ids.contains(x)
}

/// Handles are told apart by the numbers that order them.
proof fn lemma_keys_differ<const PARENT_SIZE: usize, const SUB_SIZE: usize>(
    x: SubPageId<PARENT_SIZE, SUB_SIZE>,
    y: SubPageId<PARENT_SIZE, SUB_SIZE>,
)
    ensures
        x.key() == y.key() <==> x == y,
{
}

/// Which sub-slots are in use once `ids` are free.
pub proof fn lemma_cleared<const PARENT_SIZE: usize, const SUB_SIZE: usize>(
    v: SubView<PARENT_SIZE>,
    ids: Seq<SubPageId<PARENT_SIZE, SUB_SIZE>>,
    i: int,
    b: int,
)
    requires
        valid_sub_size(PARENT_SIZE, SUB_SIZE),
        forall|k: int|
            0 <= k < ids.len() ==> SubPageAllocator::<PARENT_SIZE, SUB_SIZE>::live(
                v,
                #[trigger] ids[k],
            ),
        0 <= i < v.slots.len() <= u32::MAX,
        0 <= b < 64,
    ensures
        ({
            let w = SubPageAllocator::<PARENT_SIZE, SUB_SIZE>::cleared(v, ids);
            let x = SubPageId::<PARENT_SIZE, SUB_SIZE> {
                slot_index: i as u32,
                sub_index: b as u32,
            };
            &&& w.pager == v.pager
            &&& w.slots.len() == v.slots.len()
            &&& w.slots[i] is Some <==> v.slots[i] is Some
            &&& v.slots[i] is Some ==> {
                &&& w.slots[i]->0.id == v.slots[i]->0.id
                &&& taken(w.slots[i]->0.used, b) <==> taken(v.slots[i]->0.used, b)
                    && !ids.contains(x)
            }
        }),
    decreases ids.len(),
{
    if ids.len() > 0 {
        let before = ids.drop_last();
        let last = ids.last();
        assert forall|k: int| 0 <= k < before.len() implies SubPageAllocator::<
            PARENT_SIZE,
            SUB_SIZE,
        >::live(v, #[trigger] before[k]) by {
            assert(before[k] == ids[k]);
        }
        lemma_cleared(v, before, i, b);
        let u = SubPageAllocator::<PARENT_SIZE, SUB_SIZE>::cleared(v, before);
        SubPageAllocator::<PARENT_SIZE, SUB_SIZE>::lemma_sizes();
        assert(SubPageAllocator::<PARENT_SIZE, SUB_SIZE>::live(v, ids[ids.len() - 1]));
        if last.slot_index == i {
            lemma_without_taken(u.slots[i]->0.used, last.sub_index as int, b);
        }
        let x = SubPageId::<PARENT_SIZE, SUB_SIZE> { slot_index: i as u32, sub_index: b as u32 };
        assert(ids.contains(x) <==> before.contains(x) || x == last) by {
            if ids.contains(x) {
                let k = choose|k: int| 0 <= k < ids.len() && ids[k] == x;
                if k < before.len() {
                    assert(before[k] == x);
                }
            }
            if before.contains(x) {
                let k = choose|k: int| 0 <= k < before.len() && before[k] == x;
                assert(ids[k] == x);
            }
            assert(ids[ids.len() - 1] == last);
        }
    }
}

/// Of handles that cannot be freed, the first by slot and sub-slot is found.
pub proof fn lemma_least_bad<const PARENT_SIZE: usize, const SUB_SIZE: usize>(
    v: SubView<PARENT_SIZE>,
    ids: Seq<SubPageId<PARENT_SIZE, SUB_SIZE>>,
)
    ensures
        match SubPageAllocator::<PARENT_SIZE, SUB_SIZE>::least_bad(v, ids) {
            Some(bad) => {
                &&& ids.contains(bad)
                &&& !SubPageAllocator::<PARENT_SIZE, SUB_SIZE>::live(v, bad)
                &&& forall|k: int|
                    0 <= k < ids.len() && !SubPageAllocator::<PARENT_SIZE, SUB_SIZE>::live(
                        v,
                        #[trigger] ids[k],
                    ) ==> bad.key() <= ids[k].key()
            },
            None => forall|k: int|
                0 <= k < ids.len() ==> SubPageAllocator::<PARENT_SIZE, SUB_SIZE>::live(
                    v,
                    #[trigger] ids[k],
                ),
        },
    decreases ids.len(),
{
    if ids.len() > 0 {
        let before = ids.drop_last();
        lemma_least_bad(v, before);
        assert(ids[ids.len() - 1] == ids.last());
        assert forall|k: int| 0 <= k < before.len() implies before[k] == #[trigger] ids[k] by {}
        if let Some(bad) = SubPageAllocator::<PARENT_SIZE, SUB_SIZE>::least_bad(v, before) {
            let k = choose|k: int| 0 <= k < before.len() && before[k] == bad;
            assert(ids[k] == bad);
        }
    }
}

/// The big pages of the slots below `upto` that have no sub-slot in use.
proof fn lemma_emptied_pages<const PARENT_SIZE: usize>(
    slots: Seq<Option<BigPageSlot<PARENT_SIZE>>>,
    upto: int,
    p: PageId<PARENT_SIZE>,
)
    requires
        0 <= upto <= slots.len(),
    ensures
        emptied(slots, upto).contains(p) <==> exists|i: int|
            0 <= i < upto && (#[trigger] slots[i] matches Some(slot) && slot.used == 0 && slot.id
                == p),
    decreases upto,
{
    if upto > 0 {
        lemma_emptied_pages(slots, upto - 1, p);
        let before = emptied(slots, upto - 1);
        match slots[upto - 1] {
            Some(slot) if slot.used == 0 => {
                let pages = before.push(slot.id);
                if before.contains(p) {
                    let k = choose|k: int| 0 <= k < before.len() && before[k] == p;
                    assert(pages[k] == p);
                }
                if slot.id == p {
                    assert(pages[before.len() as int] == p);
                }
                if pages.contains(p) && slot.id != p {
                    let k = choose|k: int| 0 <= k < pages.len() && pages[k] == p;
                    assert(before[k] == p);
                }
            },
            _ => {},
        }
    }
}

/// A batch of releases that is not refused ends the life of exactly the handles that
/// it names.  The big pages that are given back are those whose live sub-pages were
/// all named, and only their slots become tombstones.
pub proof fn law_sub_free_bulk_ends_the_named<const PARENT_SIZE: usize, const SUB_SIZE: usize>(
    v: SubView<PARENT_SIZE>,
    ids: Seq<SubPageId<PARENT_SIZE, SUB_SIZE>>,
    w: SubView<PARENT_SIZE>,
    step: BulkFreeStep<PageId<PARENT_SIZE>>,
)
    requires
        valid_sub_size(PARENT_SIZE, SUB_SIZE),
        v.slots.len() <= u32::MAX,
        SubPageAllocator::<PARENT_SIZE, SUB_SIZE>::masks_fit(v),
        SubPageAllocator::<PARENT_SIZE, SUB_SIZE>::bulk_refusal(v, ids) is None,
        SubPageAllocator::<PARENT_SIZE, SUB_SIZE>::freed_bulk(v, ids, w, step),
    ensures
        w.pager == v.pager,
        forall|x: SubPageId<PARENT_SIZE, SUB_SIZE>|
            #[trigger] SubPageAllocator::<PARENT_SIZE, SUB_SIZE>::live(w, x) <==>
                SubPageAllocator::<PARENT_SIZE, SUB_SIZE>::live(v, x) && !ids.contains(x),
        w.slots.len() == v.slots.len(),
        forall|i: int|
            0 <= i < v.slots.len() ==> (#[trigger] w.slots[i] is None <==> v.slots[i] is None
                || all_named(v, ids, i)),
        exists|pages: Seq<PageId<PARENT_SIZE>>|
            {
                &&& #[trigger] free_step(pages, 0, step)
                &&& forall|p: PageId<PARENT_SIZE>|
                    #[trigger] pages.contains(p) <==> exists|i: int|
                        #[trigger] all_named(v, ids, i) && v.slots[i]->0.id == p
            },
{
    let c = SubPageAllocator::<PARENT_SIZE, SUB_SIZE>::cleared(v, ids);
    let n = SubPageAllocator::<PARENT_SIZE, SUB_SIZE>::per_page();
    SubPageAllocator::<PARENT_SIZE, SUB_SIZE>::lemma_sizes();
    lemma_least_bad(v, ids);
    lemma_cleared_shape(v, ids);
    assert forall|x: SubPageId<PARENT_SIZE, SUB_SIZE>|
        #[trigger] SubPageAllocator::<PARENT_SIZE, SUB_SIZE>::live(w, x) <==>
            SubPageAllocator::<PARENT_SIZE, SUB_SIZE>::live(v, x) && !ids.contains(x) by {
        if x.sub_index < n && x.slot_index < v.slots.len() {
            lemma_cleared(v, ids, x.slot_index as int, x.sub_index as int);
            if c.slots[x.slot_index as int] is Some {
                lemma_zero_mask(c.slots[x.slot_index as int]->0.used);
            }
        }
    }
    assert forall|i: int| 0 <= i < v.slots.len() && v.slots[i] is Some implies (
    #[trigger] c.slots[i]->0.used == 0 <==> all_named(v, ids, i)) by {
        lemma_emptied_slot(v, ids, i);
    }
    assert forall|i: int| 0 <= i < v.slots.len() implies (#[trigger] w.slots[i] is None
        <==> v.slots[i] is None || all_named(v, ids, i)) by {
        lemma_cleared(v, ids, i, 0);
        assert(v.slots[i] is Some ==> (c.slots[i]->0.used == 0 <==> all_named(v, ids, i)));
    }
    let pages = emptied(c.slots, c.slots.len() as int);
    assert(free_step(pages, 0, step));
    assert forall|p: PageId<PARENT_SIZE>|
        #[trigger] pages.contains(p) <==> exists|i: int|
            #[trigger] all_named(v, ids, i) && v.slots[i]->0.id == p by {
        lemma_emptied_pages(c.slots, c.slots.len() as int, p);
        if pages.contains(p) {
            let i = choose|i: int|
                0 <= i < c.slots.len() && (#[trigger] c.slots[i] matches Some(slot) && slot.used
                    == 0 && slot.id == p);
            lemma_cleared(v, ids, i, 0);
            assert(c.slots[i]->0.used == 0);
            assert(all_named(v, ids, i) && v.slots[i]->0.id == p);
        }
        if exists|i: int| #[trigger] all_named(v, ids, i) && v.slots[i]->0.id == p {
            let i = choose|i: int| #[trigger] all_named(v, ids, i) && v.slots[i]->0.id == p;
            lemma_cleared(v, ids, i, 0);
            assert(c.slots[i] matches Some(slot) && slot.used == 0 && slot.id == p);
        }
    }
}

proof fn lemma_cleared_shape<const PARENT_SIZE: usize, const SUB_SIZE: usize>(
    v: SubView<PARENT_SIZE>,
    ids: Seq<SubPageId<PARENT_SIZE, SUB_SIZE>>,
)
    requires
        forall|k: int|
            0 <= k < ids.len() ==> SubPageAllocator::<PARENT_SIZE, SUB_SIZE>::live(
                v,
                #[trigger] ids[k],
            ),
    ensures
        SubPageAllocator::<PARENT_SIZE, SUB_SIZE>::cleared(v, ids).pager == v.pager,
        SubPageAllocator::<PARENT_SIZE, SUB_SIZE>::cleared(v, ids).slots.len() == v.slots.len(),
    decreases ids.len(),
{
    if ids.len() > 0 {
        let before = ids.drop_last();
        assert forall|k: int| 0 <= k < before.len() implies SubPageAllocator::<
            PARENT_SIZE,
            SUB_SIZE,
        >::live(v, #[trigger] before[k]) by {
            assert(before[k] == ids[k]);
        }
        lemma_cleared_shape(v, before);
        assert(SubPageAllocator::<PARENT_SIZE, SUB_SIZE>::live(v, ids[ids.len() - 1]));
    }
}

/// A slot has no sub-slot in use once `ids` are free if and only if its live handles
/// are all among them.
proof fn lemma_emptied_slot<const PARENT_SIZE: usize, const SUB_SIZE: usize>(
    v: SubView<PARENT_SIZE>,
    ids: Seq<SubPageId<PARENT_SIZE, SUB_SIZE>>,
    i: int,
)
    requires
        valid_sub_size(PARENT_SIZE, SUB_SIZE),
        v.slots.len() <= u32::MAX,
        SubPageAllocator::<PARENT_SIZE, SUB_SIZE>::masks_fit(v),
        forall|k: int|
            0 <= k < ids.len() ==> SubPageAllocator::<PARENT_SIZE, SUB_SIZE>::live(
                v,
                #[trigger] ids[k],
            ),
        0 <= i < v.slots.len(),
        v.slots[i] is Some,
    ensures
        SubPageAllocator::<PARENT_SIZE, SUB_SIZE>::cleared(v, ids).slots[i]->0.used == 0
            <==> all_named(v, ids, i),
{
    SubPageAllocator::<PARENT_SIZE, SUB_SIZE>::lemma_sizes();
    let n = SubPageAllocator::<PARENT_SIZE, SUB_SIZE>::per_page();
    let left = SubPageAllocator::<PARENT_SIZE, SUB_SIZE>::cleared(v, ids).slots[i]->0.used;
    let used = v.slots[i]->0.used;
    lemma_zero_mask(left);
    if left == 0 {
        assert forall|x: SubPageId<PARENT_SIZE, SUB_SIZE>|
            x.slot_index == i && #[trigger] SubPageAllocator::<PARENT_SIZE, SUB_SIZE>::live(
                v,
                x,
            ) implies ids.contains(x) by {
            lemma_cleared(v, ids, i, x.sub_index as int);
            assert(!taken(left, x.sub_index as int));
        }
    }
    if all_named(v, ids, i) {
        assert forall|k: int| !#[trigger] taken(left, k) by {
            if taken(left, k) {
                lemma_cleared(v, ids, i, k);
                lemma_taken_below(used, n as usize, k);
                let x = SubPageId::<PARENT_SIZE, SUB_SIZE> {
                    slot_index: i as u32,
                    sub_index: k as u32,
                };
                assert(SubPageAllocator::<PARENT_SIZE, SUB_SIZE>::live(v, x));
            }
        }
    }
}

/// The order in which a batch names its handles is irrelevant.
pub proof fn law_sub_free_bulk_order_is_irrelevant<
    const PARENT_SIZE: usize,
    const SUB_SIZE: usize,
>(
    v: SubView<PARENT_SIZE>,
    a: Seq<SubPageId<PARENT_SIZE, SUB_SIZE>>,
    b: Seq<SubPageId<PARENT_SIZE, SUB_SIZE>>,
    w: SubView<PARENT_SIZE>,
    step: BulkFreeStep<PageId<PARENT_SIZE>>,
)
    requires
        valid_sub_size(PARENT_SIZE, SUB_SIZE),
        v.slots.len() <= u32::MAX,
        a.to_multiset() == b.to_multiset(),
    ensures
        SubPageAllocator::<PARENT_SIZE, SUB_SIZE>::bulk_refusal(v, a) == SubPageAllocator::<
            PARENT_SIZE,
            SUB_SIZE,
        >::bulk_refusal(v, b),
        SubPageAllocator::<PARENT_SIZE, SUB_SIZE>::freed_bulk(v, a, w, step)
            <==> SubPageAllocator::<PARENT_SIZE, SUB_SIZE>::freed_bulk(v, b, w, step),
{
    assert forall|x: SubPageId<PARENT_SIZE, SUB_SIZE>|
        #[trigger] a.contains(x) <==> b.contains(x) by {
        vstd::seq_lib::to_multiset_contains(a, x);
        vstd::seq_lib::to_multiset_contains(b, x);
    }
    lemma_distinct_keys(a);
    lemma_distinct_keys(b);
    lemma_distinct_order(a, b);
    lemma_distinct_order(b, a);
    lemma_least_bad(v, a);
    lemma_least_bad(v, b);
    lemma_least_bad_order(v, a, b);
    if SubPageAllocator::<PARENT_SIZE, SUB_SIZE>::bulk_refusal(v, a) is None {
        lemma_cleared_order(v, a, b);
    }
}

proof fn lemma_distinct_keys<const PARENT_SIZE: usize, const SUB_SIZE: usize>(
    ids: Seq<SubPageId<PARENT_SIZE, SUB_SIZE>>,
)
    ensures
        keys(ids).no_duplicates() <==> ids.no_duplicates(),
{
    assert forall|i: int, j: int| 0 <= i < ids.len() && 0 <= j < ids.len() implies ((
    #[trigger] keys(ids)[i]) == (#[trigger] keys(ids)[j]) <==> ids[i] == ids[j]) by {
        lemma_keys_differ(ids[i], ids[j]);
    }
    if keys(ids).no_duplicates() {
        assert forall|i: int, j: int|
            0 <= i < ids.len() && 0 <= j < ids.len() && i != j implies ids[i] != ids[j] by {
            assert(keys(ids)[i] != keys(ids)[j]);
        }
    }
}

proof fn lemma_distinct_order<T>(a: Seq<T>, b: Seq<T>)
    requires
        a.to_multiset() == b.to_multiset(),
    ensures
        a.no_duplicates() ==> b.no_duplicates(),
{
    if a.no_duplicates() {
        a.lemma_multiset_has_no_duplicates();
        b.lemma_multiset_has_no_duplicates_conv();
    }
}

proof fn lemma_least_bad_order<const PARENT_SIZE: usize, const SUB_SIZE: usize>(
    v: SubView<PARENT_SIZE>,
    a: Seq<SubPageId<PARENT_SIZE, SUB_SIZE>>,
    b: Seq<SubPageId<PARENT_SIZE, SUB_SIZE>>,
)
    requires
        forall|x: SubPageId<PARENT_SIZE, SUB_SIZE>| #[trigger] a.contains(x) <==> b.contains(x),
    ensures
        SubPageAllocator::<PARENT_SIZE, SUB_SIZE>::least_bad(v, a) == SubPageAllocator::<
            PARENT_SIZE,
            SUB_SIZE,
        >::least_bad(v, b),
{
    lemma_least_bad(v, a);
    lemma_least_bad(v, b);
    let x = SubPageAllocator::<PARENT_SIZE, SUB_SIZE>::least_bad(v, a);
    let y = SubPageAllocator::<PARENT_SIZE, SUB_SIZE>::least_bad(v, b);
    if let Some(bad) = x {
        assert(b.contains(bad));
        let k = choose|k: int| 0 <= k < b.len() && b[k] == bad;
        assert(!SubPageAllocator::<PARENT_SIZE, SUB_SIZE>::live(v, b[k]));
    }
    if let Some(bad) = y {
        assert(a.contains(bad));
        let k = choose|k: int| 0 <= k < a.len() && a[k] == bad;
        assert(!SubPageAllocator::<PARENT_SIZE, SUB_SIZE>::live(v, a[k]));
    }
    if x is Some && y is Some {
        lemma_keys_differ(x->0, y->0);
    }
}

proof fn lemma_cleared_order<const PARENT_SIZE: usize, const SUB_SIZE: usize>(
    v: SubView<PARENT_SIZE>,
    a: Seq<SubPageId<PARENT_SIZE, SUB_SIZE>>,
    b: Seq<SubPageId<PARENT_SIZE, SUB_SIZE>>,
)
    requires
        valid_sub_size(PARENT_SIZE, SUB_SIZE),
        v.slots.len() <= u32::MAX,
        forall|x: SubPageId<PARENT_SIZE, SUB_SIZE>| #[trigger] a.contains(x) <==> b.contains(x),
        SubPageAllocator::<PARENT_SIZE, SUB_SIZE>::least_bad(v, a) is None,
        SubPageAllocator::<PARENT_SIZE, SUB_SIZE>::least_bad(v, b) is None,
    ensures
        SubPageAllocator::<PARENT_SIZE, SUB_SIZE>::cleared(v, a) == SubPageAllocator::<
            PARENT_SIZE,
            SUB_SIZE,
        >::cleared(v, b),
{
    lemma_least_bad(v, a);
    lemma_least_bad(v, b);
    lemma_cleared_shape(v, a);
    lemma_cleared_shape(v, b);
    let x = SubPageAllocator::<PARENT_SIZE, SUB_SIZE>::cleared(v, a);
    let y = SubPageAllocator::<PARENT_SIZE, SUB_SIZE>::cleared(v, b);
    assert forall|i: int| 0 <= i < v.slots.len() implies x.slots[i] == #[trigger] y.slots[i] by {
        lemma_cleared(v, a, i, 0);
        lemma_cleared(v, b, i, 0);
        if v.slots[i] is Some {
            assert forall|k: int|
                #[trigger] taken(x.slots[i]->0.used, k) <==> taken(y.slots[i]->0.used, k) by {
                if 0 <= k < 64 {
                    lemma_cleared(v, a, i, k);
                    lemma_cleared(v, b, i, k);
                }
            }
            lemma_same_taken(x.slots[i]->0.used, y.slots[i]->0.used);
        }
    }
    assert(x =~= y);
}

// ── Contents of sub-pages ─────────────────────────────────────────────────────

/// Writing through one handle is seen through it, and changes nothing that is seen
/// through any other.
pub proof fn law_sub_write_is_private<const PARENT_SIZE: usize, const SUB_SIZE: usize>(
    a: SubPageAllocator<PARENT_SIZE, SUB_SIZE>,
    map: Seq<u8>,
    x: SubPageId<PARENT_SIZE, SUB_SIZE>,
    y: SubPageId<PARENT_SIZE, SUB_SIZE>,
    new: Seq<u8>,
)
    requires
        a.wf(),
        x.get_refusal(a@) is None,
        y.get_refusal(a@) is None,
        page_in_map(x.big(a@), PARENT_SIZE, map.len() as int),
        page_in_map(y.big(a@), PARENT_SIZE, map.len() as int),
        new.len() == SUB_SIZE,
    ensures
        ({
            let after = x.written(a@, map, new);
            &&& after.len() == map.len()
            &&& y.seen(a@, after) == if y == x {
                new
            } else {
                y.seen(a@, map)
            }
        }),
{
    SubPageAllocator::<PARENT_SIZE, SUB_SIZE>::lemma_sizes();
    let n = SubPageAllocator::<PARENT_SIZE, SUB_SIZE>::per_page();
    let (b, c) = (x.sub_index as int, y.sub_index as int);
    let sub = SUB_SIZE as int;
    assert(0 <= b * sub && b * sub + sub <= n * sub) by (nonlinear_arith)
        requires
            0 <= b < n,
            0 < sub,
    ;
    assert(0 <= c * sub && c * sub + sub <= n * sub) by (nonlinear_arith)
        requires
            0 <= c < n,
            0 < sub,
    ;
    let big = page_of(map, x.big(a@) as int, PARENT_SIZE as int);
    let p = x.big(a@) as int;
    assert(p * PARENT_SIZE + PARENT_SIZE == (p + 1) * PARENT_SIZE && 0 <= p * PARENT_SIZE)
        by (nonlinear_arith)
        requires
            0 <= p,
    ;
    let page = with_sub_page(big, b, sub, new);
    assert(page.len() == PARENT_SIZE);
    lemma_with_page(map, x.big(a@), y.big(a@), PARENT_SIZE, page);
    law_sub_pages_apart(big, b, c, sub, new);
    if x.slot_index != y.slot_index {
        assert(a@.slots[x.slot_index as int] is Some && a@.slots[y.slot_index as int] is Some);
        assert(x.big(a@) != y.big(a@));
    }
}

// ── Protected pages ───────────────────────────────────────────────────────────

/// Handle `id` names a protected page.
pub open spec fn named<const PAGE_SIZE: usize>(
    v: PagerView,
    id: ProtectedPageId<PAGE_SIZE>,
) -> bool {
    v.state.protected_refusal(id.0, PAGE_SIZE) is None
}

/// The handles of `w` are those of `v` and `id`, which is not one of them.
pub open spec fn named_with<const PAGE_SIZE: usize>(
    v: PagerView,
    w: PagerView,
    id: ProtectedPageId<PAGE_SIZE>,
) -> bool {
    &&& !named(v, id)
    &&& forall|x: ProtectedPageId<PAGE_SIZE>| #[trigger] named(w, x) <==> named(v, x) || x == id
}

/// The handles of `w` are those of `v`.
pub open spec fn named_same<const PAGE_SIZE: usize>(v: PagerView, w: PagerView) -> bool {
    forall|x: ProtectedPageId<PAGE_SIZE>| #[trigger] named(w, x) <==> named(v, x)
}

/// The handles of `w` are those of `v` and the one in `left`, if any, which is not one of
/// them.
pub open spec fn named_and_left<const PAGE_SIZE: usize>(
    v: PagerView,
    w: PagerView,
    left: Option<ProtectedPageId<PAGE_SIZE>>,
) -> bool {
    &&& left matches Some(id) ==> !named(v, id)
    &&& forall|x: ProtectedPageId<PAGE_SIZE>|
        #[trigger] named(w, x) <==> named(v, x) || left == Some(x)
}

/// The allocation of a protected page that asks in `turn`, or is done, ends with
/// `result` after `n` more events, whatever they are and whatever the file then holds.
/// If it is the commit of the entry that fails, the page stays entered in memory, and
/// `left` is its handle; else `left` is nothing.
pub open spec fn protected_alloc_ends<const PAGE_SIZE: usize>(
    v: PagerView,
    turn: Turn<ProtectedPageId<PAGE_SIZE>, AllocProtectedTask>,
    n: nat,
    w: PagerView,
    result: Result<ProtectedPageId<PAGE_SIZE>, MappedPageError>,
    left: Option<ProtectedPageId<PAGE_SIZE>>,
) -> bool
    decreases n,
{
    match turn {
        Turn::Done(r) => n == 0 && w == v && result == r && left is None,
        Turn::Ask(_, task) => n > 0 && exists|
            event: IoEvent,
            f: Seq<u8>,
            v1: PagerView,
            turn1: Turn<ProtectedPageId<PAGE_SIZE>, AllocProtectedTask>,
        |
            {
                &&& #[trigger] v.alloc_protected_resumed(task@, event, f, v1, turn1)
                &&& if task@ is Directory && event is Failed {
                    &&& n == 1
                    &&& w == v1
                    &&& turn1 == Turn::<ProtectedPageId<PAGE_SIZE>, AllocProtectedTask>::Done(
                        result,
                    )
                    &&& left == Some(ProtectedPageId::<PAGE_SIZE>(task@->Directory_id))
                } else {
                    protected_alloc_ends(v1, turn1, (n - 1) as nat, w, result, left)
                }
            },
    }
}

/// A whole allocation of a protected page leads from `v` to `w`, results in `result`,
/// and leaves `left` entered if the commit of the entry fails.
pub open spec fn completes_protected_alloc<const PAGE_SIZE: usize>(
    v: PagerView,
    w: PagerView,
    result: Result<ProtectedPageId<PAGE_SIZE>, MappedPageError>,
    left: Option<ProtectedPageId<PAGE_SIZE>>,
) -> bool {
    exists|
        v1: PagerView,
        turn: Turn<ProtectedPageId<PAGE_SIZE>, AllocProtectedTask>,
        n: nat,
    |
        #[trigger] v.alloc_protected_begun(v1, turn) && #[trigger] protected_alloc_ends(
            v1,
            turn,
            n,
            w,
            result,
            left,
        )
}

/// The release of a protected page that asks in `turn`, or is done, ends after `n` more
/// events, whatever they are.
pub open spec fn protected_free_ends(
    v: PagerView,
    turn: Turn<(), FreeProtectedTask>,
    n: nat,
    page_size: usize,
    w: PagerView,
) -> bool
    decreases n,
{
    match turn {
        Turn::Done(_) => n == 0 && w == v,
        Turn::Ask(_, task) => n > 0 && exists|
            event: IoEvent,
            v1: PagerView,
            turn1: Turn<(), FreeProtectedTask>,
        |
            #[trigger] v.free_protected_resumed(task, event, page_size, v1, turn1)
                && protected_free_ends(v1, turn1, (n - 1) as nat, page_size, w),
    }
}

/// A whole release of handle `id` leads from `v` to `w`.
pub open spec fn completes_protected_free<const PAGE_SIZE: usize>(
    v: PagerView,
    id: ProtectedPageId<PAGE_SIZE>,
    w: PagerView,
) -> bool {
    exists|f: Seq<u8>, v1: PagerView, turn: Turn<(), FreeProtectedTask>, n: nat|
        #[trigger] v.free_protected_begun(id.0, f, PAGE_SIZE, v1, turn)
            && #[trigger] protected_free_ends(v1, turn, n, PAGE_SIZE, w)
}

/// The handle of a slot leads back to it.
pub proof fn lemma_handle_of_slot(b: int, k: int, page_size: usize)
    requires
        valid_page_size(page_size),
        addressable(page_size),
        0 <= b <= u32::MAX,
        0 <= k < spec_dir_entries_per_page(page_size),
    ensures
        ({
            let epp = spec_dir_entries_per_page(page_size);
            let id = (b * epp + k) as u64;
            &&& id == b * epp + k
            &&& StateView::block_of(id, page_size) == b
            &&& StateView::slot_of(id, page_size) == k
        }),
{
    let epp = spec_dir_entries_per_page(page_size) as int;
    assert(0 <= b * epp <= 0xffff_ffff * 0xffff_ffff) by (nonlinear_arith)
        requires
            0 <= b <= 0xffff_ffff,
            0 <= epp <= 0xffff_ffff,
    ;
    vstd::arithmetic::div_mod::lemma_fundamental_div_mod_converse(b * epp + k, epp, b, k);
}

/// Entering a protected page adds its handle, and no other.
proof fn lemma_entered_adds_one<const PAGE_SIZE: usize>(
    v: PagerView,
    place: Place,
    pages: Seq<u64>,
    f: Seq<u8>,
    w: PagerView,
)
    requires
        valid_page_size(PAGE_SIZE),
        addressable(PAGE_SIZE),
        v.state.wf(PAGE_SIZE),
        v.state.place(PAGE_SIZE) == Ok::<Place, MappedPageError>(place),
        w.state.dirs == v.state.entered(place, pages, f, PAGE_SIZE).dirs,
    ensures
        named_with(v, w, ProtectedPageId::<PAGE_SIZE>(place.id(v.state, PAGE_SIZE))),
{
    let s = v.state;
    let t = s.entered(place, pages, f, PAGE_SIZE);
    let id = place.id(s, PAGE_SIZE);
    let epp = spec_dir_entries_per_page(PAGE_SIZE) as int;
    lemma_open_slot(s, 0);
    lemma_wf_sizes(s, PAGE_SIZE);
    let (b, k) = match place {
        Place::Slot { block, slot } => (block as int, slot as int),
        Place::NewBlock => (s.blocks.len() as int, 0int),
    };
    if place is Slot {
        assert(s.dirs[b].fits(PAGE_SIZE as int));
    }
    lemma_handle_of_slot(b, k, PAGE_SIZE);
    assert(StateView::block_of(id, PAGE_SIZE) == b && StateView::slot_of(id, PAGE_SIZE) == k);
    assert forall|x: ProtectedPageId<PAGE_SIZE>|
        #[trigger] named(w, x) <==> named(v, x) || x == ProtectedPageId::<PAGE_SIZE>(id) by {
        assert(w.state.entry(x.0, PAGE_SIZE) == t.entry(x.0, PAGE_SIZE));
        if x.0 != id {
            lemma_handles_apart(x.0, id, epp);
        }
    }
}

/// How far the allocation of a protected page has come that began in the state `v`.
spec fn protected_alloc_so_far(
    v: PagerView,
    u: PagerView,
    task: AllocProtectedTaskView,
    page_size: usize,
) -> bool {
    match task {
        AllocProtectedTaskView::Grow { place, .. } => {
            &&& u.state.blocks == v.state.blocks
            &&& u.state.dirs == v.state.dirs
            &&& v.state.place(page_size) == Ok::<Place, MappedPageError>(place)
        },
        AllocProtectedTaskView::Commit { place, .. } => {
            &&& u.state.blocks == v.state.blocks
            &&& u.state.dirs == v.state.dirs
            &&& v.state.place(page_size) == Ok::<Place, MappedPageError>(place)
        },
        AllocProtectedTaskView::Directory { .. } => true,
    }
}

proof fn lemma_protected_alloc_ends<const PAGE_SIZE: usize>(
    v: PagerView,
    u: PagerView,
    turn: Turn<ProtectedPageId<PAGE_SIZE>, AllocProtectedTask>,
    n: nat,
    w: PagerView,
    result: Result<ProtectedPageId<PAGE_SIZE>, MappedPageError>,
    left: Option<ProtectedPageId<PAGE_SIZE>>,
)
    requires
        valid_page_size(PAGE_SIZE),
        addressable(PAGE_SIZE),
        v.state.wf(PAGE_SIZE),
        turn matches Turn::Ask(_, task) ==> {
            &&& protected_alloc_so_far(v, u, task@, PAGE_SIZE)
            &&& task@ matches AllocProtectedTaskView::Directory { id, .. } ==> named_with(
                v,
                u,
                ProtectedPageId::<PAGE_SIZE>(id),
            )
        },
        turn matches Turn::Done(Err(_)) ==> u.state.dirs == v.state.dirs,
        turn matches Turn::Done(Ok(id)) ==> named_with(v, u, id),
        protected_alloc_ends(u, turn, n, w, result, left),
    ensures
        match result {
            Ok(id) => left is None && named_with(v, w, id),
            Err(_) => named_and_left(v, w, left),
        },
    decreases n,
{
    match turn {
        Turn::Done(r) => {
            if r is Err {
                lemma_named_of_dirs::<PAGE_SIZE>(v, w);
                assert forall|x: ProtectedPageId<PAGE_SIZE>|
                    #[trigger] named(w, x) <==> named(v, x) || left == Some(x) by {}
            }
        },
        Turn::Ask(_, task) => {
            let (event, f, v1, turn1) = choose|
                event: IoEvent,
                f: Seq<u8>,
                v1: PagerView,
                turn1: Turn<ProtectedPageId<PAGE_SIZE>, AllocProtectedTask>,
            |
                {
                    &&& #[trigger] u.alloc_protected_resumed(task@, event, f, v1, turn1)
                    &&& if task@ is Directory && event is Failed {
                        &&& n == 1
                        &&& w == v1
                        &&& turn1 == Turn::<ProtectedPageId<PAGE_SIZE>, AllocProtectedTask>::Done(
                            result,
                        )
                        &&& left == Some(ProtectedPageId::<PAGE_SIZE>(task@->Directory_id))
                    } else {
                        protected_alloc_ends(v1, turn1, (n - 1) as nat, w, result, left)
                    }
                };
            match task@ {
                AllocProtectedTaskView::Grow { place, reserve } => {},
                AllocProtectedTaskView::Commit { place, pages } => {
                    if event is Done {
                        let c = u.committed();
                        lemma_entered_dirs(v.state, c.state, place, pages, f, PAGE_SIZE);
                        lemma_entered_adds_one::<PAGE_SIZE>(v, place, pages, f, v1);
                    }
                },
                AllocProtectedTaskView::Directory { block, id } => {
                    lemma_named_of_dirs::<PAGE_SIZE>(u, v1);
                    assert forall|x: ProtectedPageId<PAGE_SIZE>|
                        #[trigger] named(v1, x) <==> named(v, x) || x == ProtectedPageId::<
                            PAGE_SIZE,
                        >(id) by {
                        assert(named(u, x) <==> named(v1, x));
                    }
                },
            }
            if !(task@ is Directory && event is Failed) {
                lemma_protected_alloc_ends(v, v1, turn1, (n - 1) as nat, w, result, left);
            }
        },
    }
}

/// What entering a page makes of the directory depends on the directory alone.
proof fn lemma_entered_dirs(
    s: StateView,
    t: StateView,
    place: Place,
    pages: Seq<u64>,
    f: Seq<u8>,
    page_size: usize,
)
    requires
        s.dirs == t.dirs,
        s.blocks == t.blocks,
    ensures
        s.entered(place, pages, f, page_size).dirs == t.entered(place, pages, f, page_size).dirs,
        place.id(s, page_size) == place.id(t, page_size),
{
}

/// Which handles name a protected page depends on the directory alone.
proof fn lemma_named_of_dirs<const PAGE_SIZE: usize>(v: PagerView, w: PagerView)
    requires
        v.state.dirs == w.state.dirs,
    ensures
        named_same::<PAGE_SIZE>(v, w),
{
    assert forall|x: ProtectedPageId<PAGE_SIZE>| #[trigger] named(w, x) <==> named(v, x) by {
        assert(w.state.entry(x.0, PAGE_SIZE) == v.state.entry(x.0, PAGE_SIZE));
    }
}

/// A whole allocation of a protected page that succeeds adds its handle, which named
/// none, and no other.  One that fails changes no handle, unless it is the commit of its
/// entry that fails: then that entry is there.
pub proof fn law_protected_alloc_names_one<const PAGE_SIZE: usize>(
    v: PagerView,
    w: PagerView,
    result: Result<ProtectedPageId<PAGE_SIZE>, MappedPageError>,
    left: Option<ProtectedPageId<PAGE_SIZE>>,
)
    requires
        valid_page_size(PAGE_SIZE),
        addressable(PAGE_SIZE),
        v.state.wf(PAGE_SIZE),
        completes_protected_alloc(v, w, result, left),
    ensures
        match result {
            Ok(id) => left is None && named_with(v, w, id),
            Err(_) => named_and_left(v, w, left),
        },
{
    let (v1, turn, n) = choose|
        v1: PagerView,
        turn: Turn<ProtectedPageId<PAGE_SIZE>, AllocProtectedTask>,
        n: nat,
    |
        #[trigger] v.alloc_protected_begun(v1, turn) && #[trigger] protected_alloc_ends(
            v1,
            turn,
            n,
            w,
            result,
            left,
        );
    lemma_protected_alloc_ends(v, v1, turn, n, w, result, left);
}

proof fn lemma_protected_free_ends<const PAGE_SIZE: usize>(
    v: PagerView,
    turn: Turn<(), FreeProtectedTask>,
    n: nat,
    w: PagerView,
)
    requires
        protected_free_ends(v, turn, n, PAGE_SIZE, w),
    ensures
        w.state.dirs == v.state.dirs,
    decreases n,
{
    if let Turn::Ask(_, task) = turn {
        let (event, v1, turn1) = choose|
            event: IoEvent,
            v1: PagerView,
            turn1: Turn<(), FreeProtectedTask>,
        |
            #[trigger] v.free_protected_resumed(task, event, PAGE_SIZE, v1, turn1)
                && protected_free_ends(v1, turn1, (n - 1) as nat, PAGE_SIZE, w);
        lemma_protected_free_ends::<PAGE_SIZE>(v1, turn1, (n - 1) as nat, w);
    }
}

/// A whole release of a handle that names a protected page ends that, and changes no
/// other handle, also if a commit fails.
pub proof fn law_protected_free_ends_one<const PAGE_SIZE: usize>(
    v: PagerView,
    id: ProtectedPageId<PAGE_SIZE>,
    w: PagerView,
)
    requires
        valid_page_size(PAGE_SIZE),
        named(v, id),
        completes_protected_free(v, id, w),
    ensures
        forall|x: ProtectedPageId<PAGE_SIZE>| #[trigger] named(w, x) <==> named(v, x) && x != id,
{
    let (f, v1, turn, n) = choose|
        f: Seq<u8>,
        v1: PagerView,
        turn: Turn<(), FreeProtectedTask>,
        n: nat,
    |
        #[trigger] v.free_protected_begun(id.0, f, PAGE_SIZE, v1, turn)
            && #[trigger] protected_free_ends(v1, turn, n, PAGE_SIZE, w);
    lemma_protected_free_ends::<PAGE_SIZE>(v1, turn, n, w);
    lemma_named_of_dirs::<PAGE_SIZE>(v1, w);
    let u = v.mapped(true);
    assert(u.free_protected_refusal(id.0, PAGE_SIZE) is None);
    law_freed_handle_is_gone(u, id.0, PAGE_SIZE);
    assert(v1.state == u.entry_freed(id.0, PAGE_SIZE).state);
    assert forall|x: ProtectedPageId<PAGE_SIZE>|
        #[trigger] named(w, x) <==> named(v, x) && x != id by {
        assert(named(v1, x) <==> named(w, x));
        if x != id {
            assert(v1.state.entry(x.0, PAGE_SIZE) == v.state.entry(x.0, PAGE_SIZE));
        }
    }
}

/// Step `i` of a batch of allocations of protected pages is carried out on the pager,
/// which is in the state `views[i]` before and in the next one after it.
pub open spec fn protected_batch_turn<const PAGE_SIZE: usize>(
    steps: Seq<BulkStep<ProtectedPageId<PAGE_SIZE>>>,
    views: Seq<PagerView>,
    i: int,
) -> bool {
    &&& views[i].state.wf(PAGE_SIZE)
    &&& match steps[i] {
        BulkStep::Allocate(batch) => exists|
            result: Result<ProtectedPageId<PAGE_SIZE>, MappedPageError>,
            left: Option<ProtectedPageId<PAGE_SIZE>>,
        |
            {
                &&& #[trigger] completes_protected_alloc(views[i], views[i + 1], result, left)
                &&& alloc_step(batch.got@, batch.want, result, steps[i + 1])
            },
        BulkStep::Free(id, undo) => {
            &&& completes_protected_free(views[i], id, views[i + 1])
            &&& undo_step(undo.ids@, undo.next as int, undo.error, steps[i + 1])
        },
        BulkStep::Done(_) => true,
    }
}

/// An allocation of the batch fails and leaves `left` entered.
pub open spec fn left_by<const PAGE_SIZE: usize>(
    steps: Seq<BulkStep<ProtectedPageId<PAGE_SIZE>>>,
    views: Seq<PagerView>,
    left: Option<ProtectedPageId<PAGE_SIZE>>,
) -> bool {
    exists|i: int, e: MappedPageError|
        {
            &&& 0 <= i < steps.len() - 1
            &&& #[trigger] steps[i] is Allocate
            &&& #[trigger] completes_protected_alloc(views[i], views[i + 1], Err(e), left)
        }
}

/// A batch of allocations of protected pages is all or nothing.  If it succeeds, the
/// handles that name a protected page are those that did before and those that it
/// results in, which are all different and named none before.  If it fails, they are
/// those that did before, and at most the entry that was under way: that one if it was
/// its commit that failed.
pub proof fn law_protected_batch_is_all_or_nothing<const PAGE_SIZE: usize>(
    want: usize,
    steps: Seq<BulkStep<ProtectedPageId<PAGE_SIZE>>>,
    views: Seq<PagerView>,
)
    requires
        valid_page_size(PAGE_SIZE),
        addressable(PAGE_SIZE),
        0 < steps.len(),
        views.len() == steps.len(),
        start_step(want, steps[0]),
        forall|i: int|
            0 <= i < steps.len() - 1 ==> #[trigger] protected_batch_turn(steps, views, i),
        forall|i: int| 0 <= i < steps.len() - 1 ==> !(#[trigger] steps[i] is Done),
    ensures
        match steps.last() {
            BulkStep::Done(Err(_)) => exists|left: Option<ProtectedPageId<PAGE_SIZE>>|
                #[trigger] left_by(steps, views, left) && named_and_left(
                    views[0],
                    views.last(),
                    left,
                ),
            BulkStep::Done(Ok(ids)) => {
                &&& ids@.len() == want
                &&& ids@.no_duplicates()
                &&& forall|x: ProtectedPageId<PAGE_SIZE>|
                    #[trigger] named(views.last(), x) <==> named(views[0], x) || ids@.contains(x)
                &&& forall|k: int|
                    0 <= k < ids@.len() ==> !named(views[0], #[trigger] ids@[k])
            },
            _ => true,
        },
{
    match steps.last() {
        BulkStep::Done(Err(_)) => {
            let at = lemma_failing_step(want, steps, views, steps.len() - 1);
            assert(protected_batch_turn(steps, views, at));
            let batch = steps[at]->Allocate_0;
            let (result, left) = choose|
                result: Result<ProtectedPageId<PAGE_SIZE>, MappedPageError>,
                left: Option<ProtectedPageId<PAGE_SIZE>>,
            |
                {
                    &&& #[trigger] completes_protected_alloc(
                        views[at],
                        views[at + 1],
                        result,
                        left,
                    )
                    &&& alloc_step(batch.got@, batch.want, result, steps[at + 1])
                };
            assert(result is Err);
            assert(completes_protected_alloc(views[at], views[at + 1], Err(result->Err_0), left));
            assert(left_by(steps, views, left));
            law_protected_alloc_names_one(views[at], views[at + 1], result, left);
            let live = |i: int, x: ProtectedPageId<PAGE_SIZE>|
                named(views[i], x) && left != Some(x);
            let last = steps.len() - 1;
            assert forall|i: int| 0 <= i < last && fails_at(steps, i) implies i == at by {
                lemma_one_failure(steps, views, at, i);
            }
            assert forall|i: int| 0 <= i < last implies #[trigger] batch_turn(steps, live, i) by {
                lemma_protected_batch_at(want, steps, views, at, left, i);
            }
            law_batch_is_all_or_nothing(want, steps, live);
            if left is Some {
                lemma_left_is_new(steps, views, at, left->0, 0);
                lemma_left_stays(want, steps, views, at, left, last);
            }
            assert forall|x: ProtectedPageId<PAGE_SIZE>|
                #[trigger] named(views.last(), x) <==> named(views[0], x) || left == Some(x) by {
                assert(live(last, x) <==> live(0, x));
            }
            assert(named_and_left(views[0], views.last(), left));
        },
        BulkStep::Done(Ok(ids)) => {
            let none: Option<ProtectedPageId<PAGE_SIZE>> = None;
            let live = |i: int, x: ProtectedPageId<PAGE_SIZE>|
                named(views[i], x) && none != Some(x);
            let last = steps.len() - 1;
            assert forall|i: int| 0 <= i < last implies !fails_at(steps, i) by {
                if fails_at(steps, i) {
                    lemma_stays_undone(steps, views, i + 1, last);
                }
            }
            assert forall|i: int| 0 <= i < last implies #[trigger] batch_turn(steps, live, i) by {
                lemma_protected_batch_at(want, steps, views, last, none, i);
            }
            law_batch_is_all_or_nothing(want, steps, live);
            assert forall|x: ProtectedPageId<PAGE_SIZE>|
                #[trigger] named(views.last(), x) <==> named(views[0], x) || ids@.contains(x) by {
                assert(live(last, x) <==> live(0, x) || ids@.contains(x));
            }
            assert forall|k: int| 0 <= k < ids@.len() implies !named(
                views[0],
                #[trigger] ids@[k],
            ) by {
                assert(!live(0, ids@[k]));
            }
        },
        _ => {},
    }
}

/// What was allocated is freed again, or the batch has failed.
spec fn undone<H>(step: BulkStep<H>) -> bool {
    step is Free || step matches BulkStep::Done(Err(_))
}

/// The allocation at step `i` fails.
spec fn fails_at<H>(steps: Seq<BulkStep<H>>, i: int) -> bool {
    steps[i] is Allocate && undone(steps[i + 1])
}

/// A batch that frees again, or has failed, had an allocation that failed.
proof fn lemma_failing_step<const PAGE_SIZE: usize>(
    want: usize,
    steps: Seq<BulkStep<ProtectedPageId<PAGE_SIZE>>>,
    views: Seq<PagerView>,
    i: int,
) -> (at: int)
    requires
        0 <= i < steps.len(),
        start_step(want, steps[0]),
        forall|i: int|
            0 <= i < steps.len() - 1 ==> #[trigger] protected_batch_turn(steps, views, i),
        forall|i: int| 0 <= i < steps.len() - 1 ==> !(#[trigger] steps[i] is Done),
        undone(steps[i]),
    ensures
        0 <= at < i,
        fails_at(steps, at),
    decreases i,
{
    assert(i > 0);
    assert(protected_batch_turn(steps, views, i - 1));
    assert(!(steps[i - 1] is Done));
    if steps[i - 1] is Allocate {
        i - 1
    } else {
        lemma_failing_step(want, steps, views, i - 1)
    }
}

/// Once an allocation of the batch has failed, what was allocated is freed, and none is
/// made any more.
proof fn lemma_stays_undone<const PAGE_SIZE: usize>(
    steps: Seq<BulkStep<ProtectedPageId<PAGE_SIZE>>>,
    views: Seq<PagerView>,
    i: int,
    j: int,
)
    requires
        0 <= i <= j < steps.len(),
        forall|i: int|
            0 <= i < steps.len() - 1 ==> #[trigger] protected_batch_turn(steps, views, i),
        forall|i: int| 0 <= i < steps.len() - 1 ==> !(#[trigger] steps[i] is Done),
        undone(steps[i]),
    ensures
        undone(steps[j]),
    decreases j,
{
    if j > i {
        lemma_stays_undone(steps, views, i, j - 1);
        assert(protected_batch_turn(steps, views, j - 1));
        assert(!(steps[j - 1] is Done));
    }
}

/// At most one allocation of the batch fails.
proof fn lemma_one_failure<const PAGE_SIZE: usize>(
    steps: Seq<BulkStep<ProtectedPageId<PAGE_SIZE>>>,
    views: Seq<PagerView>,
    i: int,
    j: int,
)
    requires
        0 <= i < steps.len() - 1,
        0 <= j < steps.len() - 1,
        forall|i: int|
            0 <= i < steps.len() - 1 ==> #[trigger] protected_batch_turn(steps, views, i),
        forall|i: int| 0 <= i < steps.len() - 1 ==> !(#[trigger] steps[i] is Done),
        fails_at(steps, i),
        fails_at(steps, j),
    ensures
        i == j,
{
    if i < j {
        lemma_stays_undone(steps, views, i + 1, j);
    } else if j < i {
        lemma_stays_undone(steps, views, j + 1, i);
    }
}

/// What names no page before the allocation at `at` named none at the beginning.
proof fn lemma_left_is_new<const PAGE_SIZE: usize>(
    steps: Seq<BulkStep<ProtectedPageId<PAGE_SIZE>>>,
    views: Seq<PagerView>,
    at: int,
    y: ProtectedPageId<PAGE_SIZE>,
    i: int,
)
    requires
        valid_page_size(PAGE_SIZE),
        addressable(PAGE_SIZE),
        0 <= i <= at < steps.len() - 1,
        forall|i: int|
            0 <= i < steps.len() - 1 ==> #[trigger] protected_batch_turn(steps, views, i),
        forall|i: int| 0 <= i < steps.len() - 1 ==> !(#[trigger] steps[i] is Done),
        steps[at] is Allocate,
        !named(views[at], y),
    ensures
        !named(views[i], y),
    decreases at - i,
{
    if i < at {
        lemma_left_is_new(steps, views, at, y, i + 1);
        assert(protected_batch_turn(steps, views, i));
        match steps[i] {
            BulkStep::Allocate(batch) => {
                let (result, left) = choose|
                    result: Result<ProtectedPageId<PAGE_SIZE>, MappedPageError>,
                    left: Option<ProtectedPageId<PAGE_SIZE>>,
                |
                    {
                        &&& #[trigger] completes_protected_alloc(
                            views[i],
                            views[i + 1],
                            result,
                            left,
                        )
                        &&& alloc_step(batch.got@, batch.want, result, steps[i + 1])
                    };
                law_protected_alloc_names_one(views[i], views[i + 1], result, left);
                assert(named(views[i + 1], y) <== named(views[i], y));
            },
            BulkStep::Free(_, _) => {
                lemma_stays_undone(steps, views, i, at);
            },
            BulkStep::Done(_) => {},
        }
    }
}

/// The entry that is left stays there while what was allocated is freed.
proof fn lemma_left_stays<const PAGE_SIZE: usize>(
    want: usize,
    steps: Seq<BulkStep<ProtectedPageId<PAGE_SIZE>>>,
    views: Seq<PagerView>,
    at: int,
    left: Option<ProtectedPageId<PAGE_SIZE>>,
    i: int,
)
    requires
        valid_page_size(PAGE_SIZE),
        addressable(PAGE_SIZE),
        views.len() == steps.len(),
        start_step(want, steps[0]),
        forall|i: int|
            0 <= i < steps.len() - 1 ==> #[trigger] protected_batch_turn(steps, views, i),
        forall|i: int| 0 <= i < steps.len() - 1 ==> !(#[trigger] steps[i] is Done),
        forall|i: int|
            0 <= i < steps.len() - 1 && #[trigger] fails_at(steps, i) ==> i == at,
        0 <= at < i < steps.len(),
        fails_at(steps, at),
        named_and_left(views[at], views[at + 1], left),
        left is Some,
    ensures
        named(views[i], left->0),
    decreases i,
{
    if i == at + 1 {
        assert(named(views[i], left->0));
    } else {
        lemma_left_stays(want, steps, views, at, left, i - 1);
        lemma_protected_batch_at(want, steps, views, at, left, i - 1);
    }
}

proof fn lemma_protected_batch_at<const PAGE_SIZE: usize>(
    want: usize,
    steps: Seq<BulkStep<ProtectedPageId<PAGE_SIZE>>>,
    views: Seq<PagerView>,
    at: int,
    left: Option<ProtectedPageId<PAGE_SIZE>>,
    i: int,
)
    requires
        valid_page_size(PAGE_SIZE),
        addressable(PAGE_SIZE),
        views.len() == steps.len(),
        start_step(want, steps[0]),
        forall|i: int|
            0 <= i < steps.len() - 1 ==> #[trigger] protected_batch_turn(steps, views, i),
        forall|i: int| 0 <= i < steps.len() - 1 ==> !(#[trigger] steps[i] is Done),
        forall|i: int|
            0 <= i < steps.len() - 1 && #[trigger] fails_at(steps, i) ==> i == at,
        left is Some ==> 0 <= at < steps.len() - 1,
        0 <= at < steps.len() - 1 ==> fails_at(steps, at) && named_and_left(
            views[at],
            views[at + 1],
            left,
        ),
        0 <= i < steps.len() - 1,
    ensures
        batch_turn(
            steps,
            |i: int, x: ProtectedPageId<PAGE_SIZE>| named(views[i], x) && left != Some(x),
            i,
        ),
        left matches Some(y) ==> i > at ==> named(views[i], y) ==> named(views[i + 1], y),
    decreases i,
{
    let live = |i: int, x: ProtectedPageId<PAGE_SIZE>| named(views[i], x) && left != Some(x);
    assert forall|j: int| 0 <= j < i implies #[trigger] batch_turn(steps, live, j) by {
        lemma_protected_batch_at(want, steps, views, at, left, j);
    }
    let done = steps.take(i + 1);
    assert forall|j: int| 0 <= j < done.len() - 1 implies #[trigger] batch_turn(
        done,
        live,
        j,
    ) by {
        assert(batch_turn(steps, live, j));
        assert(done[j] == steps[j] && done[j + 1] == steps[j + 1]);
    }
    assert forall|j: int| 0 <= j < done.len() - 1 implies !(#[trigger] done[j] is Done) by {
        assert(done[j] == steps[j]);
    }
    lemma_batch_state(want, done, live, i);
    assert(done[i] == steps[i]);
    assert(protected_batch_turn(steps, views, i));
    match steps[i] {
        BulkStep::Allocate(batch) => {
            let (result, under_way) = choose|
                result: Result<ProtectedPageId<PAGE_SIZE>, MappedPageError>,
                under_way: Option<ProtectedPageId<PAGE_SIZE>>,
            |
                {
                    &&& #[trigger] completes_protected_alloc(
                        views[i],
                        views[i + 1],
                        result,
                        under_way,
                    )
                    &&& alloc_step(batch.got@, batch.want, result, steps[i + 1])
                };
            law_protected_alloc_names_one(views[i], views[i + 1], result, under_way);
            match result {
                Ok(id) => {
                    if left is Some {
                        if i > at {
                            lemma_stays_undone(steps, views, at + 1, i);
                        }
                        assert(i != at);
                        lemma_left_is_new(steps, views, at, left->0, i + 1);
                    }
                    assert(named(views[i + 1], id));
                    assert forall|x: ProtectedPageId<PAGE_SIZE>|
                        #[trigger] live(i + 1, x) <==> live(i, x) || x == id by {
                        assert(named(views[i + 1], x) <==> named(views[i], x) || x == id);
                    }
                    assert(!live(i, id));
                },
                Err(_) => {
                    assert(fails_at(steps, i));
                    assert forall|x: ProtectedPageId<PAGE_SIZE>|
                        #[trigger] live(i + 1, x) <==> live(i, x) by {
                        assert(named(views[at + 1], x) <==> named(views[at], x) || left == Some(
                            x,
                        ));
                    }
                },
            }
        },
        BulkStep::Free(id, undo) => {
            assert(undo.ids@[undo.next - 1] == id);
            assert(live(i, id));
            law_protected_free_ends_one(views[i], id, views[i + 1]);
            assert forall|x: ProtectedPageId<PAGE_SIZE>|
                #[trigger] live(i + 1, x) <==> live(i, x) && x != id by {
                assert(named(views[i + 1], x) <==> named(views[i], x) && x != id);
            }
            if left is Some {
                let y = left->0;
                assert(named(views[i + 1], y) <==> named(views[i], y) && y != id);
            }
        },
        BulkStep::Done(_) => {},
    }
}

} // verus!
