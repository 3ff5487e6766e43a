//! Batches: which single allocation or release comes next, and what the batch
//! results in.

use vstd::prelude::*;

use crate::error::MappedPageError;

verus! {

// ── Allocating a batch ────────────────────────────────────────────────────────

/// What is to be done next for a batch of allocations.
#[derive(Debug)]
pub enum BulkStep<H> {
    /// Allocate one more handle, and tell the batch how that went.
    Allocate(BulkAlloc<H>),
    /// Free this handle, which the failed batch had allocated.
    Free(H, BulkUndo<H>),
    Done(Result<Vec<H>, MappedPageError>),
}

/// A batch of which some handles are still to be allocated.
#[derive(Debug)]
pub struct BulkAlloc<H> {
    pub got: Vec<H>,
    pub want: usize,
}

/// A failed batch whose handles are being freed again, in the order in which
/// they were allocated.
#[derive(Debug)]
pub struct BulkUndo<H> {
    pub ids: Vec<H>,
    /// The next handle to free.
    pub next: usize,
    /// Why the batch failed.
    pub error: MappedPageError,
}

/// What is to be done first for a batch of `want` allocations.
pub open spec fn start_step<H>(want: usize, step: BulkStep<H>) -> bool {
    if want == 0 {
        step matches BulkStep::Done(Ok(ids)) && ids@ == Seq::<H>::empty()
    } else {
        step matches BulkStep::Allocate(batch) && batch.got@ == Seq::<H>::empty() && batch.want
            == want
    }
}

/// What is to be done next for a batch that has `got` some of the `want` handles
/// wanted, once one more allocation has ended with `result`.
pub open spec fn alloc_step<H>(
    got: Seq<H>,
    want: usize,
    result: Result<H, MappedPageError>,
    step: BulkStep<H>,
) -> bool {
    match result {
        Ok(id) => if got.len() + 1 == want {
            step matches BulkStep::Done(Ok(ids)) && ids@ == got.push(id)
        } else {
            step matches BulkStep::Allocate(batch) && batch.got@ == got.push(id) && batch.want
                == want
        },
        Err(e) => undo_step(got, 0, e, step),
    }
}

impl<H: Copy> BulkAlloc<H> {
    /// Begin a batch of `want` allocations.
    pub fn start(want: usize) -> (r: BulkStep<H>)
        ensures
            start_step(want, r),
    {
        let got: Vec<H> = Vec::new();
        assert(got@ =~= Seq::empty());
        if want == 0 {
            BulkStep::Done(Ok(got))
        } else {
            BulkStep::Allocate(BulkAlloc { got, want })
        }
    }

    /// Go on after one more allocation.
    pub fn allocated(self, result: Result<H, MappedPageError>) -> (r: BulkStep<H>)
        requires
            self.got@.len() < self.want,
        ensures
            alloc_step(self.got@, self.want, result, r),
    {
        let BulkAlloc { mut got, want } = self;
        match result {
            Ok(id) => {
                got.push(id);
                if got.len() == want {
                    BulkStep::Done(Ok(got))
                } else {
                    BulkStep::Allocate(BulkAlloc { got, want })
                }
            },
            Err(error) => BulkUndo { ids: got, next: 0, error }.freed(),
        }
    }
}

/// What is to be done next for a failed batch: free the handle at `next`, or
/// report the error when all are freed.
pub open spec fn undo_step<H>(
    ids: Seq<H>,
    next: int,
    error: MappedPageError,
    step: BulkStep<H>,
) -> bool {
    if next < ids.len() {
        &&& step matches BulkStep::Free(id, undo)
        &&& id == ids[next]
        &&& undo.ids@ == ids
        &&& undo.next == next + 1
        &&& undo.error == error
    } else {
        step == BulkStep::<H>::Done(Err(error))
    }
}

impl<H: Copy> BulkUndo<H> {
    /// Go on after a handle was freed, or could not be.
    pub fn freed(self) -> (r: BulkStep<H>)
        ensures
            undo_step(self.ids@, self.next as int, self.error, r),
    {
        let BulkUndo { ids, next, error } = self;
        if next < ids.len() {
            let id = ids[next];
            BulkStep::Free(id, BulkUndo { ids, next: next + 1, error })
        } else {
            BulkStep::Done(Err(error))
        }
    }
}

// ── Freeing a batch ───────────────────────────────────────────────────────────

/// What is to be done next for a batch of releases.
#[derive(Debug)]
pub enum BulkFreeStep<H> {
    /// Free this handle, and tell the batch how that went.
    Free(H, BulkFree<H>),
    Done(Result<(), MappedPageError>),
}

/// A batch of which some handles are still to be freed.
#[derive(Debug)]
pub struct BulkFree<H> {
    pub ids: Vec<H>,
    /// The next handle to free.
    pub next: usize,
}

/// What is to be done next: free the handle at `next`, or nothing more.
pub open spec fn free_step<H>(ids: Seq<H>, next: int, step: BulkFreeStep<H>) -> bool {
    if next < ids.len() {
        &&& step matches BulkFreeStep::Free(id, batch)
        &&& id == ids[next]
        &&& batch.ids@ == ids
        &&& batch.next == next + 1
    } else {
        step == BulkFreeStep::<H>::Done(Ok(()))
    }
}

/// What is to be done next once the handle before `next` was released with `result`: a
/// failure ends the batch.
pub open spec fn freed_step<H>(
    ids: Seq<H>,
    next: int,
    result: Result<(), MappedPageError>,
    step: BulkFreeStep<H>,
) -> bool {
    match result {
        Ok(_) => free_step(ids, next, step),
        Err(e) => step == BulkFreeStep::<H>::Done(Err(e)),
    }
}

impl<H: Copy> BulkFree<H> {
    /// Begin to free the handles one after the other.
    pub fn start(ids: Vec<H>) -> (r: BulkFreeStep<H>)
        ensures
            free_step(ids@, 0, r),
    {
        BulkFree { ids, next: 0 }.freed(Ok(()))
    }

    /// Go on after a handle was freed.  A failure ends the batch.
    pub fn freed(self, result: Result<(), MappedPageError>) -> (r: BulkFreeStep<H>)
        ensures
            freed_step(self.ids@, self.next as int, result, r),
    {
        match result {
            Ok(_) => {
                let BulkFree { ids, next } = self;
                if next < ids.len() {
                    let id = ids[next];
                    BulkFreeStep::Free(id, BulkFree { ids, next: next + 1 })
                } else {
                    BulkFreeStep::Done(Ok(()))
                }
            },
            Err(e) => BulkFreeStep::Done(Err(e)),
        }
    }
}

// ── Laws ──────────────────────────────────────────────────────────────────────

/// Step `i` of a batch asks for an allocation, which gives `ids[i]`, and the next
/// step is what then is to be done.
pub open spec fn allocates_at<H>(steps: Seq<BulkStep<H>>, ids: Seq<H>, i: int) -> bool {
    steps[i] matches BulkStep::Allocate(batch) ==> alloc_step(
        batch.got@,
        batch.want,
        Ok(ids[i]),
        steps[i + 1],
    )
}

/// A batch asks for exactly as many allocations as are wanted, and if all of them
/// succeed it results in their handles, in order.
pub proof fn law_batch_collects<H>(want: usize, ids: Seq<H>, steps: Seq<BulkStep<H>>)
    requires
        ids.len() == want,
        steps.len() == want + 1,
        start_step(want, steps[0]),
        forall|i: int| 0 <= i < want ==> #[trigger] allocates_at(steps, ids, i),
    ensures
        forall|i: int| 0 <= i < want ==> #[trigger] steps[i] is Allocate,
        steps[want as int] matches BulkStep::Done(Ok(got)) && got@ == ids,
{
    assert forall|i: int| 0 <= i < want implies #[trigger] steps[i] is Allocate by {
        lemma_batch_at(want, ids, steps, i);
    }
    if want > 0 {
        lemma_batch_at(want, ids, steps, want - 1);
        assert(allocates_at(steps, ids, want - 1));
        assert(ids.take(want - 1).push(ids[want - 1]) =~= ids);
    } else {
        assert(ids =~= Seq::empty());
    }
}

proof fn lemma_batch_at<H>(want: usize, ids: Seq<H>, steps: Seq<BulkStep<H>>, i: int)
    requires
        ids.len() == want,
        steps.len() == want + 1,
        start_step(want, steps[0]),
        forall|i: int| 0 <= i < want ==> #[trigger] allocates_at(steps, ids, i),
        0 <= i < want,
    ensures
        steps[i] matches BulkStep::Allocate(batch) && batch.got@ == ids.take(i) && batch.want
            == want,
    decreases i,
{
    if i == 0 {
        assert(ids.take(0) =~= Seq::empty());
    } else {
        lemma_batch_at(want, ids, steps, i - 1);
        assert(allocates_at(steps, ids, i - 1));
        assert(ids.take(i - 1).push(ids[i - 1]) =~= ids.take(i));
    }
}

/// Step `i` of a failed batch asks for a release, and the next step is what then
/// is to be done.
pub open spec fn undoes_at<H>(steps: Seq<BulkStep<H>>, i: int) -> bool {
    steps[i] matches BulkStep::Free(_, undo) ==> undo_step(
        undo.ids@,
        undo.next as int,
        undo.error,
        steps[i + 1],
    )
}

/// A failed batch frees exactly the handles that it had allocated, each once and
/// in order, and then results in the error.
pub proof fn law_failed_batch_is_undone<H>(
    ids: Seq<H>,
    error: MappedPageError,
    steps: Seq<BulkStep<H>>,
)
    requires
        steps.len() == ids.len() + 1,
        undo_step(ids, 0, error, steps[0]),
        forall|i: int| 0 <= i < ids.len() ==> #[trigger] undoes_at(steps, i),
    ensures
        forall|i: int|
            0 <= i < ids.len() ==> (#[trigger] steps[i] matches BulkStep::Free(id, _) && id
                == ids[i]),
        steps[ids.len() as int] == BulkStep::<H>::Done(Err(error)),
{
    assert forall|i: int| 0 <= i < ids.len() implies (#[trigger] steps[i] matches BulkStep::Free(
        id,
        _,
    ) && id == ids[i]) by {
        lemma_undo_at(ids, error, steps, i);
    }
    lemma_undo_at(ids, error, steps, ids.len() as int);
}

proof fn lemma_undo_at<H>(
    ids: Seq<H>,
    error: MappedPageError,
    steps: Seq<BulkStep<H>>,
    i: int,
)
    requires
        steps.len() == ids.len() + 1,
        undo_step(ids, 0, error, steps[0]),
        forall|i: int| 0 <= i < ids.len() ==> #[trigger] undoes_at(steps, i),
        0 <= i <= ids.len(),
    ensures
        undo_step(ids, i, error, steps[i]),
    decreases i,
{
    if i > 0 {
        lemma_undo_at(ids, error, steps, i - 1);
        assert(undoes_at(steps, i - 1));
    }
}

/// Once an allocation of a batch has failed, the handles that it had `got` are freed,
/// each once and in order, no further one is allocated, and the batch results in the
/// error of that allocation.
pub proof fn law_failed_allocation_ends_batch<H>(
    got: Seq<H>,
    want: usize,
    error: MappedPageError,
    steps: Seq<BulkStep<H>>,
)
    requires
        steps.len() == got.len() + 1,
        alloc_step(got, want, Err(error), steps[0]),
        forall|i: int| 0 <= i < got.len() ==> #[trigger] undoes_at(steps, i),
    ensures
        forall|i: int|
            0 <= i < got.len() ==> (#[trigger] steps[i] matches BulkStep::Free(id, _) && id
                == got[i]),
        steps[got.len() as int] == BulkStep::<H>::Done(Err(error)),
{
    law_failed_batch_is_undone(got, error, steps);
}

/// Step `i` of a batch is carried out: an allocation hands out a handle that was
/// not live and makes it live, or fails and changes nothing; a release ends the life
/// of its handle and of no other.  `live(i, x)` says whether `x` is live at step
/// `i`.
pub open spec fn batch_turn<H>(
    steps: Seq<BulkStep<H>>,
    live: spec_fn(int, H) -> bool,
    i: int,
) -> bool {
    match steps[i] {
        BulkStep::Allocate(batch) => exists|result: Result<H, MappedPageError>|
            {
                &&& #[trigger] alloc_step(batch.got@, batch.want, result, steps[i + 1])
                &&& match result {
                    Ok(id) => !live(i, id) && forall|x: H|
                        #[trigger] live(i + 1, x) <==> live(i, x) || x == id,
                    Err(_) => forall|x: H| #[trigger] live(i + 1, x) <==> live(i, x),
                }
            },
        BulkStep::Free(id, undo) => {
            &&& undo_step(undo.ids@, undo.next as int, undo.error, steps[i + 1])
            &&& forall|x: H| #[trigger] live(i + 1, x) <==> live(i, x) && x != id
        },
        BulkStep::Done(_) => true,
    }
}

/// A batch is all or nothing: if it fails, exactly those handles are live that were
/// live before; if it succeeds, the handles that it results in as well, which are
/// all different and were not live before.
pub proof fn law_batch_is_all_or_nothing<H>(
    want: usize,
    steps: Seq<BulkStep<H>>,
    live: spec_fn(int, H) -> bool,
)
    requires
        0 < steps.len(),
        start_step(want, steps[0]),
        forall|i: int| 0 <= i < steps.len() - 1 ==> #[trigger] batch_turn(steps, live, i),
        forall|i: int| 0 <= i < steps.len() - 1 ==> !(#[trigger] steps[i] is Done),
    ensures
        match steps.last() {
            BulkStep::Done(Err(_)) => forall|x: H|
                #[trigger] live(steps.len() - 1, x) <==> live(0, x),
            BulkStep::Done(Ok(ids)) => {
                &&& ids@.len() == want
                &&& ids@.no_duplicates()
                &&& forall|x: H|
                    #[trigger] live(steps.len() - 1, x) <==> live(0, x) || ids@.contains(x)
                &&& forall|k: int| 0 <= k < ids@.len() ==> !live(0, #[trigger] ids@[k])
            },
            _ => true,
        },
{
    lemma_batch_state(want, steps, live, steps.len() - 1);
}

/// The handles of `ids` from `from` on are those that are live and were not at the
/// beginning.
pub open spec fn adds<H>(
    live: spec_fn(int, H) -> bool,
    i: int,
    ids: Seq<H>,
    from: int,
) -> bool {
    &&& ids.no_duplicates()
    &&& forall|k: int| 0 <= k < ids.len() ==> !live(0, #[trigger] ids[k])
    &&& forall|x: H|
        #[trigger] live(i, x) <==> live(0, x) || exists|k: int|
            from <= k < ids.len() && #[trigger] ids[k] == x
}

pub proof fn lemma_batch_state<H>(
    want: usize,
    steps: Seq<BulkStep<H>>,
    live: spec_fn(int, H) -> bool,
    i: int,
)
    requires
        0 <= i < steps.len(),
        start_step(want, steps[0]),
        forall|i: int| 0 <= i < steps.len() - 1 ==> #[trigger] batch_turn(steps, live, i),
        forall|i: int| 0 <= i < steps.len() - 1 ==> !(#[trigger] steps[i] is Done),
    ensures
        match steps[i] {
            BulkStep::Allocate(batch) => adds(live, i, batch.got@, 0) && batch.got@.len()
                < batch.want && batch.want == want,
            BulkStep::Free(id, undo) => {
                &&& adds(live, i, undo.ids@, undo.next - 1)
                &&& 0 < undo.next <= undo.ids@.len()
                &&& undo.ids@[undo.next - 1] == id
            },
            BulkStep::Done(Ok(ids)) => adds(live, i, ids@, 0) && ids@.len() == want,
            BulkStep::Done(Err(_)) => forall|x: H| #[trigger] live(i, x) <==> live(0, x),
        },
    decreases i,
{
    if i > 0 {
        let j = i - 1;
        lemma_batch_state(want, steps, live, j);
        assert(batch_turn(steps, live, j));
        assert(!(steps[j] is Done));
        assert(j + 1 == i);
        match steps[j] {
            BulkStep::Allocate(batch) => {
                let got = batch.got@;
                let result = choose|result: Result<H, MappedPageError>|
                    {
                        &&& #[trigger] alloc_step(got, batch.want, result, steps[j + 1])
                        &&& match result {
                            Ok(id) => !live(j, id) && forall|x: H|
                                #[trigger] live(j + 1, x) <==> live(j, x) || x == id,
                            Err(_) => forall|x: H| #[trigger] live(j + 1, x) <==> live(j, x),
                        }
                    };
                match result {
                    Ok(id) => {
                        let more = got.push(id);
                        assert(adds(live, i, more, 0)) by {
                            assert forall|x: H| #[trigger] live(i, x) <==> live(0, x)
                                || exists|k: int| 0 <= k < more.len() && #[trigger] more[k] == x by {
                                assert(live(j + 1, x) <==> live(j, x) || x == id);
                                if exists|k: int| 0 <= k < got.len() && #[trigger] got[k] == x {
                                    let k = choose|k: int|
                                        0 <= k < got.len() && #[trigger] got[k] == x;
                                    assert(more[k] == x);
                                }
                                if exists|k: int| 0 <= k < more.len() && #[trigger] more[k] == x {
                                    let k = choose|k: int|
                                        0 <= k < more.len() && #[trigger] more[k] == x;
                                    if k < got.len() {
                                        assert(got[k] == x);
                                    }
                                }
                                assert(more[got.len() as int] == id);
                            }
                            assert forall|k: int| 0 <= k < more.len() implies !live(
                                0,
                                #[trigger] more[k],
                            ) by {
                                if k < got.len() {
                                    assert(more[k] == got[k]);
                                }
                            }
                            assert forall|a: int, b: int|
                                0 <= a < more.len() && 0 <= b < more.len() && a != b implies more[a]
                                != more[b] by {
                                if a < got.len() && b < got.len() {
                                    assert(got[a] != got[b]);
                                } else if a < got.len() {
                                    assert(got[a] == more[a]);
                                    assert(live(j, got[a]));
                                } else {
                                    assert(got[b] == more[b]);
                                    assert(live(j, got[b]));
                                }
                            }
                        }
                    },
                    Err(e) => {
                        assert(adds(live, i, got, 0)) by {
                            assert forall|x: H| #[trigger] live(i, x) <==> live(0, x)
                                || exists|k: int| 0 <= k < got.len() && #[trigger] got[k] == x by {
                                assert(live(j + 1, x) <==> live(j, x));
                            }
                        }
                        if got.len() == 0 {
                            assert forall|x: H| #[trigger] live(i, x) <==> live(0, x) by {}
                        }
                    },
                }
            },
            BulkStep::Free(id, undo) => {
                let ids = undo.ids@;
                let from = undo.next as int;
                assert(adds(live, i, ids, from)) by {
                    assert forall|x: H| #[trigger] live(i, x) <==> live(0, x) || exists|k: int|
                        from <= k < ids.len() && #[trigger] ids[k] == x by {
                        assert(live(j + 1, x) <==> live(j, x) && x != id);
                        if exists|k: int| from - 1 <= k < ids.len() && #[trigger] ids[k] == x {
                            let k = choose|k: int|
                                from - 1 <= k < ids.len() && #[trigger] ids[k] == x;
                            if k >= from {
                                assert(ids[k] == x);
                                assert(ids[k] != ids[from - 1]);
                            }
                        }
                        if live(0, x) {
                            assert(!live(0, ids[from - 1]));
                        }
                        if exists|k: int| from <= k < ids.len() && #[trigger] ids[k] == x {
                            let k = choose|k: int|
                                from <= k < ids.len() && #[trigger] ids[k] == x;
                            assert(ids[k] != ids[from - 1]);
                        }
                    }
                }
                if from == ids.len() {
                    assert forall|x: H| #[trigger] live(i, x) <==> live(0, x) by {}
                }
            },
            BulkStep::Done(_) => {},
        }
    }
}

/// Step `i` of a batch of releases asks for one, which succeeds, and the next step
/// is what then is to be done.
pub open spec fn frees_at<H>(steps: Seq<BulkFreeStep<H>>, i: int) -> bool {
    steps[i] matches BulkFreeStep::Free(_, batch) ==> freed_step(
        batch.ids@,
        batch.next as int,
        Ok(()),
        steps[i + 1],
    )
}

/// A batch of releases frees exactly its handles, each once and in order.
pub proof fn law_batch_frees_each<H>(ids: Seq<H>, steps: Seq<BulkFreeStep<H>>)
    requires
        steps.len() == ids.len() + 1,
        free_step(ids, 0, steps[0]),
        forall|i: int| 0 <= i < ids.len() ==> #[trigger] frees_at(steps, i),
    ensures
        forall|i: int|
            0 <= i < ids.len() ==> (#[trigger] steps[i] matches BulkFreeStep::Free(id, _) && id
                == ids[i]),
        steps[ids.len() as int] == BulkFreeStep::<H>::Done(Ok(())),
{
    assert forall|i: int| 0 <= i < ids.len() implies (#[trigger] steps[i] matches
        BulkFreeStep::Free(id, _) && id == ids[i]) by {
        lemma_free_at(ids, steps, i);
    }
    lemma_free_at(ids, steps, ids.len() as int);
}

/// A release that fails ends its batch with that error, wherever in the batch it stands;
/// no further handle is freed.
pub proof fn law_failed_release_ends_batch<H>(
    batch: BulkFree<H>,
    error: MappedPageError,
    step: BulkFreeStep<H>,
)
    requires
        freed_step(batch.ids@, batch.next as int, Err(error), step),
    ensures
        step == BulkFreeStep::<H>::Done(Err(error)),
{
}

proof fn lemma_free_at<H>(ids: Seq<H>, steps: Seq<BulkFreeStep<H>>, i: int)
    requires
        steps.len() == ids.len() + 1,
        free_step(ids, 0, steps[0]),
        forall|i: int| 0 <= i < ids.len() ==> #[trigger] frees_at(steps, i),
        0 <= i <= ids.len(),
    ensures
        free_step(ids, i, steps[i]),
    decreases i,
{
    if i > 0 {
        lemma_free_at(ids, steps, i - 1);
        assert(frees_at(steps, i - 1));
    }
}

} // verus!
