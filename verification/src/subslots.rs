//! What the operations on sub-pages are for: which sub-slots they take and give back, when
//! big pages come and go, and what each failure means.

use vstd::arithmetic::power2::{lemma2_to64, lemma_pow2_pos, lemma_pow2_unfold, pow2};
use vstd::prelude::*;

use crate::bulk::BulkFreeStep;
use crate::bytes::page_of;
use crate::error::MappedPageError;
use crate::image::{log2_of, valid_page_size};
use crate::live::{law_sub_free_bulk_ends_the_named, lemma_cleared, lemma_least_bad};
use crate::meta::FIRST_DATA_PAGE;
use crate::page::PageId;
use crate::pager::{AllocTask, FreeTask};
use crate::sub_allocator::{
    BigPageSlot, SubAllocTask, SubPageAllocator, SubPageId, SubView, emptied, first_untaken, keys,
    lemma_first_untaken, lemma_taken_below, lemma_with_taken, lemma_without_taken,
    lemma_zero_mask, spec_full_mask, taken, valid_sub_size, with_sub_page, without_taken,
};
use crate::task::{IoEvent, Turn};

verus! {

// ── Sizes ─────────────────────────────────────────────────────────────────────

proof fn lemma_log2_of_power(k: nat)
    ensures
        log2_of(pow2(k)) == k,
    decreases k,
{
    lemma2_to64();
    lemma_pow2_pos(k);
    if k > 0 {
        lemma_pow2_unfold(k);
        lemma_pow2_pos((k - 1) as nat);
        lemma_log2_of_power((k - 1) as nat);
    }
}

/// The exponent that is computed is that of the largest power of two that is at most `n`.
pub proof fn law_exponents(n: nat)
    requires
        0 < n,
    ensures
        pow2(log2_of(n)) <= n < pow2(log2_of(n) + 1),
    decreases n,
{
    lemma2_to64();
    if n > 1 {
        law_exponents(n / 2);
        lemma_pow2_unfold(log2_of(n));
        lemma_pow2_unfold(log2_of(n) + 1);
    }
}

/// A page size is any power of two from 1024 on of which four fit in the address space.
pub proof fn law_page_sizes(page_size: usize)
    ensures
        valid_page_size(page_size) <==> {
            &&& 1024 <= page_size
            &&& 4 * page_size <= usize::MAX
            &&& exists|k: nat| #[trigger] pow2(k) == page_size
        },
{
    if exists|k: nat| #[trigger] pow2(k) == page_size {
        lemma_log2_of_power(choose|k: nat| #[trigger] pow2(k) == page_size);
    }
}

/// A sub-page size is any power of two below the page size of which at most 64 make up a
/// page.
pub proof fn law_sub_page_sizes(parent_size: usize, sub_size: usize)
    ensures
        valid_sub_size(parent_size, sub_size) <==> {
            &&& 0 < sub_size < parent_size
            &&& exists|k: nat| #[trigger] pow2(k) == sub_size
            &&& exists|n: int| 1 < n <= 64 && parent_size == #[trigger] (n * sub_size)
        },
{
    if exists|k: nat| #[trigger] pow2(k) == sub_size {
        lemma_log2_of_power(choose|k: nat| #[trigger] pow2(k) == sub_size);
    }
    let (p, s) = (parent_size as int, sub_size as int);
    if valid_sub_size(parent_size, sub_size) {
        vstd::arithmetic::div_mod::lemma_fundamental_div_mod(p, s);
        let n = p / s;
        assert(p == n * s && 1 < n) by (nonlinear_arith)
            requires
                p == s * n + 0,
                0 < s < p,
        ;
    }
    if 0 < s && exists|n: int| 1 < n <= 64 && p == #[trigger] (n * sub_size) {
        let n = choose|n: int| 1 < n <= 64 && p == #[trigger] (n * sub_size);
        vstd::arithmetic::div_mod::lemma_fundamental_div_mod_converse(p, s, n, 0);
    }
}

// ── Sub-slots ─────────────────────────────────────────────────────────────────

/// Sub-slot `b` of slot `i` is one of the `n` of a big page that is checked out, and is in
/// use: its bit of the slot's mask is set, counted from the lowest.
pub open spec fn in_use_at<const PARENT_SIZE: usize>(
    v: SubView<PARENT_SIZE>,
    n: int,
    i: int,
    b: int,
) -> bool {
    &&& 0 <= i < v.slots.len()
    &&& 0 <= b < n
    &&& v.slots[i] matches Some(slot)
    &&& (slot.used >> (b as u64)) & 1u64 == 1u64
}

/// Sub-slot `b` of slot `i` is one of the `n` of a big page that is checked out, and is
/// free.
pub open spec fn free_at<const PARENT_SIZE: usize>(
    v: SubView<PARENT_SIZE>,
    n: int,
    i: int,
    b: int,
) -> bool {
    &&& 0 <= i < v.slots.len()
    &&& 0 <= b < n
    &&& v.slots[i] matches Some(slot)
    &&& (slot.used >> (b as u64)) & 1u64 != 1u64
}

/// The mask of a big page whose `n` sub-slots are all in use has their bits, and no other.
pub proof fn law_full_mask(n: usize, b: u64)
    requires
        b < 64,
    ensures
        (spec_full_mask(n) >> b) & 1u64 == 1u64 <==> b < n,
{
    let full = spec_full_mask(n);
    if n >= 64 {
        assert(b < 64 ==> (0xffff_ffff_ffff_ffffu64 >> b) & 1u64 == 1u64) by (bit_vector);
    } else {
        let m = n as u64;
        assert(b < 64 && m < 64 && full == ((1u64 << m) - 1) as u64 ==> ((full >> b) & 1u64 == 1u64
            <==> b < m)) by (bit_vector);
    }
}

/// A page is checked out exactly where some slot has it as its big page.
pub proof fn law_checked_out_pages<const PARENT_SIZE: usize>(v: SubView<PARENT_SIZE>, id: u64)
    ensures
        v.has_out(id) <==> exists|i: int|
            0 <= i < v.slots.len() && (#[trigger] v.slots[i] matches Some(slot) && slot.id.0 == id),
{
}

/// A handle can be freed exactly where its sub-slot is in use.  A sub-slot that no big page
/// has, or that lies behind the last slot, is out of bounds; any other is free already.
pub proof fn law_sub_handle_can_be_freed<const PARENT_SIZE: usize, const SUB_SIZE: usize>(
    v: SubView<PARENT_SIZE>,
    id: SubPageId<PARENT_SIZE, SUB_SIZE>,
)
    requires
        valid_sub_size(PARENT_SIZE, SUB_SIZE),
    ensures
        ({
            let n = PARENT_SIZE as int / SUB_SIZE as int;
            let (i, b) = (id.slot_index as int, id.sub_index as int);
            SubPageAllocator::<PARENT_SIZE, SUB_SIZE>::refusal(v, id) == if in_use_at(v, n, i, b) {
                None
            } else if b >= n || i >= v.slots.len() {
                Some(MappedPageError::OutOfBounds)
            } else {
                Some(MappedPageError::DoubleFree)
            }
        }),
{
    SubPageAllocator::<PARENT_SIZE, SUB_SIZE>::lemma_sizes();
}

/// A handle can be borrowed exactly where its slot has a big page, its sub-slot is one of
/// that page's, and the pager gives the page.
pub proof fn law_sub_handle_can_be_borrowed<const PARENT_SIZE: usize, const SUB_SIZE: usize>(
    v: SubView<PARENT_SIZE>,
    id: SubPageId<PARENT_SIZE, SUB_SIZE>,
)
    ensures
        ({
            let n = PARENT_SIZE as int / SUB_SIZE as int;
            let (i, b) = (id.slot_index as int, id.sub_index as int);
            let big = v.slots[i]->0.id.0;
            id.get_refusal(v) == if b >= n || i >= v.slots.len() || v.slots[i] is None {
                Some(MappedPageError::OutOfBounds)
            } else if !v.pager.available {
                Some(MappedPageError::Unavailable)
            } else if big < FIRST_DATA_PAGE {
                Some(MappedPageError::ReservedPage)
            } else if big >= v.pager.state.meta.total_pages {
                Some(MappedPageError::OutOfBounds)
            } else {
                None
            }
        }),
{
}

/// What is read and written through a handle are the `SUB_SIZE` bytes of the file from the
/// sub-slot's place in its big page on, and no other.
pub proof fn law_sub_page_is_its_bytes<const PARENT_SIZE: usize, const SUB_SIZE: usize>(
    v: SubView<PARENT_SIZE>,
    id: SubPageId<PARENT_SIZE, SUB_SIZE>,
    map: Seq<u8>,
    new: Seq<u8>,
    k: int,
)
    requires
        valid_sub_size(PARENT_SIZE, SUB_SIZE),
        id.sub_index < PARENT_SIZE as int / SUB_SIZE as int,
        (id.big(v) + 1) * PARENT_SIZE <= map.len(),
        new.len() == SUB_SIZE,
    ensures
        ({
            let at = v.slots[id.slot_index as int]->0.id.0 * PARENT_SIZE + id.sub_index * SUB_SIZE;
            &&& id.seen(v, map).len() == SUB_SIZE
            &&& 0 <= k < SUB_SIZE ==> id.seen(v, map)[k] == map[at + k]
            &&& id.written(v, map, new).len() == map.len()
            &&& 0 <= k < map.len() ==> id.written(v, map, new)[k] == if at <= k < at + SUB_SIZE {
                new[k - at]
            } else {
                map[k]
            }
        }),
{
    SubPageAllocator::<PARENT_SIZE, SUB_SIZE>::lemma_sizes();
    let n = SubPageAllocator::<PARENT_SIZE, SUB_SIZE>::per_page();
    let b = id.sub_index as int;
    let big = id.big(v) as int;
    let p = PARENT_SIZE as int;
    let s = SUB_SIZE as int;
    assert((big + 1) * p == big * p + p && 0 <= big * p) by (nonlinear_arith)
        requires
            0 <= big,
            0 <= p,
    ;
    assert(0 <= b * s && b * s + s <= n * s) by (nonlinear_arith)
        requires
            0 <= b < n,
            0 < s,
    ;
    let page = page_of(map, big, p);
    let sub = with_sub_page(page, b, s, new);
    assert(page.len() == p);
    assert(sub.len() == p);
    if 0 <= k < map.len() && big * p <= k < big * p + p {
        assert(id.written(v, map, new)[k] == sub[k - big * p]);
        assert(page[k - big * p] == map[k]);
    }
}

// ── Allocating a sub-page ─────────────────────────────────────────────────────

/// The sub-slot that is found is the first free one, by slot and then by sub-slot.
pub proof fn lemma_open_is_first<const PARENT_SIZE: usize>(
    v: SubView<PARENT_SIZE>,
    from: int,
    n: int,
)
    requires
        0 <= from,
        n <= 64,
    ensures
        match v.open_from(from, n) {
            Some((i, b)) => {
                &&& from <= i
                &&& free_at(v, n, i, b)
                &&& forall|j: int, c: int|
                    from <= j <= i && (j < i || c < b) ==> !#[trigger] free_at(v, n, j, c)
            },
            None => forall|j: int, c: int| from <= j ==> !#[trigger] free_at(v, n, j, c),
        },
    decreases v.slots.len() - from,
{
    if from < v.slots.len() {
        if let Some(slot) = v.slots[from] {
            lemma_first_untaken(slot.used, 0, n);
            assert forall|c: int| 0 <= c < n implies (#[trigger] free_at(v, n, from, c)
                <==> !taken(slot.used, c)) by {}
            if first_untaken(slot.used, 0, n) is None {
                assert forall|c: int| !#[trigger] free_at(v, n, from, c) by {
                    if 0 <= c < n {
                        assert(taken(slot.used, c));
                    }
                }
                lemma_open_is_first(v, from + 1, n);
            } else {
                let b = first_untaken(slot.used, 0, n)->0;
                assert forall|j: int, c: int| from <= j <= from && (j < from || c < b)
                    implies !#[trigger] free_at(v, n, j, c) by {
                    if 0 <= c < n {
                        assert(taken(slot.used, c));
                    }
                }
            }
        } else {
            lemma_open_is_first(v, from + 1, n);
        }
    }
}

/// Where a big page that is checked out has a free sub-slot, an allocation takes the first
/// one, by slot and then by sub-slot, at once: it is in use afterwards, no other sub-slot
/// and no page changes.  Where none has, and only there, a big page is allocated for it.
pub proof fn law_sub_alloc_takes_the_first<const PARENT_SIZE: usize, const SUB_SIZE: usize>(
    v: SubView<PARENT_SIZE>,
    w: SubView<PARENT_SIZE>,
    turn: Turn<SubPageId<PARENT_SIZE, SUB_SIZE>, SubAllocTask<PARENT_SIZE>>,
)
    requires
        valid_sub_size(PARENT_SIZE, SUB_SIZE),
        v.slots.len() <= u32::MAX,
        SubPageAllocator::<PARENT_SIZE, SUB_SIZE>::allocated(v, w, turn),
    ensures
        ({
            let n = PARENT_SIZE as int / SUB_SIZE as int;
            let open = exists|i: int, b: int| #[trigger] free_at(v, n, i, b);
            &&& open <==> (turn matches Turn::Done(Ok(_)))
            &&& turn matches Turn::Done(Ok(id)) ==> {
                let (i, b) = (id.slot_index as int, id.sub_index as int);
                &&& free_at(v, n, i, b)
                &&& forall|j: int, c: int|
                    j < i || j == i && c < b ==> !#[trigger] free_at(v, n, j, c)
                &&& w.pager == v.pager
                &&& w.slots.len() == v.slots.len()
                &&& forall|j: int| 0 <= j < v.slots.len() && j != i ==> w.slots[j] == v.slots[j]
                &&& w.slots[i] is Some
                &&& w.slots[i]->0.id == v.slots[i]->0.id
                &&& forall|c: int|
                    #[trigger] in_use_at(w, n, i, c) <==> in_use_at(v, n, i, c) || c == b
            }
            &&& !open ==> w.slots == v.slots
            &&& turn matches Turn::Ask(request, task) ==> v.pager.alloc_begun(
                w.pager,
                Turn::Ask(request, task.0),
            )
            &&& turn matches Turn::Done(Err(e)) ==> v.pager.alloc_begun::<PARENT_SIZE>(
                w.pager,
                Turn::Done(Err(e)),
            )
        }),
{
    SubPageAllocator::<PARENT_SIZE, SUB_SIZE>::lemma_sizes();
    let n = PARENT_SIZE as int / SUB_SIZE as int;
    lemma_open_is_first(v, 0, n);
    match v.open_from(0, n) {
        Some((i, b)) => {
            assert(free_at(v, n, i, b));
            assert forall|j: int, c: int| j < i || j == i && c < b implies !#[trigger] free_at(
                v,
                n,
                j,
                c,
            ) by {}
            assert forall|c: int| #[trigger] in_use_at(w, n, i, c) <==> in_use_at(v, n, i, c) || c
                == b by {
                lemma_with_taken(v.slots[i]->0.used, b, c);
                assert(taken(v.slots[i]->0.used, c) || !taken(v.slots[i]->0.used, c));
            }
        },
        None => {},
    }
}

proof fn lemma_vacant_is_first<const PARENT_SIZE: usize>(v: SubView<PARENT_SIZE>, from: int)
    requires
        0 <= from <= v.slots.len(),
    ensures
        ({
            let i = v.vacant_from(from);
            &&& from <= i <= v.slots.len()
            &&& i < v.slots.len() ==> v.slots[i] is None
            &&& forall|j: int| from <= j < i ==> (#[trigger] v.slots[j]) is Some
        }),
    decreases v.slots.len() - from,
{
    if from < v.slots.len() && v.slots[from] is Some {
        lemma_vacant_is_first(v, from + 1);
    }
}

/// A big page whose commit is carried out goes into the lowest slot that has none, or into
/// a new one behind the last; its first sub-slot is handed out, and the others are free.
/// No other slot changes.  If the commit fails, that is reported, and no slot changes.
pub proof fn law_sub_alloc_places_big_page<const PARENT_SIZE: usize, const SUB_SIZE: usize>(
    v: SubView<PARENT_SIZE>,
    page: PageId<PARENT_SIZE>,
    event: IoEvent,
    w: SubView<PARENT_SIZE>,
    turn: Turn<SubPageId<PARENT_SIZE, SUB_SIZE>, SubAllocTask<PARENT_SIZE>>,
)
    requires
        v.slots.len() < u32::MAX,
        SubPageAllocator::<PARENT_SIZE, SUB_SIZE>::alloc_resumed(
            v,
            SubAllocTask(AllocTask::Commit(page)),
            event,
            w,
            turn,
        ),
    ensures
        match event {
            IoEvent::Done => {
                &&& turn matches Turn::Done(Ok(id))
                &&& id.sub_index == 0
                &&& id.slot_index <= v.slots.len()
                &&& forall|j: int| 0 <= j < id.slot_index ==> (#[trigger] v.slots[j]) is Some
                &&& id.slot_index < v.slots.len() ==> v.slots[id.slot_index as int] is None
                &&& w.slots.len() == if id.slot_index < v.slots.len() {
                    v.slots.len()
                } else {
                    v.slots.len() + 1
                }
                &&& w.slots[id.slot_index as int] == Some(BigPageSlot { id: page, used: 1u64 })
                &&& forall|j: int|
                    0 <= j < v.slots.len() && j != id.slot_index ==> w.slots[j] == v.slots[j]
                &&& w.pager.state.meta == v.pager.state.meta
                &&& w.pager.state.active == v.pager.state.active.other()
                &&& w.pager.state.blocks == v.pager.state.blocks
                &&& w.pager.state.dirs == v.pager.state.dirs
                &&& w.pager.available == v.pager.available
            },
            IoEvent::Failed { error, .. } => {
                &&& w == v
                &&& turn == Turn::<
                    SubPageId<PARENT_SIZE, SUB_SIZE>,
                    SubAllocTask<PARENT_SIZE>,
                >::Done(Err(MappedPageError::Io(error)))
            },
        },
{
    lemma_vacant_is_first(v.with_pager(v.pager.committed()), 0);
}

/// While an allocation waits for the file to grow, it does to the pager what an allocation
/// of a page does, and no slot changes.
pub proof fn law_sub_alloc_waits_like_the_pager<const PARENT_SIZE: usize, const SUB_SIZE: usize>(
    v: SubView<PARENT_SIZE>,
    task: SubAllocTask<PARENT_SIZE>,
    event: IoEvent,
    w: SubView<PARENT_SIZE>,
    turn: Turn<SubPageId<PARENT_SIZE, SUB_SIZE>, SubAllocTask<PARENT_SIZE>>,
)
    requires
        task.0 is Grow,
        SubPageAllocator::<PARENT_SIZE, SUB_SIZE>::alloc_resumed(v, task, event, w, turn),
    ensures
        w.slots == v.slots,
        match turn {
            Turn::Ask(request, next) => v.pager.alloc_resumed(
                task.0,
                event,
                w.pager,
                Turn::Ask(request, next.0),
            ),
            Turn::Done(Err(e)) => v.pager.alloc_resumed(task.0, event, w.pager, Turn::Done(Err(e))),
            Turn::Done(Ok(_)) => false,
        },
{
}

// ── Freeing a sub-page ────────────────────────────────────────────────────────

/// Freeing a sub-slot that is in use frees it and no other.  If it was the last one of its
/// big page, that page is no longer checked out and is given back to the pager, as any page
/// is freed there; otherwise it is done at once.  A refusal changes nothing.
pub proof fn law_sub_free_frees_one<const PARENT_SIZE: usize, const SUB_SIZE: usize>(
    v: SubView<PARENT_SIZE>,
    id: SubPageId<PARENT_SIZE, SUB_SIZE>,
    w: SubView<PARENT_SIZE>,
    turn: Turn<(), FreeTask>,
)
    requires
        valid_sub_size(PARENT_SIZE, SUB_SIZE),
        SubPageAllocator::<PARENT_SIZE, SUB_SIZE>::masks_fit(v),
        SubPageAllocator::<PARENT_SIZE, SUB_SIZE>::freed(v, id, w, turn),
    ensures
        ({
            let n = PARENT_SIZE as int / SUB_SIZE as int;
            let (i, b) = (id.slot_index as int, id.sub_index as int);
            let last = forall|c: int| #[trigger] in_use_at(v, n, i, c) ==> c == b;
            &&& !in_use_at(v, n, i, b) ==> w == v && turn == Turn::<(), FreeTask>::Done(
                Err(
                    if b >= n || i >= v.slots.len() {
                        MappedPageError::OutOfBounds
                    } else {
                        MappedPageError::DoubleFree
                    },
                ),
            )
            &&& in_use_at(v, n, i, b) ==> {
                &&& w.slots.len() == v.slots.len()
                &&& forall|j: int| 0 <= j < v.slots.len() && j != i ==> w.slots[j] == v.slots[j]
                &&& forall|c: int|
                    #[trigger] in_use_at(w, n, i, c) <==> in_use_at(v, n, i, c) && c != b
                &&& w.slots[i] is None <==> last
                &&& !last ==> {
                    &&& w.slots[i]->0.id == v.slots[i]->0.id
                    &&& w.pager == v.pager
                    &&& turn == Turn::<(), FreeTask>::Done(Ok(()))
                }
                &&& last ==> v.pager.free_next(v.slots[i]->0.id.0, PARENT_SIZE, w.pager, turn)
            }
        }),
{
    SubPageAllocator::<PARENT_SIZE, SUB_SIZE>::lemma_sizes();
    let n = PARENT_SIZE as int / SUB_SIZE as int;
    let (i, b) = (id.slot_index as int, id.sub_index as int);
    law_sub_handle_can_be_freed(v, id);
    if in_use_at(v, n, i, b) {
        let used = v.slots[i]->0.used;
        let left = without_taken(used, b);
        lemma_zero_mask(left);
        assert forall|c: int| #[trigger] taken(left, c) <==> c != b && taken(used, c) by {
            lemma_without_taken(used, b, c);
        }
        assert forall|c: int| #[trigger] in_use_at(w, n, i, c) <==> in_use_at(v, n, i, c) && c
            != b by {
            assert(taken(left, c) <==> c != b && taken(used, c));
        }
        if left == 0 {
            assert forall|c: int| #[trigger] in_use_at(v, n, i, c) implies c == b by {
                assert(!taken(left, c));
                assert(taken(used, c));
            }
        } else {
            let c = choose|c: int| #[trigger] taken(left, c);
            assert(c != b && taken(used, c));
            lemma_taken_below(used, n as usize, c);
            assert(in_use_at(v, n, i, c));
        }
    }
}

/// A release may always be asked for, but where it gives a big page back, and the pager's
/// counters are at their end.
pub proof fn law_sub_free_may_begin<const PARENT_SIZE: usize, const SUB_SIZE: usize>(
    v: SubView<PARENT_SIZE>,
    id: SubPageId<PARENT_SIZE, SUB_SIZE>,
)
    requires
        v.pager.state.meta.free_count < u64::MAX,
        v.pager.state.meta.generation < u64::MAX,
    ensures
        SubPageAllocator::<PARENT_SIZE, SUB_SIZE>::free_fits(v, id),
{
}

// ── Freeing several sub-pages ─────────────────────────────────────────────────

/// A batch of handles is freed exactly where they are pairwise different and the sub-slot
/// of every one of them, at every position, is in use; otherwise the whole call is refused
/// and nothing changes.
pub proof fn law_sub_bulk_free_is_all_or_nothing<
    const PARENT_SIZE: usize,
    const SUB_SIZE: usize,
>(
    v: SubView<PARENT_SIZE>,
    ids: Seq<SubPageId<PARENT_SIZE, SUB_SIZE>>,
    w: SubView<PARENT_SIZE>,
    step: BulkFreeStep<PageId<PARENT_SIZE>>,
)
    requires
        valid_sub_size(PARENT_SIZE, SUB_SIZE),
        SubPageAllocator::<PARENT_SIZE, SUB_SIZE>::freed_bulk(v, ids, w, step),
    ensures
        ({
            let n = PARENT_SIZE as int / SUB_SIZE as int;
            let all = forall|k: int|
                0 <= k < ids.len() ==> in_use_at(
                    v,
                    n,
                    (#[trigger] ids[k]).slot_index as int,
                    ids[k].sub_index as int,
                );
            let accepted = ids.no_duplicates() && all;
            &&& accepted <==> !(step matches BulkFreeStep::Done(Err(_)))
            &&& accepted <==> SubPageAllocator::<PARENT_SIZE, SUB_SIZE>::bulk_refusal(
                v,
                ids,
            ) is None
            &&& !accepted ==> w == v
            &&& !ids.no_duplicates() ==> step == BulkFreeStep::<PageId<PARENT_SIZE>>::Done(
                Err(MappedPageError::DoubleFree),
            )
        }),
{
    let n = PARENT_SIZE as int / SUB_SIZE as int;
    lemma_keys(ids);
    lemma_least_bad(v, ids);
    match SubPageAllocator::<PARENT_SIZE, SUB_SIZE>::least_bad(v, ids) {
        Some(bad) => {
            let k = choose|k: int| 0 <= k < ids.len() && ids[k] == bad;
            law_sub_handle_can_be_freed(v, bad);
            assert(!in_use_at(v, n, ids[k].slot_index as int, ids[k].sub_index as int));
        },
        None => {
            assert forall|k: int| 0 <= k < ids.len() implies in_use_at(
                v,
                n,
                (#[trigger] ids[k]).slot_index as int,
                ids[k].sub_index as int,
            ) by {
                assert(SubPageAllocator::<PARENT_SIZE, SUB_SIZE>::live(v, ids[k]));
                law_sub_handle_can_be_freed(v, ids[k]);
            }
        },
    }
}

/// A batch of different handles that is refused is refused for the first of those, by slot
/// and then by sub-slot, that could not be freed alone.
pub proof fn law_sub_bulk_free_error<const PARENT_SIZE: usize, const SUB_SIZE: usize>(
    v: SubView<PARENT_SIZE>,
    ids: Seq<SubPageId<PARENT_SIZE, SUB_SIZE>>,
    w: SubView<PARENT_SIZE>,
    step: BulkFreeStep<PageId<PARENT_SIZE>>,
    e: MappedPageError,
)
    requires
        valid_sub_size(PARENT_SIZE, SUB_SIZE),
        ids.no_duplicates(),
        SubPageAllocator::<PARENT_SIZE, SUB_SIZE>::freed_bulk(v, ids, w, step),
        step == BulkFreeStep::<PageId<PARENT_SIZE>>::Done(Err(e)),
    ensures
        exists|k: int|
            {
                let n = PARENT_SIZE as int / SUB_SIZE as int;
                let bad = #[trigger] ids[k];
                let (i, b) = (bad.slot_index as int, bad.sub_index as int);
                &&& 0 <= k < ids.len()
                &&& !in_use_at(v, n, i, b)
                &&& e == if b >= n || i >= v.slots.len() {
                    MappedPageError::OutOfBounds
                } else {
                    MappedPageError::DoubleFree
                }
                &&& forall|m: int|
                    0 <= m < ids.len() && ((#[trigger] ids[m]).slot_index < i
                        || ids[m].slot_index == i && ids[m].sub_index < b) ==> in_use_at(
                        v,
                        n,
                        ids[m].slot_index as int,
                        ids[m].sub_index as int,
                    )
            },
{
    let n = PARENT_SIZE as int / SUB_SIZE as int;
    lemma_keys(ids);
    lemma_least_bad(v, ids);
    let bad = SubPageAllocator::<PARENT_SIZE, SUB_SIZE>::least_bad(v, ids)->0;
    let k = choose|k: int| 0 <= k < ids.len() && ids[k] == bad;
    law_sub_handle_can_be_freed(v, bad);
    assert(ids[k] == bad);
    assert forall|m: int|
        0 <= m < ids.len() && ((#[trigger] ids[m]).slot_index < bad.slot_index
            || ids[m].slot_index == bad.slot_index && ids[m].sub_index
            < bad.sub_index) implies in_use_at(
        v,
        n,
        ids[m].slot_index as int,
        ids[m].sub_index as int,
    ) by {
        law_sub_handle_can_be_freed(v, ids[m]);
        if !SubPageAllocator::<PARENT_SIZE, SUB_SIZE>::live(v, ids[m]) {
            assert(bad.key() <= ids[m].key());
        }
    }
}

/// Slot `i` had a big page that a release takes from it.
pub open spec fn gives_back<const PARENT_SIZE: usize>(
    v: SubView<PARENT_SIZE>,
    w: SubView<PARENT_SIZE>,
    i: int,
) -> bool {
    0 <= i < v.slots.len() && v.slots[i] is Some && w.slots[i] is None
}

/// `at` are the slots whose big pages a release takes, in ascending order.
pub open spec fn given_back_at<const PARENT_SIZE: usize>(
    v: SubView<PARENT_SIZE>,
    w: SubView<PARENT_SIZE>,
    at: Seq<int>,
) -> bool {
    &&& forall|k: int| 0 <= k < at.len() ==> gives_back(v, w, #[trigger] at[k])
    &&& forall|j: int, k: int| 0 <= j < k < at.len() ==> at[j] < at[k]
    &&& forall|i: int| #[trigger] gives_back(v, w, i) ==> at.contains(i)
}

/// A batch that is accepted frees the sub-slots that it names and no other, and gives back
/// the big pages that have none left in use: each once, and in the order of their slots.
/// The slots of the others keep their pages.
pub proof fn law_sub_bulk_free_gives_back_in_order<
    const PARENT_SIZE: usize,
    const SUB_SIZE: usize,
>(
    v: SubView<PARENT_SIZE>,
    ids: Seq<SubPageId<PARENT_SIZE, SUB_SIZE>>,
    w: SubView<PARENT_SIZE>,
    step: BulkFreeStep<PageId<PARENT_SIZE>>,
)
    requires
        valid_sub_size(PARENT_SIZE, SUB_SIZE),
        v.slots.len() <= u32::MAX,
        SubPageAllocator::<PARENT_SIZE, SUB_SIZE>::masks_fit(v),
        SubPageAllocator::<PARENT_SIZE, SUB_SIZE>::freed_bulk(v, ids, w, step),
        !(step matches BulkFreeStep::Done(Err(_))),
    ensures
        ({
            let n = PARENT_SIZE as int / SUB_SIZE as int;
            &&& w.pager == v.pager
            &&& w.slots.len() == v.slots.len()
            &&& forall|i: int, b: int|
                0 <= i <= u32::MAX && 0 <= b <= u32::MAX ==> (#[trigger] in_use_at(w, n, i, b)
                    <==> in_use_at(v, n, i, b) && !ids.contains(
                    SubPageId { slot_index: i as u32, sub_index: b as u32 },
                ))
            &&& forall|i: int|
                0 <= i < v.slots.len() ==> match #[trigger] w.slots[i] {
                    Some(slot) => {
                        &&& v.slots[i] is Some
                        &&& slot.id == v.slots[i]->0.id
                        &&& exists|b: int| #[trigger] in_use_at(w, n, i, b)
                    },
                    None => forall|b: int| !#[trigger] in_use_at(w, n, i, b),
                }
            &&& exists|at: Seq<int>|
                {
                    &&& #[trigger] given_back_at(v, w, at)
                    &&& match step {
                        BulkFreeStep::Done(_) => at.len() == 0,
                        BulkFreeStep::Free(id, batch) => {
                            &&& id == v.slots[at[0]]->0.id
                            &&& batch.next == 1
                            &&& batch.ids@.len() == at.len()
                            &&& forall|k: int|
                                0 <= k < at.len() ==> batch.ids@[k]
                                    == v.slots[#[trigger] at[k]]->0.id
                        },
                    }
                }
        }),
{
    let n = PARENT_SIZE as int / SUB_SIZE as int;
    let c = SubPageAllocator::<PARENT_SIZE, SUB_SIZE>::cleared(v, ids);
    SubPageAllocator::<PARENT_SIZE, SUB_SIZE>::lemma_sizes();
    law_sub_bulk_free_is_all_or_nothing(v, ids, w, step);
    law_sub_free_bulk_ends_the_named(v, ids, w, step);
    lemma_least_bad(v, ids);
    assert forall|i: int, b: int| 0 <= i <= u32::MAX && 0 <= b <= u32::MAX implies (
    #[trigger] in_use_at(w, n, i, b) <==> in_use_at(v, n, i, b) && !ids.contains(
        SubPageId { slot_index: i as u32, sub_index: b as u32 },
    )) by {
        let x = SubPageId::<PARENT_SIZE, SUB_SIZE> { slot_index: i as u32, sub_index: b as u32 };
        law_sub_handle_can_be_freed(v, x);
        law_sub_handle_can_be_freed(w, x);
        assert(SubPageAllocator::<PARENT_SIZE, SUB_SIZE>::live(w, x) <==> SubPageAllocator::<
            PARENT_SIZE,
            SUB_SIZE,
        >::live(v, x) && !ids.contains(x));
    }
    assert forall|i: int| 0 <= i < v.slots.len() implies match #[trigger] w.slots[i] {
        Some(slot) => {
            &&& v.slots[i] is Some
            &&& slot.id == v.slots[i]->0.id
            &&& exists|b: int| #[trigger] in_use_at(w, n, i, b)
        },
        None => forall|b: int| !#[trigger] in_use_at(w, n, i, b),
    } by {
        lemma_cleared(v, ids, i, 0);
        if let Some(slot) = w.slots[i] {
            lemma_zero_mask(slot.used);
            let b = choose|b: int| #[trigger] taken(slot.used, b);
            lemma_cleared(v, ids, i, b);
            lemma_taken_below(v.slots[i]->0.used, n as usize, b);
            assert(in_use_at(w, n, i, b));
        }
    }
    let at = emptied_at(c.slots, c.slots.len() as int);
    lemma_emptied_at(c.slots, c.slots.len() as int);
    assert forall|i: int| 0 <= i < v.slots.len() implies (#[trigger] gives_back(v, w, i)
        <==> at.contains(i)) by {
        lemma_cleared(v, ids, i, 0);
    }
    assert forall|k: int| 0 <= k < at.len() implies gives_back(v, w, #[trigger] at[k])
        && emptied(c.slots, c.slots.len() as int)[k] == v.slots[at[k]]->0.id by {
        assert(at.contains(at[k]));
        lemma_cleared(v, ids, at[k], 0);
    }
    assert(given_back_at(v, w, at));
}

/// The slots below `upto` that have a big page and no sub-slot in use.
spec fn emptied_at<const PARENT_SIZE: usize>(
    slots: Seq<Option<BigPageSlot<PARENT_SIZE>>>,
    upto: int,
) -> Seq<int>
    decreases upto,
{
    if upto <= 0 {
        Seq::empty()
    } else {
        let before = emptied_at(slots, upto - 1);
        match slots[upto - 1] {
            Some(slot) if slot.used == 0 => before.push(upto - 1),
            _ => before,
        }
    }
}

proof fn lemma_emptied_at<const PARENT_SIZE: usize>(
    slots: Seq<Option<BigPageSlot<PARENT_SIZE>>>,
    upto: int,
)
    requires
        0 <= upto <= slots.len(),
    ensures
        ({
            let at = emptied_at(slots, upto);
            let pages = emptied(slots, upto);
            &&& pages.len() == at.len()
            &&& forall|k: int|
                0 <= k < at.len() ==> {
                    &&& 0 <= #[trigger] at[k] < upto
                    &&& slots[at[k]] is Some
                    &&& pages[k] == slots[at[k]]->0.id
                }
            &&& forall|j: int, k: int| 0 <= j < k < at.len() ==> at[j] < at[k]
            &&& forall|i: int|
                0 <= i < upto ==> (#[trigger] at.contains(i) <==> (slots[i] matches Some(slot)
                    && slot.used == 0))
        }),
    decreases upto,
{
    if upto > 0 {
        lemma_emptied_at(slots, upto - 1);
        let before = emptied_at(slots, upto - 1);
        let at = emptied_at(slots, upto);
        assert forall|i: int| 0 <= i < upto implies (#[trigger] at.contains(i) <==> (slots[
            i
        ] matches Some(slot) && slot.used == 0)) by {
            if i < upto - 1 {
                assert(before.contains(i) <==> (slots[i] matches Some(slot) && slot.used == 0));
                if before.contains(i) {
                    let k = choose|k: int| 0 <= k < before.len() && before[k] == i;
                    assert(at[k] == i);
                }
                if at.contains(i) {
                    let k = choose|k: int| 0 <= k < at.len() && at[k] == i;
                    assert(before[k] == i);
                }
            } else {
                if at.len() > before.len() {
                    assert(at[before.len() as int] == i);
                }
            }
        }
    }
}

/// Different handles have different keys.
proof fn lemma_keys<const PARENT_SIZE: usize, const SUB_SIZE: usize>(
    ids: Seq<SubPageId<PARENT_SIZE, SUB_SIZE>>,
)
    ensures
        keys(ids).no_duplicates() <==> ids.no_duplicates(),
{
    let ks = keys(ids);
    assert forall|i: int, j: int| 0 <= i < ids.len() && 0 <= j < ids.len() implies (
    #[trigger] ks[i] == #[trigger] ks[j] <==> ids[i] == ids[j]) by {
        let (x, y) = (ids[i], ids[j]);
        assert(x.key() == x.slot_index * 0x1_0000_0000 + x.sub_index);
        assert(y.key() == y.slot_index * 0x1_0000_0000 + y.sub_index);
    }
    if ks.no_duplicates() {
        assert forall|i: int, j: int|
            0 <= i < ids.len() && 0 <= j < ids.len() && i != j implies ids[i] != ids[j] by {
            assert(ks[i] != ks[j]);
        }
    }
    if ids.no_duplicates() {
        assert forall|i: int, j: int|
            0 <= i < ks.len() && 0 <= j < ks.len() && i != j implies ks[i] != ks[j] by {
            assert(ids[i] != ids[j]);
        }
    }
}

} // verus!
