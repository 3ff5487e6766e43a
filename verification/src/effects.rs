//! What the operations on regular pages are for: which pages they allocate and free,
//! when they succeed, and what each failure means.

use vstd::prelude::*;

use crate::bitmap::lemma_first_clear;
use crate::error::MappedPageError;
use crate::growth::{
    among, filled_below, handed_out, law_pages_given_back, lemma_freed_all_frame,
    lemma_handed_out_len, lemma_mark_allocates, lemma_take_after, lemma_take_frame,
    lemma_take_order,
};
use crate::image::StateView;
use crate::meta::{
    FIRST_DATA_PAGE, MetaView, law_free_count_decides, law_grown_is_accurate, law_mark_is_accurate,
    law_release_is_accurate,
};
use crate::page::PageId;
use crate::pager::{AllocBulkTask, AllocTask, FreeTask, PagerView, numbers};
use crate::task::{GrowTask, GrowTurn, IoEvent, Request, RequestView, ReserveTurnView, Turn};

verus! {

// ── Bits and pages ────────────────────────────────────────────────────────────

/// A page is allocated exactly where it is a page of the file, the bitmap reaches to it, as
/// it does to every page if it has the size that the pages need, and its bit is set: bit
/// `id % 8` of byte `id / 8`, counted from the lowest.
pub proof fn law_allocated_is_a_bit(m: MetaView, id: int)
    ensures
        m.allocated(id) <==> {
            &&& 0 <= id < m.total_pages
            &&& id / 8 < m.bitmap.len()
            &&& (m.bitmap[id / 8] >> ((id % 8) as u8)) & 1u8 == 1u8
        },
        m.well_sized() <==> 8 * m.bitmap.len() - 8 < m.total_pages <= 8 * m.bitmap.len(),
{
}

/// Without a bit there is nothing to hand out: the page that is handed out next is the
/// lowest one in the file whose bit is clear, whatever the size of the bitmap.
pub proof fn law_next_page_has_a_clear_bit(m: MetaView)
    ensures
        match m.lowest_free() {
            Some(id) => {
                &&& id < m.total_pages
                &&& id / 8 < m.bitmap.len()
                &&& !m.allocated(id as int)
                &&& forall|j: int| 0 <= j < id ==> #[trigger] m.allocated(j)
            },
            None => forall|j: int|
                0 <= j < m.total_pages && j / 8 < m.bitmap.len() ==> #[trigger] m.allocated(j),
        },
{
    lemma_first_clear(m.bitmap, 0, m.limit());
    match m.lowest_free() {
        Some(id) => {
            assert forall|j: int| 0 <= j < id implies #[trigger] m.allocated(j) by {
                assert(crate::bitmap::page_is_set(m.bitmap, j));
            }
        },
        None => {
            assert forall|j: int|
                0 <= j < m.total_pages && j / 8 < m.bitmap.len() implies #[trigger] m.allocated(
                j,
            ) by {
                assert(crate::bitmap::page_is_set(m.bitmap, j));
            }
        },
    }
}

/// The page that is handed out next is the lowest page of the file that is free; there is
/// none exactly where all are allocated.
pub proof fn law_next_page_is_the_lowest_free(m: MetaView)
    requires
        m.well_sized(),
    ensures
        match m.lowest_free() {
            Some(id) => {
                &&& id < m.total_pages
                &&& !m.allocated(id as int)
                &&& forall|j: int| 0 <= j < id ==> #[trigger] m.allocated(j)
            },
            None => forall|j: int| 0 <= j < m.total_pages ==> #[trigger] m.allocated(j),
        },
{
    lemma_first_clear(m.bitmap, 0, m.limit());
    match m.lowest_free() {
        Some(id) => {
            lemma_mark_allocates(m, id);
        },
        None => {
            assert forall|j: int| 0 <= j < m.total_pages implies #[trigger] m.allocated(j) by {
                assert(crate::bitmap::page_is_set(m.bitmap, j));
            }
        },
    }
}

/// Marking and releasing a page change its own bit and the count of free pages, and
/// neither the number of pages nor the generation.
pub proof fn law_one_bit_changes(m: MetaView, id: u64, j: int)
    requires
        m.well_sized(),
        id < m.total_pages,
    ensures
        m.mark(id).allocated(j) <==> m.allocated(j) || j == id,
        m.mark(id).free_count == if m.free_count == 0 {
            0
        } else {
            m.free_count - 1
        },
        m.mark(id).total_pages == m.total_pages,
        m.mark(id).generation == m.generation,
        m.release(id).allocated(j) <==> m.allocated(j) && j != id,
        m.free_count < u64::MAX ==> m.release(id).free_count == m.free_count + 1,
        m.release(id).total_pages == m.total_pages,
        m.release(id).generation == m.generation,
{
    if 0 <= j < m.total_pages {
        crate::bitmap::lemma_with_set(m.bitmap, id as int, j);
        crate::bitmap::lemma_with_clear(m.bitmap, id as int, j);
    }
}

/// A file that is doubled has twice the pages; those it had are allocated or free as
/// before, and the others are free and counted.
pub proof fn law_doubling_adds_free_pages(m: MetaView, j: int)
    requires
        m.accurate(),
        2 * m.total_pages <= u64::MAX,
    ensures
        m.doubled().total_pages == 2 * m.total_pages,
        m.doubled().free_count == m.free_count + m.total_pages,
        m.doubled().generation == m.generation,
        m.doubled().allocated(j) <==> m.allocated(j),
        m.doubled().accurate(),
{
    law_grown_is_accurate(m, (2 * m.total_pages) as u64);
}

// ── Room ──────────────────────────────────────────────────────────────────────

/// A file can be doubled exactly where its new length is a 64-bit number and its metadata,
/// 24 bytes of counters, one bit for each page and a checksum of 4 bytes, fit into a page.
pub proof fn law_room_to_double(m: MetaView, page_size: usize)
    requires
        m.accurate(),
        0 < page_size,
    ensures
        m.growable(page_size) <==> {
            &&& 2 * m.total_pages * page_size <= u64::MAX
            &&& 2 * m.total_pages <= 8 * (page_size - 28)
        },
{
    let t = 2 * m.total_pages;
    law_free_count_decides(m);
    assert(t <= t * page_size) by (nonlinear_arith)
        requires
            0 <= t,
            0 < page_size,
    ;
    if t * page_size <= u64::MAX {
        law_grown_is_accurate(m, t as u64);
    }
}

/// As many pages can be handed out without growth as are free.
pub proof fn law_free_pages_can_be_taken(m: MetaView, n: nat, page_size: usize)
    requires
        m.accurate(),
        n <= m.free_count,
    ensures
        m.can_take(n, page_size),
    decreases n,
{
    if n > 0 {
        law_free_count_decides(m);
        let id = m.lowest_free()->0;
        law_mark_is_accurate(m, id);
        law_free_pages_can_be_taken(m.mark(id), (n - 1) as nat, page_size);
    }
}

/// More pages than are free can be handed out exactly where the file can be doubled and
/// the larger file has pages enough, doubled again if need be.
pub proof fn law_more_pages_need_growth(m: MetaView, n: nat, page_size: usize)
    requires
        m.accurate(),
        m.free_count < n,
    ensures
        m.can_take(n, page_size) <==> m.growable(page_size) && m.doubled().can_take(n, page_size),
    decreases n,
{
    law_free_count_decides(m);
    match m.lowest_free() {
        None => {
            if m.growable(page_size) {
                law_grown_is_accurate(m, (2 * m.total_pages) as u64);
            }
        },
        Some(id) => {
            law_mark_is_accurate(m, id);
            let k = m.mark(id);
            law_more_pages_need_growth(k, (n - 1) as nat, page_size);
            assert(k.growable(page_size) <==> m.growable(page_size)) by {
                if 0 < page_size {
                    law_room_to_double(m, page_size);
                    law_room_to_double(k, page_size);
                }
            }
            if m.growable(page_size) {
                lemma_mark_and_double(m, id);
                law_grown_is_accurate(m, (2 * m.total_pages) as u64);
            }
        },
    }
}

/// Handing out a page and doubling the file may change places.
proof fn lemma_mark_and_double(m: MetaView, id: u64)
    requires
        m.accurate(),
        m.lowest_free() == Some(id),
        2 * m.total_pages <= u64::MAX,
    ensures
        m.doubled().lowest_free() == Some(id),
        m.doubled().mark(id) == m.mark(id).doubled(),
{
    law_mark_is_accurate(m, id);
    law_grown_is_accurate(m, (2 * m.total_pages) as u64);
    law_free_count_decides(m);
    let d = m.doubled();
    law_next_page_is_the_lowest_free(m);
    law_next_page_is_the_lowest_free(d);
    let low = d.lowest_free()->0;
    assert(!d.allocated(id as int));
    assert(low <= id);
    if low < id {
        assert(m.allocated(low as int));
        assert(d.allocated(low as int));
    }
    assert(d.mark(id) =~= m.mark(id).doubled());
}

// ── Freeing a page ────────────────────────────────────────────────────────────

/// Which pages are allocated in `w` but for page `id` alone is as in `v`; `id` is free.
pub open spec fn frees_only(v: MetaView, w: MetaView, id: int) -> bool {
    forall|j: int| #[trigger] w.allocated(j) <==> v.allocated(j) && j != id
}

/// On an available pager a page can be freed exactly where it is no reserved one, is a
/// page of the file and is allocated; the release then frees that page, counts it, and
/// changes no other page and no directory.  A refusal says which of these fails first,
/// and changes nothing.
pub proof fn law_free_begins(
    v: PagerView,
    id: u64,
    page_size: usize,
    w: PagerView,
    turn: Turn<(), FreeTask>,
)
    requires
        v.state.meta.well_sized(),
        v.can_free(id),
        v.free_next(id, page_size, w, turn),
    ensures
        w.available == v.available,
        w.state.active == v.state.active,
        w.state.blocks == v.state.blocks,
        w.state.dirs == v.state.dirs,
        w.state.meta.total_pages == v.state.meta.total_pages,
        turn is Ask <==> {
            &&& v.available
            &&& FIRST_DATA_PAGE <= id < v.state.meta.total_pages
            &&& v.state.meta.allocated(id as int)
        },
        turn matches Turn::Ask(request, _) ==> {
            &&& request@ == RequestView::Apply(w.state.commit_plan(page_size))
            &&& frees_only(v.state.meta, w.state.meta, id as int)
            &&& w.state.meta.free_count == v.state.meta.free_count + 1
            &&& w.state.meta.generation == v.state.meta.generation + 1
        },
        turn is Done && v.available ==> w == v,
        turn matches Turn::Done(result) ==> result == Err::<(), MappedPageError>(
            if !v.available {
                MappedPageError::Unavailable
            } else if id < FIRST_DATA_PAGE {
                MappedPageError::ReservedPage
            } else if id >= v.state.meta.total_pages {
                MappedPageError::OutOfBounds
            } else {
                MappedPageError::DoubleFree
            },
        ),
{
    let m = v.state.meta;
    if m.allocated(id as int) && FIRST_DATA_PAGE <= id {
        assert forall|j: int| #[trigger] m.release(id).bumped().allocated(j) <==> m.allocated(j)
            && j != id by {
            if 0 <= j < m.total_pages {
                crate::bitmap::lemma_with_clear(m.bitmap, id as int, j);
            }
        }
    }
}

/// A release whose commit is carried out is done: its pages are as they were when it
/// began, and the other metadata page is active.  A commit that fails is reported, and
/// changes nothing.
pub proof fn law_free_ends(v: PagerView, event: IoEvent, w: PagerView, turn: Turn<(), FreeTask>)
    requires
        v.free_resumed(event, w, turn),
    ensures
        w.available == v.available,
        w.state.meta == v.state.meta,
        w.state.blocks == v.state.blocks,
        w.state.dirs == v.state.dirs,
        match event {
            IoEvent::Done => {
                &&& turn == Turn::<(), FreeTask>::Done(Ok(()))
                &&& w.state.active != v.state.active
            },
            IoEvent::Failed { error, .. } => {
                &&& turn == Turn::<(), FreeTask>::Done(Err(MappedPageError::Io(error)))
                &&& w == v
            },
        },
{
}

/// On an available pager every allocated data page can be freed: the release succeeds once
/// its commit is carried out, the page is then free and is handed out again before any
/// higher one, and no other page changes.
pub proof fn law_allocated_page_is_freed(
    v: PagerView,
    id: u64,
    page_size: usize,
    w: PagerView,
    turn: Turn<(), FreeTask>,
    u: PagerView,
    end: Turn<(), FreeTask>,
)
    requires
        v.available,
        v.state.meta.accurate(),
        v.state.meta.generation < u64::MAX,
        FIRST_DATA_PAGE <= id < v.state.meta.total_pages,
        v.state.meta.allocated(id as int),
        v.free_next(id, page_size, w, turn),
        w.free_resumed(IoEvent::Done, u, end),
    ensures
        v.can_free(id),
        turn is Ask,
        end == Turn::<(), FreeTask>::Done(Ok(())),
        !u.state.meta.allocated(id as int),
        frees_only(v.state.meta, u.state.meta, id as int),
        u.state.meta.free_count == v.state.meta.free_count + 1,
        u.state.meta.accurate(),
        u.state.meta.lowest_free() matches Some(low) && low <= id,
{
    law_free_count_decides(v.state.meta);
    law_free_begins(v, id, page_size, w, turn);
    law_release_is_accurate(v.state.meta, id);
    law_next_page_is_the_lowest_free(u.state.meta);
    assert(!u.state.meta.allocated(id as int));
}

// ── Freeing several pages ─────────────────────────────────────────────────────

/// Why page `id` alone could not be freed is decided by the page alone.
proof fn lemma_first_refusal(v: PagerView, ids: Seq<u64>)
    ensures
        match v.first_refusal(ids) {
            None => forall|i: int|
                0 <= i < ids.len() ==> v.free_refusal(#[trigger] ids[i]) is None,
            Some(e) => exists|i: int|
                {
                    &&& 0 <= i < ids.len()
                    &&& v.free_refusal(#[trigger] ids[i]) == Some(e)
                    &&& forall|k: int| 0 <= k < i ==> v.free_refusal(#[trigger] ids[k]) is None
                },
        },
    decreases ids.len(),
{
    if ids.len() > 0 {
        let before = ids.drop_last();
        lemma_first_refusal(v, before);
        match v.first_refusal(before) {
            Some(e) => {
                let i = choose|i: int|
                    {
                        &&& 0 <= i < before.len()
                        &&& v.free_refusal(#[trigger] before[i]) == Some(e)
                        &&& forall|k: int|
                            0 <= k < i ==> v.free_refusal(#[trigger] before[k]) is None
                    };
                assert(v.free_refusal(ids[i]) == Some(e));
                assert forall|k: int| 0 <= k < i implies v.free_refusal(
                    #[trigger] ids[k],
                ) is None by {
                    assert(ids[k] == before[k]);
                }
            },
            None => {
                assert forall|i: int| 0 <= i < before.len() implies v.free_refusal(
                    #[trigger] ids[i],
                ) is None by {
                    assert(ids[i] == before[i]);
                }
                assert(ids[ids.len() - 1] == ids.last());
            },
        }
    }
}

/// Page `id` is an allocated data page of the file.
pub open spec fn is_data_page(m: MetaView, id: u64) -> bool {
    FIRST_DATA_PAGE <= id < m.total_pages && m.allocated(id as int)
}

/// A list of pages is freed exactly where the pager is available, the pages are pairwise
/// different, and every one of them, at every position, is an allocated data page.  Then
/// those pages are free and counted, no other page changes, and all of it is one commit.
/// Otherwise the call fails and changes nothing.
pub proof fn law_bulk_free_is_all_or_nothing(
    v: PagerView,
    ids: Seq<u64>,
    page_size: usize,
    w: PagerView,
    turn: Turn<(), FreeTask>,
)
    requires
        v.state.meta.accurate(),
        v.free_bulk_next(ids, page_size, w, turn),
        v.state.meta.free_count + ids.len() <= u64::MAX,
        v.state.meta.generation < u64::MAX,
    ensures
        ({
            let m = v.state.meta;
            let all = forall|i: int| 0 <= i < ids.len() ==> is_data_page(m, #[trigger] ids[i]);
            let accepted = v.available && ids.no_duplicates() && all;
            &&& accepted <==> !(turn matches Turn::Done(Err(_)))
            &&& !accepted ==> w == v
            &&& accepted && ids.len() == 0 ==> w == v && turn == Turn::<(), FreeTask>::Done(Ok(()))
            &&& accepted && ids.len() > 0 ==> {
                &&& turn matches Turn::Ask(request, _)
                &&& request@ == RequestView::Apply(w.state.commit_plan(page_size))
                &&& forall|j: int|
                    #[trigger] w.state.meta.allocated(j) <==> m.allocated(j) && !exists|i: int|
                        0 <= i < ids.len() && #[trigger] ids[i] == j
                &&& w.state.meta.free_count == m.free_count + ids.len()
                &&& w.state.meta.generation == m.generation + 1
                &&& w.state.meta.total_pages == m.total_pages
                &&& w.state.meta.accurate()
                &&& w.available
                &&& w.state.active == v.state.active
                &&& w.state.blocks == v.state.blocks
                &&& w.state.dirs == v.state.dirs
            }
        }),
{
    let m = v.state.meta;
    lemma_first_refusal(v, ids);
    if v.available && v.free_bulk_refusal(ids) is None {
        assert forall|i: int| 0 <= i < ids.len() implies is_data_page(m, #[trigger] ids[i]) by {
            assert(v.free_refusal(ids[i]) is None);
        }
        law_pages_given_back(m, ids);
        lemma_freed_all_frame(m, ids);
        assert forall|j: int|
            #[trigger] m.freed_all(ids).bumped().allocated(j) <==> m.allocated(j) && !exists|i: int|
                0 <= i < ids.len() && #[trigger] ids[i] == j by {
            assert(m.freed_all(ids).allocated(j) <==> m.allocated(j) && !among(ids, j));
        }
    } else if v.available && ids.no_duplicates() {
        let i = choose|i: int|
            {
                &&& 0 <= i < ids.len()
                &&& v.free_refusal(#[trigger] ids[i]) == v.first_refusal(ids)
                &&& forall|k: int| 0 <= k < i ==> v.free_refusal(#[trigger] ids[k]) is None
            };
        assert(!is_data_page(m, ids[i]));
    }
}

/// The error of a list of pages that is refused: the map is gone; or else a page is named
/// twice, which counts as freeing it twice; or else that of the first page in the list
/// that could not be freed alone.
pub proof fn law_bulk_free_error(
    v: PagerView,
    ids: Seq<u64>,
    page_size: usize,
    w: PagerView,
    turn: Turn<(), FreeTask>,
    e: MappedPageError,
)
    requires
        v.free_bulk_next(ids, page_size, w, turn),
        turn == Turn::<(), FreeTask>::Done(Err(e)),
    ensures
        !v.available ==> e == MappedPageError::Unavailable,
        v.available && !ids.no_duplicates() ==> e == MappedPageError::DoubleFree,
        v.available && ids.no_duplicates() ==> exists|i: int|
            {
                let id = #[trigger] ids[i];
                &&& 0 <= i < ids.len()
                &&& forall|k: int| 0 <= k < i ==> is_data_page(v.state.meta, #[trigger] ids[k])
                &&& e == if id < FIRST_DATA_PAGE {
                    MappedPageError::ReservedPage
                } else if id >= v.state.meta.total_pages {
                    MappedPageError::OutOfBounds
                } else {
                    MappedPageError::DoubleFree
                }
                &&& !is_data_page(v.state.meta, id)
            },
{
    lemma_first_refusal(v, ids);
    if v.available && ids.no_duplicates() {
        let i = choose|i: int|
            {
                &&& 0 <= i < ids.len()
                &&& v.free_refusal(#[trigger] ids[i]) == Some(e)
                &&& forall|k: int| 0 <= k < i ==> v.free_refusal(#[trigger] ids[k]) is None
            };
        assert forall|k: int| 0 <= k < i implies is_data_page(v.state.meta, #[trigger] ids[k]) by {
            assert(v.free_refusal(ids[k]) is None);
        }
    }
}

/// The numbers of a list of handles are those of the handles, in order.
pub proof fn law_numbers_of_handles<const PAGE_SIZE: usize>(ids: Seq<PageId<PAGE_SIZE>>)
    ensures
        numbers(ids).len() == ids.len(),
        forall|i: int| 0 <= i < ids.len() ==> #[trigger] numbers(ids)[i] == ids[i].0,
        numbers(ids).no_duplicates() <==> ids.no_duplicates(),
{
    let ns = numbers(ids);
    if ns.no_duplicates() {
        assert forall|i: int, j: int|
            0 <= i < ids.len() && 0 <= j < ids.len() && i != j implies ids[i] != ids[j] by {
            assert(ns[i] != ns[j]);
        }
    }
    if ids.no_duplicates() {
        assert forall|i: int, j: int|
            0 <= i < ns.len() && 0 <= j < ns.len() && i != j implies ns[i] != ns[j] by {
            assert(ids[i] != ids[j]);
            assert(ids[i].0 == ns[i] && ids[j].0 == ns[j]);
        }
    }
}

// ── Borrowing a page ──────────────────────────────────────────────────────────

/// A page can be borrowed exactly where the pager is available and the page is no
/// reserved one and a page of the file.
pub proof fn law_page_can_be_borrowed(v: PagerView, id: u64)
    ensures
        v.page_refusal(id) is None <==> v.available && FIRST_DATA_PAGE <= id
            < v.state.meta.total_pages,
        v.page_refusal(id) matches Some(e) ==> e == if !v.available {
            MappedPageError::Unavailable
        } else if id < FIRST_DATA_PAGE {
            MappedPageError::ReservedPage
        } else {
            MappedPageError::OutOfBounds
        },
        v.available ==> v.page_refusal(id) == v.state.page_refusal(id),
{
}

// ── Reserving pages ───────────────────────────────────────────────────────────

/// The pager `u` is `v` with the pages `got` reserved, and perhaps with a larger file:
/// they were free in `v`, and no other page and no directory has changed.
pub open spec fn reserved_so_far(v: PagerView, u: PagerView, got: Seq<u64>) -> bool {
    &&& u.state.active == v.state.active
    &&& u.state.blocks == v.state.blocks
    &&& u.state.dirs == v.state.dirs
    &&& u.state.meta.generation == v.state.meta.generation
    &&& u.state.meta.accurate()
    &&& v.state.meta.total_pages <= u.state.meta.total_pages
    &&& handed_out(u.state.meta, got)
    &&& forall|i: int| 0 <= i < got.len() ==> !v.state.meta.allocated(#[trigger] got[i] as int)
    &&& forall|j: int|
        #[trigger] u.state.meta.allocated(j) <==> v.state.meta.allocated(j) || among(got, j)
}

/// Handing out what is free keeps the metadata accurate.
proof fn lemma_take_is_accurate(m: MetaView, n: nat)
    requires
        m.accurate(),
    ensures
        m.take(n).0.accurate(),
    decreases n,
{
    if n > 0 {
        match m.lowest_free() {
            Some(id) => {
                law_mark_is_accurate(m, id);
                lemma_take_is_accurate(m.mark(id), (n - 1) as nat);
            },
            None => {},
        }
    }
}

/// What is among two lists one behind the other.
proof fn lemma_among_both(a: Seq<u64>, b: Seq<u64>, j: int)
    ensures
        among(a + b, j) <==> among(a, j) || among(b, j),
{
    if among(a + b, j) {
        let i = choose|i: int| 0 <= i < (a + b).len() && (a + b)[i] == j;
        if i < a.len() {
            assert(a[i] == j);
        } else {
            assert(b[i - a.len()] == j);
        }
    }
    if among(a, j) {
        let i = choose|i: int| 0 <= i < a.len() && a[i] == j;
        assert((a + b)[i] == j);
    }
    if among(b, j) {
        let i = choose|i: int| 0 <= i < b.len() && b[i] == j;
        assert((a + b)[i + a.len()] == j);
    }
}

/// A reservation goes on: the pages that it has are reserved, and it has all that are
/// wanted or waits for a larger file, none being free.
pub proof fn lemma_reserving(
    v: PagerView,
    u: PagerView,
    got: Seq<u64>,
    want: usize,
    page_size: usize,
)
    requires
        reserved_so_far(v, u, got),
        got.len() <= want,
    ensures
        ({
            let (w, turn) = u.reserve_next(got, want, page_size);
            match turn {
                ReserveTurnView::Reserved(all) => {
                    &&& all.len() == want
                    &&& reserved_so_far(v, w, all)
                    &&& w.available == u.available
                    &&& w.state.meta.total_pages == u.state.meta.total_pages
                },
                ReserveTurnView::Ask(request, task) => {
                    &&& task.want == want
                    &&& task.got.len() < want
                    &&& reserved_so_far(v, w, task.got)
                    &&& w.state.meta.total_pages == u.state.meta.total_pages
                    &&& forall|j: int|
                        0 <= j < w.state.meta.total_pages
                            ==> #[trigger] w.state.meta.allocated(j)
                    &&& !w.available
                    &&& task.grow is SetLen
                    &&& request == Request::SetLen(
                        (2 * u.state.meta.total_pages * page_size) as u64,
                    )
                },
                ReserveTurnView::Failed(_, _) => false,
            }
        }),
{
    let n = (want - got.len()) as nat;
    let m = u.state.meta;
    let (k, ids) = m.take(n);
    let all = got + ids;
    lemma_take_frame(m, n);
    lemma_take_order(m, n);
    lemma_take_after(m, got, n);
    lemma_take_is_accurate(m, n);
    crate::growth::lemma_take_short(m, n);
    law_next_page_is_the_lowest_free(k);
    assert forall|j: int| #[trigger] k.allocated(j) <==> v.state.meta.allocated(j) || among(
        all,
        j,
    ) by {
        lemma_among_both(got, ids, j);
        assert(k.allocated(j) <==> m.allocated(j) || among(ids, j));
    }
    assert forall|i: int| 0 <= i < all.len() implies !v.state.meta.allocated(
        #[trigger] all[i] as int,
    ) by {
        if i < got.len() {
            assert(all[i] == got[i]);
        } else {
            assert(all[i] == ids[i - got.len()]);
            assert(!m.allocated(ids[i - got.len()] as int));
            assert(m.allocated(all[i] as int) <==> v.state.meta.allocated(all[i] as int) || among(
                got,
                all[i] as int,
            ));
        }
    }
}

/// Doubling the file changes nothing of what is reserved.
pub proof fn lemma_reserved_doubled(v: PagerView, u: PagerView, got: Seq<u64>, w: PagerView)
    requires
        reserved_so_far(v, u, got),
        2 * u.state.meta.total_pages <= u64::MAX,
        w.state == (StateView { meta: u.state.meta.doubled(), ..u.state }),
    ensures
        reserved_so_far(v, w, got),
        w.state.meta.total_pages == 2 * u.state.meta.total_pages,
{
    let m = u.state.meta;
    law_grown_is_accurate(m, (2 * m.total_pages) as u64);
    crate::growth::lemma_doubled_after(m, got);
    assert forall|j: int|
        #[trigger] w.state.meta.allocated(j) <==> v.state.meta.allocated(j) || among(got, j) by {
        assert(m.allocated(j) <==> v.state.meta.allocated(j) || among(got, j));
    }
}

// ── Allocating several pages ──────────────────────────────────────────────────

/// An allocation of `count` pages that is carried out on the pager `v`: after each turn but
/// the last, what is asked for went as the next event says.
pub open spec fn bulk_alloc_run<const PAGE_SIZE: usize>(
    v: PagerView,
    count: usize,
    views: Seq<PagerView>,
    turns: Seq<Turn<Vec<PageId<PAGE_SIZE>>, AllocBulkTask<PAGE_SIZE>>>,
    events: Seq<IoEvent>,
) -> bool {
    &&& views.len() == turns.len()
    &&& turns.len() == events.len() + 1
    &&& v.alloc_bulk_begun(count, views[0], turns[0])
    &&& forall|i: int| 0 <= i < turns.len() ==> #[trigger] bulk_alloc_belongs(views, turns, i)
    &&& forall|i: int|
        0 <= i < events.len() ==> #[trigger] bulk_alloc_goes_on(views, turns, events, i)
}

/// What turn `i` asks for belongs to the pager as it then is.
pub open spec fn bulk_alloc_belongs<const PAGE_SIZE: usize>(
    views: Seq<PagerView>,
    turns: Seq<Turn<Vec<PageId<PAGE_SIZE>>, AllocBulkTask<PAGE_SIZE>>>,
    i: int,
) -> bool {
    turns[i] matches Turn::Ask(_, task) ==> task.belongs_to(views[i])
}

/// Turn `i` asks for something, and after event `i` the next turn follows.
pub open spec fn bulk_alloc_goes_on<const PAGE_SIZE: usize>(
    views: Seq<PagerView>,
    turns: Seq<Turn<Vec<PageId<PAGE_SIZE>>, AllocBulkTask<PAGE_SIZE>>>,
    events: Seq<IoEvent>,
    i: int,
) -> bool {
    &&& turns[i] matches Turn::Ask(_, task)
    &&& views[i].alloc_bulk_resumed(task, events[i], views[i + 1], turns[i + 1])
}

/// The pages are `count` different data pages of the file, the lowest that there were, and
/// are exactly those that are allocated in `w` and are not in `v`.
pub open spec fn exactly_these<const PAGE_SIZE: usize>(
    v: MetaView,
    w: MetaView,
    pages: Seq<PageId<PAGE_SIZE>>,
    count: nat,
) -> bool {
    &&& pages.len() == count
    &&& forall|i: int, k: int| 0 <= i < k < pages.len() ==> pages[i].0 < pages[k].0
    &&& forall|i: int|
        0 <= i < pages.len() ==> {
            &&& FIRST_DATA_PAGE <= (#[trigger] pages[i]).0 < w.total_pages
            &&& !v.allocated(pages[i].0 as int)
        }
    &&& forall|j: int|
        #[trigger] w.allocated(j) <==> v.allocated(j) || exists|i: int|
            0 <= i < pages.len() && (#[trigger] pages[i]).0 == j
    &&& forall|i: int, j: int|
        0 <= i < pages.len() && 0 <= j < (#[trigger] pages[i]).0 ==> #[trigger] w.allocated(j)
}

/// How far the allocation of `count` pages has come.
spec fn bulk_alloc_so_far<const PAGE_SIZE: usize>(
    v: PagerView,
    count: usize,
    u: PagerView,
    turn: Turn<Vec<PageId<PAGE_SIZE>>, AllocBulkTask<PAGE_SIZE>>,
) -> bool {
    match turn {
        Turn::Ask(request, AllocBulkTask::Grow(task)) => {
            &&& task.want == count
            &&& reserved_so_far(v, u, task.got@)
            &&& !(request is Apply)
        },
        Turn::Ask(request, AllocBulkTask::Commit(pages)) => {
            &&& request@ == RequestView::Apply(u.state.commit_plan(PAGE_SIZE))
            &&& bulk_alloc_complete(v, count, u, pages@)
            &&& u.state.active == v.state.active
            &&& count > 0
        },
        Turn::Done(Ok(pages)) => {
            &&& bulk_alloc_complete(v, count, u, pages@)
            &&& u.state.active == if count > 0 {
                v.state.active.other()
            } else {
                v.state.active
            }
        },
        Turn::Done(Err(_)) => true,
    }
}

spec fn bulk_alloc_complete<const PAGE_SIZE: usize>(
    v: PagerView,
    count: usize,
    u: PagerView,
    pages: Seq<PageId<PAGE_SIZE>>,
) -> bool {
    &&& exactly_these(v.state.meta, u.state.meta, pages, count as nat)
    &&& u.state.meta.accurate()
    &&& u.state.blocks == v.state.blocks
    &&& u.state.dirs == v.state.dirs
    &&& u.available
    &&& u.state.meta.generation == v.state.meta.generation + if count > 0 {
        1int
    } else {
        0int
    }
}

/// The pages of `w` are allocated or free as in `v`, and the directory is the same.
pub open spec fn pages_as_before(v: PagerView, w: PagerView) -> bool {
    &&& w.state.meta.accurate()
    &&& forall|j: int| #[trigger] w.state.meta.allocated(j) <==> v.state.meta.allocated(j)
    &&& w.state.blocks == v.state.blocks
    &&& w.state.dirs == v.state.dirs
    &&& w.state.active == v.state.active
    &&& w.state.meta.generation == v.state.meta.generation
}

/// Giving back all that was reserved leaves the pages as before.
proof fn lemma_given_back(v: PagerView, u: PagerView, ids: Seq<u64>)
    requires
        v.state.meta.accurate(),
        reserved_so_far(v, u, ids),
        u.state.meta.free_count + u.state.meta.total_pages <= u64::MAX,
    ensures
        pages_as_before(v, u.with_meta(u.state.meta.freed_all(ids))),
{
    let m = v.state.meta;
    let k = u.state.meta;
    lemma_handed_out_len(k, ids);
    assert(ids.no_duplicates()) by {
        assert forall|i: int, n: int|
            0 <= i < ids.len() && 0 <= n < ids.len() && i != n implies ids[i] != ids[n] by {
            if i < n {
                assert(ids[i] < ids[n]);
            } else {
                assert(ids[n] < ids[i]);
            }
        }
    }
    assert forall|i: int| 0 <= i < ids.len() implies FIRST_DATA_PAGE <= #[trigger] ids[i]
        && k.allocated(ids[i] as int) by {
        assert(!m.allocated(ids[i] as int));
        assert(among(ids, ids[i] as int));
        if ids[i] < FIRST_DATA_PAGE {
            assert(crate::bitmap::page_is_set(m.bitmap, ids[i] as int));
        }
    }
    law_pages_given_back(k, ids);
    lemma_freed_all_frame(k, ids);
    assert forall|j: int| #[trigger] k.freed_all(ids).allocated(j) <==> m.allocated(j) by {
        assert(k.allocated(j) <==> m.allocated(j) || among(ids, j));
        if among(ids, j) {
            let i = choose|i: int| 0 <= i < ids.len() && ids[i] == j;
            assert(!m.allocated(ids[i] as int));
        }
    }
}

/// Pages that are reserved and made handles of are exactly those.
proof fn lemma_handles_are_these<const PAGE_SIZE: usize>(
    v: PagerView,
    u: PagerView,
    ids: Seq<u64>,
    pages: Seq<PageId<PAGE_SIZE>>,
)
    requires
        v.state.meta.accurate(),
        reserved_so_far(v, u, ids),
        pages.len() == ids.len(),
        forall|i: int| 0 <= i < ids.len() ==> (#[trigger] pages[i]).0 == ids[i],
    ensures
        exactly_these(v.state.meta, u.state.meta, pages, ids.len()),
{
    let m = v.state.meta;
    let k = u.state.meta;
    assert forall|i: int| 0 <= i < pages.len() implies {
        &&& FIRST_DATA_PAGE <= (#[trigger] pages[i]).0 < k.total_pages
        &&& !m.allocated(pages[i].0 as int)
    } by {
        assert(!m.allocated(ids[i] as int));
        assert(among(ids, ids[i] as int));
        assert(k.allocated(ids[i] as int));
        if ids[i] < FIRST_DATA_PAGE {
            assert(crate::bitmap::page_is_set(m.bitmap, ids[i] as int));
        }
    }
    assert forall|j: int|
        #[trigger] k.allocated(j) <==> m.allocated(j) || exists|i: int|
            0 <= i < pages.len() && (#[trigger] pages[i]).0 == j by {
        if among(ids, j) {
            let i = choose|i: int| 0 <= i < ids.len() && ids[i] == j;
            assert(pages[i].0 == j);
        }
        if exists|i: int| 0 <= i < pages.len() && (#[trigger] pages[i]).0 == j {
            let i = choose|i: int| 0 <= i < pages.len() && (#[trigger] pages[i]).0 == j;
            assert(ids[i] == j);
        }
    }
    assert forall|i: int, n: int| 0 <= i < n < pages.len() implies pages[i].0 < pages[n].0 by {
        assert(ids[i] < ids[n]);
    }
}

proof fn lemma_bulk_alloc_next<const PAGE_SIZE: usize>(
    v: PagerView,
    count: usize,
    u: PagerView,
    reserved: ReserveTurnView,
    w: PagerView,
    turn: Turn<Vec<PageId<PAGE_SIZE>>, AllocBulkTask<PAGE_SIZE>>,
)
    requires
        v.state.meta.accurate(),
        v.state.meta.generation < u64::MAX,
        u.alloc_bulk_next(reserved, w, turn),
        match reserved {
            ReserveTurnView::Reserved(all) => all.len() == count && count > 0 && u.available
                && reserved_so_far(v, u, all),
            ReserveTurnView::Ask(request, task) => task.want == count && reserved_so_far(
                v,
                u,
                task.got,
            ) && !(request is Apply),
            ReserveTurnView::Failed(ids, e) => reserved_so_far(v, u, ids)
                && u.state.meta.free_count + u.state.meta.total_pages <= u64::MAX && e is Io,
        },
    ensures
        bulk_alloc_so_far(v, count, w, turn),
        turn matches Turn::Done(result) ==> result is Err && reserved is Failed && pages_as_before(
            v,
            w,
        ),
{
    match reserved {
        ReserveTurnView::Reserved(ids) => {
            let pages = turn->Ask_1->Commit_0@;
            assert forall|i: int| 0 <= i < ids.len() implies (#[trigger] pages[i]).0 == ids[i] by {}
            lemma_handles_are_these(v, u, ids, pages);
            let k = w.state.meta;
            assert(k.bitmap == u.state.meta.bitmap);
            assert forall|j: int| #[trigger] k.allocated(j) <==> v.state.meta.allocated(j)
                || exists|i: int| 0 <= i < pages.len() && (#[trigger] pages[i]).0 == j by {
                assert(k.allocated(j) == u.state.meta.allocated(j));
            }
            assert forall|i: int, j: int|
                0 <= i < pages.len() && 0 <= j < (
                #[trigger] pages[i]).0 implies #[trigger] k.allocated(j) by {
                assert(filled_below(u.state.meta, ids[i] + 1));
                assert(u.state.meta.allocated(j));
            }
            assert(k.accurate());
        },
        ReserveTurnView::Failed(ids, _) => {
            lemma_given_back(v, u, ids);
        },
        _ => {},
    }
}

proof fn lemma_bulk_alloc_run<const PAGE_SIZE: usize>(
    v: PagerView,
    count: usize,
    views: Seq<PagerView>,
    turns: Seq<Turn<Vec<PageId<PAGE_SIZE>>, AllocBulkTask<PAGE_SIZE>>>,
    events: Seq<IoEvent>,
    i: int,
)
    requires
        v.available,
        v.state.meta.accurate(),
        v.state.meta.generation < u64::MAX,
        bulk_alloc_run(v, count, views, turns, events),
        0 <= i < turns.len(),
    ensures
        bulk_alloc_so_far(v, count, views[i], turns[i]),
        turns[i] matches Turn::Done(Err(_)) && 0 < i ==> (turns[i - 1]->Ask_1 is Grow
            ==> pages_as_before(v, views[i])),
        turns[i] matches Turn::Done(Err(_)) ==> 0 < i,
    decreases i,
{
    let m = v.state.meta;
    if i == 0 {
        if count > 0 {
            assert(reserved_so_far(v, v, Seq::empty())) by {
                assert forall|j: int| #[trigger] m.allocated(j) <==> m.allocated(j) || among(
                    Seq::empty(),
                    j,
                ) by {}
            }
            lemma_reserving(v, v, Seq::empty(), count, PAGE_SIZE);
            let (u, reserved) = v.reserve_next(Seq::empty(), count, PAGE_SIZE);
            lemma_bulk_alloc_next(v, count, u, reserved, views[0], turns[0]);
        } else {
            let pages = turns[0]->Done_0->Ok_0@;
            assert(pages.len() == 0);
            assert forall|j: int| #[trigger] m.allocated(j) <==> m.allocated(j) || exists|k: int|
                0 <= k < pages.len() && (#[trigger] pages[k]).0 == j by {}
        }
    } else {
        lemma_bulk_alloc_run(v, count, views, turns, events, i - 1);
        assert(bulk_alloc_goes_on(views, turns, events, i - 1));
        assert(bulk_alloc_belongs(views, turns, i - 1));
        let u = views[i - 1];
        match turns[i - 1]->Ask_1 {
            AllocBulkTask::Grow(task) => {
                let (g, grown) = u.grow_next(task.grow, events[i - 1], PAGE_SIZE);
                let (r, reserved) = u.reserve_resumed(task@, events[i - 1], PAGE_SIZE);
                if grown is Grown {
                    lemma_reserved_doubled(v, u, task.got@, g);
                    lemma_reserving(v, g, task.got@, count, PAGE_SIZE);
                }
                lemma_bulk_alloc_next(v, count, r, reserved, views[i], turns[i]);
            },
            AllocBulkTask::Commit(pages) => {},
        }
    }
}

/// An allocation of `count` pages that succeeds results in `count` handles, pairwise
/// different and in increasing order, of data pages that were free; they are exactly the
/// pages that are allocated afterwards and were not before.  It fails only if something
/// that it asked for failed; if that was not its commit, the pages are as before.  Before
/// it asks for its one commit it asks only for a larger file.
pub proof fn law_bulk_alloc_hands_out_exactly<const PAGE_SIZE: usize>(
    v: PagerView,
    count: usize,
    views: Seq<PagerView>,
    turns: Seq<Turn<Vec<PageId<PAGE_SIZE>>, AllocBulkTask<PAGE_SIZE>>>,
    events: Seq<IoEvent>,
)
    requires
        v.available,
        v.state.meta.accurate(),
        v.state.meta.generation < u64::MAX,
        bulk_alloc_run(v, count, views, turns, events),
    ensures
        match turns.last() {
            Turn::Done(Ok(pages)) => {
                let w = views.last();
                &&& exactly_these(v.state.meta, w.state.meta, pages@, count as nat)
                &&& w.state.meta.accurate()
                &&& w.state.blocks == v.state.blocks
                &&& w.state.dirs == v.state.dirs
                &&& w.available
                &&& w.state.active == if count > 0 {
                    v.state.active.other()
                } else {
                    v.state.active
                }
            },
            Turn::Done(Err(e)) => {
                &&& e is Io
                &&& exists|i: int| 0 <= i < events.len() && #[trigger] events[i] is Failed
                &&& turns[turns.len() - 2]->Ask_1 is Grow ==> pages_as_before(v, views.last())
            },
            Turn::Ask(request, AllocBulkTask::Commit(pages)) => {
                &&& request@ == RequestView::Apply(views.last().state.commit_plan(PAGE_SIZE))
                &&& exactly_these(v.state.meta, views.last().state.meta, pages@, count as nat)
            },
            Turn::Ask(request, AllocBulkTask::Grow(_)) => !(request is Apply),
        },
        turns.last() is Done ==> turns.len() > 1 || count == 0,
{
    let last = turns.len() - 1;
    lemma_bulk_alloc_run(v, count, views, turns, events, last);
    if turns.last() matches Turn::Done(Err(_)) {
        lemma_bulk_alloc_fails(v, count, views, turns, events, last);
    }
    if turns.len() == 1 && count > 0 {
        lemma_bulk_alloc_asks(v, count, views[0], turns[0]);
    }
}

proof fn lemma_bulk_alloc_asks<const PAGE_SIZE: usize>(
    v: PagerView,
    count: usize,
    w: PagerView,
    turn: Turn<Vec<PageId<PAGE_SIZE>>, AllocBulkTask<PAGE_SIZE>>,
)
    requires
        v.available,
        count > 0,
        v.alloc_bulk_begun(count, w, turn),
    ensures
        turn is Ask,
{
}

/// As many pages are handed out without growth as are wanted and free.
pub proof fn lemma_take_len(m: MetaView, n: nat)
    requires
        m.accurate(),
    ensures
        m.take(n).1.len() == if n <= m.free_count {
            n as int
        } else {
            m.free_count as int
        },
    decreases n,
{
    if n > 0 {
        law_free_count_decides(m);
        if let Some(id) = m.lowest_free() {
            law_mark_is_accurate(m, id);
            lemma_take_len(m.mark(id), (n - 1) as nat);
        }
    }
}

/// An allocation of several pages has the file doubled only if fewer are free than are
/// wanted; otherwise it asks for its commit at once.
pub proof fn law_bulk_alloc_grows_only_if_needed<const PAGE_SIZE: usize>(
    v: PagerView,
    count: usize,
    w: PagerView,
    turn: Turn<Vec<PageId<PAGE_SIZE>>, AllocBulkTask<PAGE_SIZE>>,
)
    requires
        v.available,
        v.state.meta.accurate(),
        count > 0,
        v.alloc_bulk_begun(count, w, turn),
    ensures
        turn matches Turn::Ask(request, task) && if count <= v.state.meta.free_count {
            &&& task is Commit
            &&& request@ == RequestView::Apply(w.state.commit_plan(PAGE_SIZE))
            &&& w.available
            &&& w.state.meta.total_pages == v.state.meta.total_pages
            &&& w.state.meta.free_count == v.state.meta.free_count - count
        } else {
            &&& task is Grow
            &&& request == Request::SetLen((2 * v.state.meta.total_pages * PAGE_SIZE) as u64)
            &&& !w.available
            &&& w.state.meta.free_count == 0
        },
{
    let m = v.state.meta;
    lemma_take_len(m, count as nat);
    lemma_take_frame(m, count as nat);
    lemma_take_count(m, count as nat);
}

/// Every page that is handed out is one less that is free.
proof fn lemma_take_count(m: MetaView, n: nat)
    requires
        m.accurate(),
    ensures
        m.take(n).0.free_count == m.free_count - m.take(n).1.len(),
    decreases n,
{
    if n > 0 {
        law_free_count_decides(m);
        if let Some(id) = m.lowest_free() {
            law_mark_is_accurate(m, id);
            lemma_take_count(m.mark(id), (n - 1) as nat);
        }
    }
}

/// While an allocation of several pages waits for the file to grow, it asks for what the
/// growth asks for.  Once the file is doubled, it is doubled again only if there are still
/// not pages enough.  If the growth fails, that is reported, and the pager is available or
/// not as the growth left it.
pub proof fn law_bulk_alloc_follows_growth<const PAGE_SIZE: usize>(
    v: PagerView,
    task: AllocBulkTask<PAGE_SIZE>,
    event: IoEvent,
    w: PagerView,
    turn: Turn<Vec<PageId<PAGE_SIZE>>, AllocBulkTask<PAGE_SIZE>>,
)
    requires
        task is Grow,
        task.belongs_to(v),
        v.state.meta.accurate(),
        v.alloc_bulk_resumed(task, event, w, turn),
    ensures
        ({
            let reserve = task->Grow_0;
            let (u, grown) = v.grow_next(reserve.grow, event, PAGE_SIZE);
            let missing = reserve.want - reserve.got@.len();
            match grown {
                GrowTurn::Ask(request, next) => {
                    &&& w == u
                    &&& turn matches Turn::Ask(asked, AllocBulkTask::Grow(t))
                    &&& asked == request
                    &&& t.got@ == reserve.got@
                    &&& t.want == reserve.want
                    &&& t.grow == next
                },
                GrowTurn::Failed(e) => {
                    &&& w.available == u.available
                    &&& turn == Turn::<Vec<PageId<PAGE_SIZE>>, AllocBulkTask<PAGE_SIZE>>::Done(
                        Err(e),
                    )
                },
                GrowTurn::Grown => {
                    &&& turn matches Turn::Ask(_, t)
                    &&& t is Commit <==> missing <= u.state.meta.free_count
                    &&& w.available <==> t is Commit
                },
            }
        }),
{
    let reserve = task->Grow_0;
    let (u, grown) = v.grow_next(reserve.grow, event, PAGE_SIZE);
    if grown is Grown {
        law_grown_is_accurate(v.state.meta, (2 * v.state.meta.total_pages) as u64);
        lemma_take_len(u.state.meta, (reserve.want - reserve.got@.len()) as nat);
    }
}

/// Once the pages are reserved, the allocation of several pages ends with their handles if
/// the commit is carried out; the other metadata page is then active.  If it fails, that is
/// reported, and nothing changes.
pub proof fn law_bulk_alloc_ends<const PAGE_SIZE: usize>(
    v: PagerView,
    pages: Vec<PageId<PAGE_SIZE>>,
    event: IoEvent,
    w: PagerView,
    turn: Turn<Vec<PageId<PAGE_SIZE>>, AllocBulkTask<PAGE_SIZE>>,
)
    requires
        v.alloc_bulk_resumed(AllocBulkTask::Commit(pages), event, w, turn),
    ensures
        w.available == v.available,
        w.state.meta == v.state.meta,
        w.state.blocks == v.state.blocks,
        w.state.dirs == v.state.dirs,
        match event {
            IoEvent::Done => {
                &&& turn matches Turn::Done(Ok(got))
                &&& got@ == pages@
                &&& w.state.active != v.state.active
            },
            IoEvent::Failed { error, .. } => {
                &&& turn == Turn::<Vec<PageId<PAGE_SIZE>>, AllocBulkTask<PAGE_SIZE>>::Done(
                    Err(MappedPageError::Io(error)),
                )
                &&& w == v
            },
        },
{
}

/// The doubling of a file that failed has a failed event behind it.
pub open spec fn fails_before(
    events: Seq<IoEvent>,
    grow: GrowTask,
    i: int,
) -> bool {
    grow is SetLen || grow is Remap || exists|k: int| 0 <= k < i && #[trigger] events[k] is Failed
}

proof fn lemma_bulk_alloc_fails<const PAGE_SIZE: usize>(
    v: PagerView,
    count: usize,
    views: Seq<PagerView>,
    turns: Seq<Turn<Vec<PageId<PAGE_SIZE>>, AllocBulkTask<PAGE_SIZE>>>,
    events: Seq<IoEvent>,
    i: int,
)
    requires
        v.available,
        v.state.meta.accurate(),
        bulk_alloc_run(v, count, views, turns, events),
        0 <= i < turns.len(),
    ensures
        turns[i] matches Turn::Done(Err(e)) ==> e is Io && exists|k: int|
            0 <= k < i && #[trigger] events[k] is Failed,
        turns[i] matches Turn::Ask(_, AllocBulkTask::Grow(task)) ==> fails_before(
            events,
            task.grow,
            i,
        ),
    decreases i,
{
    if i > 0 {
        lemma_bulk_alloc_fails(v, count, views, turns, events, i - 1);
        assert(bulk_alloc_goes_on(views, turns, events, i - 1));
        let u = views[i - 1];
        if events[i - 1] is Done {
            if let AllocBulkTask::Grow(task) = turns[i - 1]->Ask_1 {
                if !(task.grow is SetLen || task.grow is Remap) {
                    let k = choose|k: int| 0 <= k < i - 1 && #[trigger] events[k] is Failed;
                    assert(0 <= k < i && events[k] is Failed);
                }
            }
        }
    }
}

// ── Growth ────────────────────────────────────────────────────────────────────

/// A doubling makes the file longer and then maps it; once both are carried out, the file
/// has twice the pages and the pager is available again.
pub proof fn law_growth_succeeds(v: PagerView, page_size: usize)
    ensures
        ({
            let (w, first) = v.grow_next(GrowTask::SetLen, IoEvent::Done, page_size);
            let (u, second) = w.grow_next(GrowTask::Remap, IoEvent::Done, page_size);
            &&& first == GrowTurn::Ask(Request::Remap, GrowTask::Remap)
            &&& w == v
            &&& second is Grown
            &&& u.available
            &&& u.state.meta == v.state.meta.doubled()
            &&& u.state.active == v.state.active
            &&& u.state.blocks == v.state.blocks
            &&& u.state.dirs == v.state.dirs
        }),
{
}

/// If the file cannot be made longer, it is mapped as it was, and the pager is available
/// again if that succeeds.  If the longer file cannot be mapped, it is made as short as it
/// was, and the pager stays unavailable.  Either way the first failure is reported, unless
/// mapping the file as it was fails as well, and the pages are as before.
pub proof fn law_growth_fails(
    v: PagerView,
    page_size: usize,
    completed: usize,
    error: std::io::Error,
    event: IoEvent,
)
    requires
        !v.available,
    ensures
        ({
            let failed = IoEvent::Failed { completed, error };
            let (w, turn) = v.grow_next(GrowTask::SetLen, failed, page_size);
            let (u, end) = v.grow_next(GrowTask::Restore(error), event, page_size);
            &&& w == v
            &&& turn == GrowTurn::Ask(Request::Remap, GrowTask::Restore(error))
            &&& u.state == v.state
            &&& u.available <==> event is Done
            &&& end == GrowTurn::Failed(
                MappedPageError::Io(
                    match event {
                        IoEvent::Done => error,
                        IoEvent::Failed { error: second, .. } => second,
                    },
                ),
            )
        }),
        ({
            let failed = IoEvent::Failed { completed, error };
            let (w, turn) = v.grow_next(GrowTask::Remap, failed, page_size);
            let (u, end) = v.grow_next(GrowTask::Rollback(error), event, page_size);
            &&& w == v
            &&& turn == GrowTurn::Ask(
                Request::SetLen((v.state.meta.total_pages * page_size) as u64),
                GrowTask::Rollback(error),
            )
            &&& u == v
            &&& end == GrowTurn::Failed(MappedPageError::Io(error))
        }),
{
}

// ── Allocating a page ─────────────────────────────────────────────────────────

/// An allocation of a page that is carried out on the pager `v`: after each turn but the
/// last, what is asked for went as the next event says.
pub open spec fn alloc_run<const PAGE_SIZE: usize>(
    v: PagerView,
    views: Seq<PagerView>,
    turns: Seq<Turn<PageId<PAGE_SIZE>, AllocTask<PAGE_SIZE>>>,
    events: Seq<IoEvent>,
) -> bool {
    &&& views.len() == turns.len()
    &&& turns.len() == events.len() + 1
    &&& v.alloc_begun(views[0], turns[0])
    &&& forall|i: int| 0 <= i < turns.len() ==> #[trigger] alloc_belongs(views, turns, i)
    &&& forall|i: int| 0 <= i < events.len() ==> #[trigger] alloc_goes_on(views, turns, events, i)
}

/// What turn `i` asks for belongs to the pager as it then is.
pub open spec fn alloc_belongs<const PAGE_SIZE: usize>(
    views: Seq<PagerView>,
    turns: Seq<Turn<PageId<PAGE_SIZE>, AllocTask<PAGE_SIZE>>>,
    i: int,
) -> bool {
    turns[i] matches Turn::Ask(_, task) ==> task.belongs_to(views[i])
}

/// Turn `i` asks for something, and after event `i` the next turn follows.
pub open spec fn alloc_goes_on<const PAGE_SIZE: usize>(
    views: Seq<PagerView>,
    turns: Seq<Turn<PageId<PAGE_SIZE>, AllocTask<PAGE_SIZE>>>,
    events: Seq<IoEvent>,
    i: int,
) -> bool {
    &&& turns[i] matches Turn::Ask(_, task)
    &&& views[i].alloc_resumed(task, events[i], views[i + 1], turns[i + 1])
}

/// Page `id` is a data page of the file that is free in `v` and allocated in `w`; no other
/// page changes; and it is the lowest that was free, or the first that is new if none was.
pub open spec fn takes_lowest(v: MetaView, w: MetaView, id: u64) -> bool {
    &&& FIRST_DATA_PAGE <= id < w.total_pages
    &&& !v.allocated(id as int)
    &&& forall|j: int| #[trigger] w.allocated(j) <==> v.allocated(j) || j == id
    &&& forall|j: int| 0 <= j < id ==> #[trigger] v.allocated(j)
    &&& if id < v.total_pages {
        &&& w.total_pages == v.total_pages
        &&& w.free_count == v.free_count - 1
    } else {
        &&& id == v.total_pages
        &&& w.total_pages == 2 * v.total_pages
        &&& w.free_count == v.total_pages - 1
    }
}

/// How far the allocation of a page has come.
spec fn alloc_so_far<const PAGE_SIZE: usize>(
    v: PagerView,
    u: PagerView,
    turn: Turn<PageId<PAGE_SIZE>, AllocTask<PAGE_SIZE>>,
) -> bool {
    match turn {
        Turn::Ask(request, AllocTask::Grow(grow)) => {
            &&& u.state == v.state
            &&& !u.available
            &&& v.state.meta.lowest_free() is None
            &&& !(request is Apply)
        },
        Turn::Ask(request, AllocTask::Commit(id)) => {
            &&& request@ == RequestView::Apply(u.state.commit_plan(PAGE_SIZE))
            &&& alloc_complete(v, u, id)
            &&& u.state.active == v.state.active
        },
        Turn::Done(Ok(id)) => {
            &&& alloc_complete(v, u, id)
            &&& u.state.active == v.state.active.other()
        },
        Turn::Done(Err(e)) => {
            &&& e is Io
            &&& u.state == v.state || exists|id: PageId<PAGE_SIZE>| #[trigger]
                alloc_complete(v, u, id) && u.state.active == v.state.active
        },
    }
}

spec fn alloc_complete<const PAGE_SIZE: usize>(
    v: PagerView,
    u: PagerView,
    id: PageId<PAGE_SIZE>,
) -> bool {
    &&& takes_lowest(v.state.meta, u.state.meta, id.0)
    &&& u.state.meta.accurate()
    &&& u.state.meta.generation == v.state.meta.generation + 1
    &&& u.state.blocks == v.state.blocks
    &&& u.state.dirs == v.state.dirs
    &&& u.available
}

proof fn lemma_alloc_next<const PAGE_SIZE: usize>(
    v: PagerView,
    g: PagerView,
    w: PagerView,
    turn: Turn<PageId<PAGE_SIZE>, AllocTask<PAGE_SIZE>>,
)
    requires
        v.state.meta.accurate(),
        v.state.meta.generation < u64::MAX,
        g.available,
        g.state == v.state || {
            &&& v.state.meta.lowest_free() is None
            &&& 2 * v.state.meta.total_pages <= u64::MAX
            &&& g.state == (StateView { meta: v.state.meta.doubled(), ..v.state })
        },
        g.alloc_next(w, turn),
    ensures
        alloc_so_far(v, w, turn),
        turn is Ask,
{
    let m = v.state.meta;
    let k = g.state.meta;
    if g.state != v.state {
        law_grown_is_accurate(m, (2 * m.total_pages) as u64);
    }
    law_free_count_decides(m);
    law_next_page_is_the_lowest_free(m);
    law_next_page_is_the_lowest_free(k);
    if let Some(id) = k.lowest_free() {
        law_mark_is_accurate(k, id);
        let e = w.state.meta;
        assert(e.accurate());
        assert(!m.allocated(id as int)) by {
            assert(!k.allocated(id as int));
        }
        assert forall|j: int| #[trigger] e.allocated(j) <==> m.allocated(j) || j == id by {
            assert(k.mark(id).allocated(j) <==> j == id || k.allocated(j));
            assert(e.allocated(j) == k.mark(id).allocated(j));
        }
        assert forall|j: int| 0 <= j < id implies #[trigger] m.allocated(j) by {
            assert(k.allocated(j));
        }
        if g.state != v.state {
            if id < m.total_pages {
                assert(m.allocated(id as int));
            }
            if id > m.total_pages {
                assert(k.allocated(m.total_pages as int));
                assert(m.allocated(m.total_pages as int));
            }
        }
        assert(alloc_complete(v, w, PageId::<PAGE_SIZE>(id)));
    }
}

proof fn lemma_alloc_run<const PAGE_SIZE: usize>(
    v: PagerView,
    views: Seq<PagerView>,
    turns: Seq<Turn<PageId<PAGE_SIZE>, AllocTask<PAGE_SIZE>>>,
    events: Seq<IoEvent>,
    i: int,
)
    requires
        v.available,
        v.state.meta.accurate(),
        v.state.meta.generation < u64::MAX,
        alloc_run(v, views, turns, events),
        0 <= i < turns.len(),
    ensures
        alloc_so_far(v, views[i], turns[i]),
        turns[i] matches Turn::Done(Err(_)) ==> exists|k: int|
            0 <= k < i && #[trigger] events[k] is Failed,
        turns[i] matches Turn::Ask(_, AllocTask::Grow(grow)) ==> fails_before(events, grow, i),
        i == 0 ==> turns[i] is Ask,
    decreases i,
{
    if i == 0 {
        lemma_alloc_next(v, v, views[0], turns[0]);
    } else {
        lemma_alloc_run(v, views, turns, events, i - 1);
        assert(alloc_goes_on(views, turns, events, i - 1));
        assert(alloc_belongs(views, turns, i - 1));
        let u = views[i - 1];
        match turns[i - 1]->Ask_1 {
            AllocTask::Grow(grow) => {
                let (g, grown) = u.grow_next(grow, events[i - 1], PAGE_SIZE);
                if grown is Grown {
                    lemma_alloc_next(v, g, views[i], turns[i]);
                }
                if events[i - 1] is Done && !(grow is SetLen || grow is Remap) {
                    let k = choose|k: int| 0 <= k < i - 1 && #[trigger] events[k] is Failed;
                    assert(0 <= k < i && events[k] is Failed);
                }
            },
            AllocTask::Commit(id) => {
                if events[i - 1] is Done {
                    assert(views[i].state.meta == u.state.meta);
                } else {
                    assert(alloc_complete(v, views[i], id));
                }
            },
        }
    }
}

/// An allocation of a page that succeeds takes the lowest page that was free, or the first
/// new page of a file that was doubled because none was, and changes no other page.  It
/// fails only if something that it asked for failed.  If a page is free, it asks for its
/// commit alone; else for a longer file, for its map, and for the commit.
pub proof fn law_alloc_takes_the_lowest<const PAGE_SIZE: usize>(
    v: PagerView,
    views: Seq<PagerView>,
    turns: Seq<Turn<PageId<PAGE_SIZE>, AllocTask<PAGE_SIZE>>>,
    events: Seq<IoEvent>,
)
    requires
        v.available,
        v.state.meta.accurate(),
        v.state.meta.generation < u64::MAX,
        alloc_run(v, views, turns, events),
    ensures
        match turns.last() {
            Turn::Done(Ok(id)) => {
                let w = views.last();
                &&& takes_lowest(v.state.meta, w.state.meta, id.0)
                &&& w.state.meta.accurate()
                &&& w.state.meta.generation == v.state.meta.generation + 1
                &&& w.state.blocks == v.state.blocks
                &&& w.state.dirs == v.state.dirs
                &&& w.state.active == v.state.active.other()
                &&& w.available
            },
            Turn::Done(Err(e)) => {
                &&& e is Io
                &&& exists|i: int| 0 <= i < events.len() && #[trigger] events[i] is Failed
            },
            Turn::Ask(request, AllocTask::Commit(id)) => {
                &&& request@ == RequestView::Apply(views.last().state.commit_plan(PAGE_SIZE))
                &&& takes_lowest(v.state.meta, views.last().state.meta, id.0)
            },
            Turn::Ask(request, AllocTask::Grow(_)) => {
                &&& !(request is Apply)
                &&& views.last().state == v.state
                &&& v.state.meta.free_count == 0
            },
        },
        v.state.meta.free_count > 0 && turns.len() == 2 ==> turns[1] is Done,
        turns.len() == 1 ==> turns[0] is Ask,
        v.state.meta.free_count == 0 ==> (turns[0] matches Turn::Ask(request, _) && request
            == Request::SetLen((2 * v.state.meta.total_pages * PAGE_SIZE) as u64)),
        turns.len() == 4 && (forall|i: int| 0 <= i < 3 ==> #[trigger] events[i] is Done)
            ==> turns[3] is Done,
{
    law_free_count_decides(v.state.meta);
    let last = turns.len() - 1;
    lemma_alloc_run(v, views, turns, events, last);
    if turns.len() == 2 {
        lemma_alloc_run(v, views, turns, events, 0);
        assert(alloc_goes_on(views, turns, events, 0));
    }
    if turns.len() == 4 && (forall|i: int| 0 <= i < 3 ==> #[trigger] events[i] is Done) {
        lemma_alloc_steps(v, views, turns, events);
    }
}

proof fn lemma_alloc_steps<const PAGE_SIZE: usize>(
    v: PagerView,
    views: Seq<PagerView>,
    turns: Seq<Turn<PageId<PAGE_SIZE>, AllocTask<PAGE_SIZE>>>,
    events: Seq<IoEvent>,
)
    requires
        v.available,
        v.state.meta.accurate(),
        v.state.meta.generation < u64::MAX,
        alloc_run(v, views, turns, events),
        turns.len() == 4,
        forall|i: int| 0 <= i < 3 ==> #[trigger] events[i] is Done,
    ensures
        turns[3] is Done,
{
    assert(events[0] is Done && events[1] is Done && events[2] is Done);
    lemma_alloc_run(v, views, turns, events, 0);
    lemma_alloc_run(v, views, turns, events, 1);
    lemma_alloc_run(v, views, turns, events, 2);
    assert(alloc_goes_on(views, turns, events, 0));
    assert(alloc_goes_on(views, turns, events, 1));
    assert(alloc_goes_on(views, turns, events, 2));
    assert(alloc_belongs(views, turns, 1));
    if turns[2]->Ask_1 is Grow {
        let (g, grown) = views[1].grow_next(GrowTask::Remap, events[1], PAGE_SIZE);
        assert(grown is Grown);
        assert(g.state.meta.lowest_free() is Some);
    }
}

/// While an allocation waits for the file to grow, it asks for what the growth asks for.
/// Once the file is doubled, it asks for the commit of its page.  If the growth fails, that
/// is reported, and nothing else changes.
pub proof fn law_alloc_follows_growth<const PAGE_SIZE: usize>(
    v: PagerView,
    grow: GrowTask,
    event: IoEvent,
    w: PagerView,
    turn: Turn<PageId<PAGE_SIZE>, AllocTask<PAGE_SIZE>>,
)
    requires
        grow.belongs_to(v, PAGE_SIZE),
        v.state.meta.accurate(),
        v.alloc_resumed(AllocTask::Grow(grow), event, w, turn),
    ensures
        ({
            let (u, grown) = v.grow_next(grow, event, PAGE_SIZE);
            match grown {
                GrowTurn::Ask(request, next) => {
                    &&& w == u
                    &&& turn == Turn::<PageId<PAGE_SIZE>, AllocTask<PAGE_SIZE>>::Ask(
                        request,
                        AllocTask::Grow(next),
                    )
                },
                GrowTurn::Failed(e) => {
                    &&& w == u
                    &&& turn == Turn::<PageId<PAGE_SIZE>, AllocTask<PAGE_SIZE>>::Done(Err(e))
                },
                GrowTurn::Grown => {
                    &&& turn matches Turn::Ask(_, AllocTask::Commit(_))
                    &&& w.available
                },
            }
        }),
{
    law_grown_is_accurate(v.state.meta, (2 * v.state.meta.total_pages) as u64);
}

/// Once its page is marked, an allocation ends with its handle if the commit is carried out;
/// the other metadata page is then active.  If it fails, that is reported, and nothing
/// changes.
pub proof fn law_alloc_ends<const PAGE_SIZE: usize>(
    v: PagerView,
    id: PageId<PAGE_SIZE>,
    event: IoEvent,
    w: PagerView,
    turn: Turn<PageId<PAGE_SIZE>, AllocTask<PAGE_SIZE>>,
)
    requires
        v.alloc_resumed(AllocTask::Commit(id), event, w, turn),
    ensures
        w.available == v.available,
        w.state.meta == v.state.meta,
        w.state.blocks == v.state.blocks,
        w.state.dirs == v.state.dirs,
        match event {
            IoEvent::Done => {
                &&& turn == Turn::<PageId<PAGE_SIZE>, AllocTask<PAGE_SIZE>>::Done(Ok(id))
                &&& w.state.active != v.state.active
            },
            IoEvent::Failed { error, .. } => {
                &&& turn == Turn::<PageId<PAGE_SIZE>, AllocTask<PAGE_SIZE>>::Done(
                    Err(MappedPageError::Io(error)),
                )
                &&& w == v
            },
        },
{
}

/// Without a map the lowest free page is marked all the same, as a new generation, though
/// the allocation fails.
pub proof fn law_alloc_without_a_map<const PAGE_SIZE: usize>(
    v: PagerView,
    w: PagerView,
    turn: Turn<PageId<PAGE_SIZE>, AllocTask<PAGE_SIZE>>,
    j: int,
)
    requires
        !v.available,
        v.state.meta.accurate(),
        v.state.meta.generation < u64::MAX,
        v.alloc_begun(w, turn),
    ensures
        ({
            let (m, k) = (v.state.meta, w.state.meta);
            let low = m.lowest_free();
            &&& m.free_count == 0 ==> w == v
            &&& m.free_count > 0 ==> {
                &&& k.allocated(j) <==> m.allocated(j) || j == low->0
                &&& k.free_count == m.free_count - 1
                &&& k.generation == m.generation + 1
                &&& k.total_pages == m.total_pages
                &&& w.state.active == v.state.active
                &&& !w.available
            }
        }),
{
    law_free_count_decides(v.state.meta);
    if let Some(id) = v.state.meta.lowest_free() {
        law_next_page_is_the_lowest_free(v.state.meta);
        law_one_bit_changes(v.state.meta, id, j);
        assert(v.state.meta.mark(id).bumped().allocated(j) == v.state.meta.mark(id).allocated(j));
    }
}

/// Without a map an allocated data page is marked as free all the same, as a new generation,
/// though the release fails; of any other page nothing changes.
pub proof fn law_free_without_a_map(
    v: PagerView,
    id: u64,
    page_size: usize,
    w: PagerView,
    turn: Turn<(), FreeTask>,
)
    requires
        !v.available,
        v.state.meta.well_sized(),
        v.can_free(id),
        v.free_next(id, page_size, w, turn),
    ensures
        turn == Turn::<(), FreeTask>::Done(Err(MappedPageError::Unavailable)),
        !is_data_page(v.state.meta, id) ==> w == v,
        is_data_page(v.state.meta, id) ==> {
            &&& frees_only(v.state.meta, w.state.meta, id as int)
            &&& w.state.meta.free_count == v.state.meta.free_count + 1
            &&& w.state.meta.generation == v.state.meta.generation + 1
            &&& w.state.meta.total_pages == v.state.meta.total_pages
        },
{
    let m = v.state.meta;
    if is_data_page(m, id) {
        assert forall|j: int| #[trigger] w.state.meta.allocated(j) <==> m.allocated(j) && j
            != id by {
            law_one_bit_changes(m, id, j);
            assert(m.release(id).bumped().allocated(j) == m.release(id).allocated(j));
        }
    }
}

/// Without a map nothing is allocated or freed for good: every operation on pages ends at
/// once and says so.
pub proof fn law_unavailable_pager_refuses<const PAGE_SIZE: usize>(
    v: PagerView,
    w: PagerView,
    turn: Turn<PageId<PAGE_SIZE>, AllocTask<PAGE_SIZE>>,
    count: usize,
    w2: PagerView,
    turn2: Turn<Vec<PageId<PAGE_SIZE>>, AllocBulkTask<PAGE_SIZE>>,
)
    requires
        !v.available,
        v.alloc_begun(w, turn),
        v.alloc_bulk_begun(count, w2, turn2),
    ensures
        turn == Turn::<PageId<PAGE_SIZE>, AllocTask<PAGE_SIZE>>::Done(
            Err(MappedPageError::Unavailable),
        ),
        !w.available,
        w.state.blocks == v.state.blocks,
        w.state.dirs == v.state.dirs,
        turn2 == Turn::<Vec<PageId<PAGE_SIZE>>, AllocBulkTask<PAGE_SIZE>>::Done(
            Err(MappedPageError::Unavailable),
        ),
        w2 == v,
{
}

/// Where a page is free or the file can be doubled, and there is a next generation, a page
/// can be allocated.
pub proof fn law_alloc_may_begin(v: PagerView, page_size: usize)
    requires
        v.state.meta.accurate(),
        v.state.meta.generation < u64::MAX,
    ensures
        v.available ==> (v.can_alloc(page_size) <==> v.state.meta.free_count > 0
            || v.state.meta.growable(page_size)),
        !v.available ==> v.can_alloc(page_size),
{
    let m = v.state.meta;
    law_free_count_decides(m);
    if m.free_count > 0 {
        law_free_pages_can_be_taken(m, 1, page_size);
    } else {
        law_more_pages_need_growth(m, 1, page_size);
        if m.growable(page_size) {
            law_grown_is_accurate(m, (2 * m.total_pages) as u64);
            law_free_pages_can_be_taken(m.doubled(), 1, page_size);
        }
    }
}

// ── A new file ────────────────────────────────────────────────────────────────

/// A new file has four pages: the first three are reserved, and the fourth is free.  It
/// has no directory, and its first metadata page is active.
pub proof fn law_new_file(j: int)
    ensures
        ({
            let s = StateView::fresh();
            &&& s.meta.total_pages == 4
            &&& s.meta.free_count == 1
            &&& s.meta.generation == 0
            &&& s.meta.allocated(j) <==> 0 <= j < 3
            &&& s.blocks.len() == 0
            &&& s.dirs.len() == 0
            &&& s.active is A
        }),
{
    let m = MetaView::fresh(4);
    crate::meta::law_fresh_is_accurate(4);
    law_next_page_is_the_lowest_free(m);
    assert(m.lowest_free() == Some(3u64));
    if 0 <= j < 3 {
        assert(m.allocated(j));
    }
}

/// The metadata of a new file of any length: the first three pages are allocated, as far as
/// they exist, all others are free, and those are counted.
pub proof fn law_new_metadata(total: u64, j: int)
    ensures
        ({
            let m = MetaView::fresh(total);
            &&& m.total_pages == total
            &&& m.generation == 0
            &&& m.free_count == if total <= 3 {
                0
            } else {
                total - 3
            }
            &&& m.bitmap.len() == (total + 7) / 8
            &&& m.allocated(j) <==> 0 <= j < 3 && j < total
        }),
{
    let m = MetaView::fresh(total);
    assert(m.well_sized());
    if 0 <= j < total {
        if j < 8 {
            let k = j as u8;
            assert(j / 8 == 0 && j % 8 == j);
            assert(k < 8 ==> ((7u8 >> k) & 1u8 == 1u8 <==> k < 3) && (k < 2 ==> (3u8 >> k) & 1u8
                == 1u8) && (k < 1 ==> (1u8 >> k) & 1u8 == 1u8)) by (bit_vector);
        } else {
            crate::bitmap::lemma_zero_byte(m.bitmap, j);
        }
    }
}

/// Metadata that are made to cover another number of pages keep the bits of those that both
/// have, the bits of the others are clear, and pages that are new are counted as free.
pub proof fn law_metadata_of_another_length(m: MetaView, total: u64, i: int)
    requires
        m.free_count + total <= u64::MAX,
    ensures
        ({
            let g = m.grown(total);
            &&& g.total_pages == total
            &&& g.generation == m.generation
            &&& g.free_count == if total <= m.total_pages {
                m.free_count as int
            } else {
                m.free_count + (total - m.total_pages)
            }
            &&& g.bitmap.len() == (total + 7) / 8
            &&& 0 <= i < g.bitmap.len() ==> g.bitmap[i] == if i < m.bitmap.len() {
                m.bitmap[i]
            } else {
                0u8
            }
        }),
{
}

} // verus!
