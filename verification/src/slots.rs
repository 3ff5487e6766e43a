//! What the operations on protected pages are for: which slots of the directory and which
//! pages they take and give back, when they succeed, and what each failure means.

use vstd::prelude::*;

use crate::bulk::{BulkFreeStep, BulkStep};
use crate::bytes::page_of;
use crate::checksum::crc32_of;
use crate::directory::{DirEntry, DirView, spec_dir_entries_per_page, spec_max_dir_blocks};
use crate::effects::{
    fails_before, lemma_reserved_doubled, lemma_reserving, lemma_take_len, reserved_so_far,
};
use crate::error::MappedPageError;
use crate::growth::{among, filled_below, lemma_take_frame, lemma_take_order};
use crate::image::{StateView, valid_page_size};
use crate::live::lemma_handle_of_slot;
use crate::meta::{
    FIRST_DATA_PAGE, MetaSelector, MetaView, law_grown_is_accurate, law_release_is_accurate,
};
use crate::ownership::Owner;
use crate::pager::PagerView;
use crate::protected::{
    AllocProtectedTask, AllocProtectedTaskView, FreeProtectedTask, Place, ProtectedPageId,
    WriteTask, addressable, protected_numbers,
};
use crate::task::{
    GrowTurn, IoEvent, RequestView, ReserveTask, ReserveTaskView, ReserveTurnView, Turn,
};

verus! {

// ── Slots ─────────────────────────────────────────────────────────────────────

/// How many entries a directory page has room for, behind a header of 8 bytes and before
/// a checksum of 4, and how many references page 0 has room for, behind 20 bytes of
/// superblock and a count of 4 and before a checksum of 4.
pub proof fn law_directory_sizes(page_size: usize)
    requires
        1024 <= page_size,
    ensures
        ({
            let n = spec_dir_entries_per_page(page_size);
            8 + 30 * n + 4 <= page_size < 8 + 30 * (n + 1) + 4
        }),
        ({
            let n = spec_max_dir_blocks(page_size);
            20 + 4 + 17 * n + 4 <= page_size < 20 + 4 + 17 * (n + 1) + 4
        }),
{
}

/// Page sizes up to 64 GiB are addressable.
pub proof fn law_addressable_sizes(page_size: usize)
    requires
        page_size <= 0x10_0000_0000,
    ensures
        addressable(page_size),
{
}

/// Slot `slot` of directory block `block` exists and holds a protected page.
pub open spec fn holds_page(s: StateView, block: int, slot: int) -> bool {
    &&& 0 <= block < s.dirs.len()
    &&& 0 <= slot < s.dirs[block].entries.len()
    &&& s.dirs[block].entries[slot].in_use
}

/// Every slot of every directory block holds a protected page.
pub open spec fn all_slots_taken(s: StateView) -> bool {
    forall|block: int, slot: int|
        0 <= block < s.dirs.len() && 0 <= slot < s.dirs[block].entries.len()
            ==> #[trigger] s.dirs[block].entries[slot].in_use
}

/// A handle counts the slots of the directory, a fixed number for each block: it names the
/// protected page in its slot, if that exists and holds one.
pub proof fn law_handle_names_a_slot(s: StateView, id: u64, page_size: usize)
    requires
        1024 <= page_size,
    ensures
        ({
            let n = (page_size - 12) / 30;
            let block = id as int / n;
            let slot = id as int % n;
            &&& s.protected_refusal(id, page_size) is None <==> holds_page(s, block, slot)
            &&& s.protected_refusal(id, page_size) matches Some(e) ==> e
                == MappedPageError::OutOfBounds
            &&& s.entry(id, page_size) matches Some(e) ==> e == s.dirs[block].entries[slot]
            &&& s.entry(id, page_size) is Some <==> 0 <= block < s.dirs.len() && slot
                < s.dirs[block].entries.len()
        }),
{
    vstd::arithmetic::div_mod::lemma_mod_bound(id as int, (page_size - 12) / 30);
}

/// A protected page can be borrowed exactly where the pager is available and the slot of
/// the handle holds one.  What is read is the active copy, and what is written is the
/// other one.
pub proof fn law_protected_page_can_be_borrowed(v: PagerView, id: u64, page_size: usize)
    requires
        1024 <= page_size,
    ensures
        ({
            let n = (page_size - 12) / 30;
            let (block, slot) = (id as int / n, id as int % n);
            let e = v.state.dirs[block].entries[slot];
            let held = holds_page(v.state, block, slot);
            &&& v.protected_refusal(id, page_size) == if !v.available {
                Some(MappedPageError::Unavailable)
            } else if !held {
                Some(MappedPageError::OutOfBounds)
            } else {
                None
            }
            &&& held && e.active_slot == 0 ==> {
                &&& v.state.active_copy(id, page_size) == e.page_a
                &&& v.state.inactive_copy(id, page_size) == e.page_b
                &&& v.state.inactive_slot(id, page_size) == 1
            }
            &&& held && e.active_slot == 1 ==> {
                &&& v.state.active_copy(id, page_size) == e.page_b
                &&& v.state.inactive_copy(id, page_size) == e.page_a
                &&& v.state.inactive_slot(id, page_size) == 0
            }
        }),
{
    law_handle_names_a_slot(v.state, id, page_size);
}

// ── Finding a place ───────────────────────────────────────────────────────────

/// What is searched for in a directory page is its lowest free slot.
proof fn lemma_free_slot_is_lowest(d: DirView, from: int)
    requires
        0 <= from,
    ensures
        match d.free_slot_from(from) {
            Some(slot) => {
                &&& from <= slot < d.entries.len()
                &&& !d.entries[slot].in_use
                &&& forall|k: int| from <= k < slot ==> (#[trigger] d.entries[k]).in_use
            },
            None => forall|k: int|
                from <= k < d.entries.len() ==> (#[trigger] d.entries[k]).in_use,
        },
    decreases d.entries.len() - from,
{
    if from < d.entries.len() && d.entries[from].in_use {
        lemma_free_slot_is_lowest(d, from + 1);
    }
}

proof fn lemma_open_slot_is_lowest(s: StateView, from: int)
    requires
        0 <= from,
    ensures
        match s.open_slot_from(from) {
            Some((block, slot)) => {
                &&& from <= block < s.dirs.len()
                &&& 0 <= slot < s.dirs[block].entries.len()
                &&& !s.dirs[block].entries[slot].in_use
                &&& forall|b: int, k: int|
                    from <= b <= block && 0 <= k < s.dirs[b].entries.len() && (b < block || k
                        < slot) ==> (#[trigger] s.dirs[b].entries[k]).in_use
            },
            None => forall|b: int, k: int|
                from <= b < s.dirs.len() && 0 <= k < s.dirs[b].entries.len()
                    ==> (#[trigger] s.dirs[b].entries[k]).in_use,
        },
    decreases s.dirs.len() - from,
{
    if from < s.dirs.len() {
        lemma_free_slot_is_lowest(s.dirs[from], 0);
        if s.dirs[from].free_slot() is None {
            lemma_open_slot_is_lowest(s, from + 1);
        }
    }
}

/// A new protected page is entered in the lowest free slot.  Where every slot is taken, it
/// gets a new directory block, if page 0 has room for one more reference of 17 bytes; it
/// is refused, with the directory full, exactly where it has none.
pub proof fn law_place_for_a_page(s: StateView, page_size: usize)
    requires
        1024 <= page_size,
        s.wf(page_size),
    ensures
        ({
            let room = 28 + 17 * (s.blocks.len() + 1) <= page_size;
            match s.place(page_size) {
                Ok(Place::Slot { block, slot }) => {
                    &&& !all_slots_taken(s)
                    &&& block < s.dirs.len()
                    &&& slot < s.dirs[block as int].entries.len()
                    &&& !s.dirs[block as int].entries[slot as int].in_use
                    &&& forall|b: int, k: int|
                        0 <= b <= block && 0 <= k < s.dirs[b].entries.len() && (b < block || k
                            < slot) ==> (#[trigger] s.dirs[b].entries[k]).in_use
                },
                Ok(Place::NewBlock) => all_slots_taken(s) && room,
                Err(e) => e == MappedPageError::DirectoryFull && all_slots_taken(s) && !room,
            }
        }),
        !all_slots_taken(s) || 28 + 17 * (s.blocks.len() + 1) <= page_size <==> s.place(
            page_size,
        ) is Ok,
        s.place(page_size) matches Ok(place) ==> (place.pages() == if all_slots_taken(s) {
            4int
        } else {
            2int
        }),
{
    lemma_open_slot_is_lowest(s, 0);
    crate::ownership::lemma_wf_sizes(s, page_size);
    if let Some((block, slot)) = s.open_slot_from(0) {
        assert(!s.dirs[block].entries[slot].in_use);
        assert(s.dirs[block].entries.len() <= usize::MAX);
    }
}

/// On an available pager an allocation of a protected page is refused exactly where every
/// slot of every directory block is taken and the directory has as many blocks as page 0
/// has room for; it is then refused as full, and nothing changes.  Wherever a slot is free
/// or there is room for one more block, it begins.
pub proof fn law_protected_alloc_begins<const PAGE_SIZE: usize>(
    v: PagerView,
    w: PagerView,
    turn: Turn<ProtectedPageId<PAGE_SIZE>, AllocProtectedTask>,
)
    requires
        1024 <= PAGE_SIZE,
        v.state.wf(PAGE_SIZE),
        v.alloc_protected_begun(w, turn),
    ensures
        ({
            let full = all_slots_taken(v.state) && v.state.blocks.len() >= (PAGE_SIZE - 28) / 17;
            &&& v.available && full ==> w == v && turn == Turn::<
                ProtectedPageId<PAGE_SIZE>,
                AllocProtectedTask,
            >::Done(Err(MappedPageError::DirectoryFull))
            &&& v.available && !full ==> turn is Ask
            &&& !v.available ==> turn == Turn::<
                ProtectedPageId<PAGE_SIZE>,
                AllocProtectedTask,
            >::Done(Err(MappedPageError::Unavailable)) && w.state.dirs == v.state.dirs
                && w.state.blocks == v.state.blocks && !w.available
        }),
{
    law_place_for_a_page(v.state, PAGE_SIZE);
}

/// A protected page needs two pages, and four if it needs a new directory block; it can be
/// allocated where they can be, or is refused.
pub proof fn law_protected_alloc_may_begin(v: PagerView, page_size: usize)
    requires
        1024 <= page_size,
        v.state.wf(page_size),
        v.available,
        v.state.meta.generation < u64::MAX,
    ensures
        ({
            let full = all_slots_taken(v.state) && v.state.blocks.len() >= (page_size - 28) / 17;
            let need: nat = if all_slots_taken(v.state) {
                4
            } else {
                2
            };
            v.can_alloc_protected(page_size) <==> full || v.state.meta.can_take(need, page_size)
        }),
{
    law_place_for_a_page(v.state, page_size);
}

/// Without a map a protected page can always be asked for, while there is a next generation.
pub proof fn law_protected_alloc_may_be_refused(v: PagerView, page_size: usize)
    requires
        !v.available,
        v.state.meta.generation < u64::MAX,
    ensures
        v.can_alloc_protected(page_size),
{
}

// ── Allocating a protected page ───────────────────────────────────────────────

/// An allocation of a protected page that is carried out on the pager `v`: after each turn
/// but the last, what is asked for went as the next event says, and the file then holds
/// the next of `maps`.
pub open spec fn protected_alloc_run<const PAGE_SIZE: usize>(
    v: PagerView,
    views: Seq<PagerView>,
    turns: Seq<Turn<ProtectedPageId<PAGE_SIZE>, AllocProtectedTask>>,
    events: Seq<IoEvent>,
    maps: Seq<Seq<u8>>,
) -> bool {
    &&& views.len() == turns.len()
    &&& turns.len() == events.len() + 1
    &&& maps.len() == events.len()
    &&& v.alloc_protected_begun(views[0], turns[0])
    &&& forall|i: int|
        0 <= i < turns.len() ==> #[trigger] protected_alloc_belongs(views, turns, i)
    &&& forall|i: int|
        0 <= i < events.len() ==> #[trigger] protected_alloc_goes_on(views, turns, events, maps, i)
}

/// What turn `i` asks for belongs to the pager as it then is.
pub open spec fn protected_alloc_belongs<const PAGE_SIZE: usize>(
    views: Seq<PagerView>,
    turns: Seq<Turn<ProtectedPageId<PAGE_SIZE>, AllocProtectedTask>>,
    i: int,
) -> bool {
    turns[i] matches Turn::Ask(_, task) ==> task.belongs_to(views[i], PAGE_SIZE)
}

/// Turn `i` asks for something, and after event `i` the next turn follows.
pub open spec fn protected_alloc_goes_on<const PAGE_SIZE: usize>(
    views: Seq<PagerView>,
    turns: Seq<Turn<ProtectedPageId<PAGE_SIZE>, AllocProtectedTask>>,
    events: Seq<IoEvent>,
    maps: Seq<Seq<u8>>,
    i: int,
) -> bool {
    &&& turns[i] matches Turn::Ask(_, task)
    &&& views[i].alloc_protected_resumed(task@, events[i], maps[i], views[i + 1], turns[i + 1])
}

/// The pages `pages` are different data pages that are free in `v` and allocated in `w`, the
/// lowest that there were, and no other page changes.
pub open spec fn new_pages(v: MetaView, w: MetaView, pages: Seq<u64>) -> bool {
    &&& forall|i: int, k: int| 0 <= i < k < pages.len() ==> pages[i] < pages[k]
    &&& forall|i: int|
        0 <= i < pages.len() ==> {
            &&& FIRST_DATA_PAGE <= #[trigger] pages[i] < w.total_pages
            &&& !v.allocated(pages[i] as int)
        }
    &&& forall|j: int|
        #[trigger] w.allocated(j) <==> v.allocated(j) || exists|i: int|
            0 <= i < pages.len() && #[trigger] pages[i] == j
    &&& forall|i: int, j: int|
        0 <= i < pages.len() && 0 <= j < #[trigger] pages[i] ==> #[trigger] w.allocated(j)
}

/// In `w`, handle `id` names a new protected page.  Its slot was the lowest free one, or
/// the first of a new block where all were taken; no other slot changes.  Its two copies
/// are pages that were free, as are the two of a new block, and no other page changes.
/// The first copy is active.
pub open spec fn page_entered(v: StateView, w: StateView, id: u64, page_size: usize) -> bool {
    let n = (page_size - 12) / 30;
    let (block, slot) = (id as int / n, id as int % n);
    let e = w.dirs[block].entries[slot];
    &&& holds_page(w, block, slot)
    &&& !holds_page(v, block, slot)
    &&& forall|b: int, k: int|
        b != block || k != slot ==> (#[trigger] holds_page(w, b, k) <==> holds_page(v, b, k))
    &&& forall|b: int, k: int|
        holds_page(v, b, k) ==> #[trigger] w.dirs[b].entries[k] == v.dirs[b].entries[k]
    &&& forall|b: int, k: int|
        0 <= b < v.dirs.len() && 0 <= k < v.dirs[b].entries.len() && (b < block || b == block && k
            < slot) ==> #[trigger] holds_page(v, b, k)
    &&& e.active_slot == 0
    &&& e.generation == 0
    &&& w.dirs.len() == w.blocks.len()
    &&& forall|b: int|
        0 <= b < v.blocks.len() ==> {
            &&& (#[trigger] w.blocks[b]).page_a == v.blocks[b].page_a
            &&& w.blocks[b].page_b == v.blocks[b].page_b
            &&& b != block ==> w.blocks[b].active == v.blocks[b].active
        }
    &&& forall|b: int|
        0 <= b < v.dirs.len() ==> (#[trigger] w.dirs[b]).entries.len() == v.dirs[b].entries.len()
    &&& if all_slots_taken(v) {
        &&& block == v.blocks.len()
        &&& slot == 0
        &&& w.blocks.len() == v.blocks.len() + 1
        &&& w.dirs[block].entries.len() == n
        &&& new_pages(
            v.meta,
            w.meta,
            seq![w.blocks[block].page_a, w.blocks[block].page_b, e.page_a, e.page_b],
        )
    } else {
        &&& w.blocks.len() == v.blocks.len()
        &&& new_pages(v.meta, w.meta, seq![e.page_a, e.page_b])
    }
}

/// How far the allocation of a protected page has come.
spec fn protected_alloc_so_far<const PAGE_SIZE: usize>(
    v: PagerView,
    u: PagerView,
    turn: Turn<ProtectedPageId<PAGE_SIZE>, AllocProtectedTask>,
    maps: Seq<Seq<u8>>,
) -> bool {
    match turn {
        Turn::Ask(request, task) => match task@ {
            AllocProtectedTaskView::Grow { place, reserve } => {
                &&& v.state.place(PAGE_SIZE) == Ok::<Place, MappedPageError>(place)
                &&& reserve.want == place.pages()
                &&& reserved_so_far(v, u, reserve.got)
                &&& !(request is Apply)
            },
            AllocProtectedTaskView::Commit { place, pages } => {
                &&& v.state.place(PAGE_SIZE) == Ok::<Place, MappedPageError>(place)
                &&& pages.len() == place.pages()
                &&& new_pages(v.state.meta, u.state.meta, pages)
                &&& u.state.meta.accurate()
                &&& u.state.blocks == v.state.blocks
                &&& u.state.dirs == v.state.dirs
                &&& u.state.active == v.state.active
                &&& u.available
                &&& request@ == RequestView::Apply(u.state.commit_plan(PAGE_SIZE))
            },
            AllocProtectedTaskView::Directory { block, id } => {
                &&& page_entered(v.state, u.state, id, PAGE_SIZE)
                &&& block == id as int / ((PAGE_SIZE - 12) / 30)
                &&& has_checksum(u.state, id, PAGE_SIZE, maps)
                &&& u.state.active == v.state.active.other()
                &&& u.state.meta.accurate()
                &&& u.available
                &&& exists|f: Seq<u8>| request@ == RequestView::Apply(
                    #[trigger] u.state.dir_plan(block as int, f, PAGE_SIZE),
                )
            },
        },
        Turn::Done(Ok(id)) => {
            &&& page_entered(v.state, u.state, id.0, PAGE_SIZE)
            &&& has_checksum(u.state, id.0, PAGE_SIZE, maps)
            &&& u.state.active == v.state.active.other()
            &&& u.state.meta.accurate()
            &&& u.available
        },
        Turn::Done(Err(_)) => true,
    }
}

/// The entry of handle `id` records the checksum of its first copy, as one of `maps` holds
/// it.
pub open spec fn has_checksum(s: StateView, id: u64, page_size: usize, maps: Seq<Seq<u8>>) -> bool {
    let n = (page_size - 12) / 30;
    let e = s.dirs[id as int / n].entries[id as int % n];
    exists|i: int|
        0 <= i < maps.len() && e.checksum == crc32_of(
            page_of(#[trigger] maps[i], e.page_a as int, page_size as int),
        )
}

proof fn lemma_reserved_are_new(v: PagerView, u: PagerView, pages: Seq<u64>)
    requires
        v.state.meta.accurate(),
        reserved_so_far(v, u, pages),
        u.state.meta.generation < u64::MAX,
    ensures
        new_pages(v.state.meta, u.bumped().state.meta, pages),
        u.bumped().state.meta.accurate(),
{
    let m = v.state.meta;
    let k = u.bumped().state.meta;
    assert(k.bitmap == u.state.meta.bitmap);
    assert forall|i: int| 0 <= i < pages.len() implies {
        &&& FIRST_DATA_PAGE <= #[trigger] pages[i] < k.total_pages
        &&& !m.allocated(pages[i] as int)
    } by {
        assert(!m.allocated(pages[i] as int));
        assert(among(pages, pages[i] as int));
        assert(u.state.meta.allocated(pages[i] as int));
        if pages[i] < FIRST_DATA_PAGE {
            assert(crate::bitmap::page_is_set(m.bitmap, pages[i] as int));
        }
    }
    assert forall|j: int|
        #[trigger] k.allocated(j) <==> m.allocated(j) || exists|i: int|
            0 <= i < pages.len() && #[trigger] pages[i] == j by {
        assert(k.allocated(j) == u.state.meta.allocated(j));
        assert(u.state.meta.allocated(j) <==> m.allocated(j) || among(pages, j));
    }
    assert forall|i: int, j: int|
        0 <= i < pages.len() && 0 <= j < #[trigger] pages[i] implies #[trigger] k.allocated(j) by {
        assert(filled_below(u.state.meta, pages[i] + 1));
        assert(u.state.meta.allocated(j));
    }
    assert(k.accurate());
}

proof fn lemma_protected_alloc_next<const PAGE_SIZE: usize>(
    v: PagerView,
    place: Place,
    u: PagerView,
    reserved: ReserveTurnView,
    w: PagerView,
    turn: Turn<ProtectedPageId<PAGE_SIZE>, AllocProtectedTask>,
    maps: Seq<Seq<u8>>,
)
    requires
        v.state.meta.accurate(),
        v.state.meta.generation < u64::MAX,
        v.state.place(PAGE_SIZE) == Ok::<Place, MappedPageError>(place),
        u.alloc_protected_next(place, reserved, w, turn),
        match reserved {
            ReserveTurnView::Reserved(all) => all.len() == place.pages() && u.available
                && reserved_so_far(v, u, all),
            ReserveTurnView::Ask(request, task) => task.want == place.pages() && reserved_so_far(
                v,
                u,
                task.got,
            ) && !(request is Apply),
            ReserveTurnView::Failed(_, e) => true,
        },
    ensures
        protected_alloc_so_far(v, w, turn, maps),
        turn matches Turn::Done(result) ==> result is Err && reserved is Failed,
{
    if let ReserveTurnView::Reserved(ids) = reserved {
        lemma_reserved_are_new(v, u, ids);
    }
}

/// Entering a page in its place.
proof fn lemma_entered(
    v: StateView,
    c: StateView,
    place: Place,
    pages: Seq<u64>,
    f: Seq<u8>,
    page_size: usize,
    maps: Seq<Seq<u8>>,
    i: int,
)
    requires
        valid_page_size(page_size),
        addressable(page_size),
        v.wf(page_size),
        v.place(page_size) == Ok::<Place, MappedPageError>(place),
        pages.len() == place.pages(),
        new_pages(v.meta, c.meta, pages),
        c.blocks == v.blocks,
        c.dirs == v.dirs,
        0 <= i < maps.len(),
        maps[i] == f,
    ensures
        page_entered(v, c.entered(place, pages, f, page_size), place.id(c, page_size), page_size),
        place.block(c) == place.id(c, page_size) as int / ((page_size - 12) / 30),
        has_checksum(
            c.entered(place, pages, f, page_size),
            place.id(c, page_size),
            page_size,
            maps,
        ),
{
    law_place_for_a_page(v, page_size);
    crate::ownership::lemma_wf_sizes(v, page_size);
    let w = c.entered(place, pages, f, page_size);
    let n = (page_size - 12) / 30;
    let id = place.id(c, page_size);
    let (b, k) = match place {
        Place::Slot { block, slot } => (block as int, slot as int),
        Place::NewBlock => (v.blocks.len() as int, 0int),
    };
    if place is Slot {
        assert(v.dirs[b].fits(page_size as int));
    }
    lemma_handle_of_slot(b, k, page_size);
    assert(id as int / n == b && id as int % n == k);
    let e = w.dirs[b].entries[k];
    assert(e.checksum == crc32_of(page_of(maps[i], e.page_a as int, page_size as int)));
    assert forall|x: int, y: int|
        0 <= x < v.dirs.len() && 0 <= y < v.dirs[x].entries.len() && (x < b || x == b && y
            < k) implies #[trigger] holds_page(v, x, y) by {
        assert(v.dirs[x].entries[y].in_use);
    }
    assert forall|x: int, y: int| x != b || y != k implies (#[trigger] holds_page(w, x, y)
        <==> holds_page(v, x, y)) by {}
    match place {
        Place::Slot { .. } => {
            assert(pages =~= seq![e.page_a, e.page_b]);
        },
        Place::NewBlock => {
            assert(pages =~= seq![
                w.blocks[b].page_a,
                w.blocks[b].page_b,
                e.page_a,
                e.page_b,
            ]);
        },
    }
}

/// Which copy of its block is active is nothing that an entered page depends on.
proof fn lemma_entered_and_flipped(
    v: StateView,
    u: StateView,
    w: StateView,
    id: u64,
    block: int,
    page_size: usize,
    maps: Seq<Seq<u8>>,
)
    requires
        page_entered(v, u, id, page_size),
        has_checksum(u, id, page_size, maps),
        0 <= block < u.blocks.len(),
        block == id as int / ((page_size - 12) / 30),
        w == u.dir_committed(block),
    ensures
        page_entered(v, w, id, page_size),
        has_checksum(w, id, page_size, maps),
{
    assert forall|b: int, k: int| #[trigger] holds_page(w, b, k) == holds_page(u, b, k) by {}
    let n = (page_size - 12) / 30;
    let e = w.dirs[id as int / n].entries[id as int % n];
    let i = choose|i: int|
        0 <= i < maps.len() && e.checksum == crc32_of(
            page_of(#[trigger] maps[i], e.page_a as int, page_size as int),
        );
    assert(e.checksum == crc32_of(page_of(maps[i], e.page_a as int, page_size as int)));
}

proof fn lemma_protected_alloc_run<const PAGE_SIZE: usize>(
    v: PagerView,
    views: Seq<PagerView>,
    turns: Seq<Turn<ProtectedPageId<PAGE_SIZE>, AllocProtectedTask>>,
    events: Seq<IoEvent>,
    maps: Seq<Seq<u8>>,
    i: int,
)
    requires
        valid_page_size(PAGE_SIZE),
        addressable(PAGE_SIZE),
        v.available,
        v.state.wf(PAGE_SIZE),
        v.state.meta.accurate(),
        v.state.meta.generation < u64::MAX,
        protected_alloc_run(v, views, turns, events, maps),
        0 <= i < turns.len(),
    ensures
        protected_alloc_so_far(v, views[i], turns[i], maps),
        turns[i] matches Turn::Done(Err(e)) && 0 < i ==> (exists|k: int|
            0 <= k < i && #[trigger] events[k] is Failed),
        turns[i] matches Turn::Done(Err(e)) ==> i == 0 && v.state.place(PAGE_SIZE) == Err::<
            Place,
            MappedPageError,
        >(e) || 0 < i && e is Io,
        turns[i] matches Turn::Done(Ok(_)) ==> 0 < i,
        turns[i] matches Turn::Ask(_, task) ==> (task@ matches AllocProtectedTaskView::Grow {
            reserve,
            ..
        } ==> fails_before(events, reserve.grow, i)),
    decreases i,
{
    let m = v.state.meta;
    if i == 0 {
        if let Ok(place) = v.state.place(PAGE_SIZE) {
            assert(reserved_so_far(v, v, Seq::empty())) by {
                assert forall|j: int| #[trigger] m.allocated(j) <==> m.allocated(j) || among(
                    Seq::empty(),
                    j,
                ) by {}
            }
            lemma_reserving(v, v, Seq::empty(), place.pages(), PAGE_SIZE);
            let (u, reserved) = v.reserve_next(Seq::empty(), place.pages(), PAGE_SIZE);
            lemma_protected_alloc_next(v, place, u, reserved, views[0], turns[0], maps);
        }
    } else {
        lemma_protected_alloc_run(v, views, turns, events, maps, i - 1);
        assert(protected_alloc_goes_on(views, turns, events, maps, i - 1));
        assert(protected_alloc_belongs(views, turns, i - 1));
        let u = views[i - 1];
        let task = turns[i - 1]->Ask_1;
        match task@ {
            AllocProtectedTaskView::Grow { place, reserve } => {
                let (g, grown) = u.grow_next(reserve.grow, events[i - 1], PAGE_SIZE);
                let (r, reserved) = u.reserve_resumed(reserve, events[i - 1], PAGE_SIZE);
                if grown is Grown {
                    lemma_reserved_doubled(v, u, reserve.got, g);
                    lemma_reserving(v, g, reserve.got, reserve.want, PAGE_SIZE);
                }
                lemma_protected_alloc_next(v, place, r, reserved, views[i], turns[i], maps);
                if events[i - 1] is Done && !(reserve.grow is SetLen || reserve.grow is Remap) {
                    let k = choose|k: int| 0 <= k < i - 1 && #[trigger] events[k] is Failed;
                    assert(0 <= k < i && events[k] is Failed);
                }
            },
            AllocProtectedTaskView::Commit { place, pages } => {
                if events[i - 1] is Done {
                    let f = maps[i - 1];
                    let c = u.committed().state;
                    lemma_entered(v.state, c, place, pages, f, PAGE_SIZE, maps, i - 1);
                    let request = turns[i]->Ask_0;
                    let block = place.block(c);
                    law_place_for_a_page(v.state, PAGE_SIZE);
                    crate::ownership::lemma_wf_sizes(v.state, PAGE_SIZE);
                    assert(block as usize == block);
                    let next = turns[i]->Ask_1@;
                    let at = next->Directory_block as int;
                    assert(request@ == RequestView::Apply(
                        views[i].state.dir_plan(at, f, PAGE_SIZE),
                    ));
                    assert(views[i].state.meta.accurate());
                    assert(protected_alloc_so_far(v, views[i], turns[i], maps));
                }
            },
            AllocProtectedTaskView::Directory { block, id } => {
                if events[i - 1] is Done {
                    lemma_entered_and_flipped(
                        v.state,
                        u.state,
                        views[i].state,
                        id,
                        block as int,
                        PAGE_SIZE,
                        maps,
                    );
                    assert(protected_alloc_so_far(v, views[i], turns[i], maps));
                }
            },
        }
    }
}

/// An allocation of a protected page that succeeds enters one new page with its two copies,
/// in the lowest free slot or in a new block, and changes no other slot and no other page.
/// It fails only if the directory is full, before anything is asked for, or if something
/// that it asked for failed.
pub proof fn law_protected_alloc_enters_one<const PAGE_SIZE: usize>(
    v: PagerView,
    views: Seq<PagerView>,
    turns: Seq<Turn<ProtectedPageId<PAGE_SIZE>, AllocProtectedTask>>,
    events: Seq<IoEvent>,
    maps: Seq<Seq<u8>>,
)
    requires
        valid_page_size(PAGE_SIZE),
        addressable(PAGE_SIZE),
        v.available,
        v.state.wf(PAGE_SIZE),
        v.state.meta.accurate(),
        v.state.meta.generation < u64::MAX,
        protected_alloc_run(v, views, turns, events, maps),
    ensures
        match turns.last() {
            Turn::Done(Ok(id)) => {
                let w = views.last();
                &&& page_entered(v.state, w.state, id.0, PAGE_SIZE)
                &&& has_checksum(w.state, id.0, PAGE_SIZE, maps)
                &&& w.state.active == v.state.active.other()
                &&& w.state.meta.accurate()
                &&& w.available
            },
            Turn::Done(Err(e)) => if turns.len() == 1 {
                &&& e == MappedPageError::DirectoryFull
                &&& all_slots_taken(v.state)
                &&& v.state.blocks.len() >= (PAGE_SIZE - 28) / 17
                &&& views[0] == v
            } else {
                &&& e is Io
                &&& exists|i: int| 0 <= i < events.len() && #[trigger] events[i] is Failed
            },
            Turn::Ask(request, task) => match task@ {
                AllocProtectedTaskView::Grow { .. } => !(request is Apply),
                AllocProtectedTaskView::Commit { .. } => request@ == RequestView::Apply(
                    views.last().state.commit_plan(PAGE_SIZE),
                ),
                AllocProtectedTaskView::Directory { block, id } => {
                    &&& page_entered(v.state, views.last().state, id, PAGE_SIZE)
                    &&& block == id as int / ((PAGE_SIZE - 12) / 30)
                    &&& exists|f: Seq<u8>| request@ == RequestView::Apply(
                        #[trigger] views.last().state.dir_plan(block as int, f, PAGE_SIZE),
                    )
                },
            },
        },
        turns.len() == 1 ==> (turns[0] is Ask <==> !all_slots_taken(v.state)
            || v.state.blocks.len() < (PAGE_SIZE - 28) / 17),
{
    law_place_for_a_page(v.state, PAGE_SIZE);
    lemma_protected_alloc_run(v, views, turns, events, maps, turns.len() - 1);
    law_protected_alloc_begins(v, views[0], turns[0]);
}

/// An allocation of a protected page has the file doubled only if fewer pages are free than
/// it needs, which is two, or four with a new block; otherwise it asks for a commit at once.
pub proof fn law_protected_alloc_grows_only_if_needed<const PAGE_SIZE: usize>(
    v: PagerView,
    w: PagerView,
    turn: Turn<ProtectedPageId<PAGE_SIZE>, AllocProtectedTask>,
)
    requires
        1024 <= PAGE_SIZE,
        v.available,
        v.state.wf(PAGE_SIZE),
        v.state.meta.accurate(),
        v.alloc_protected_begun(w, turn),
        turn is Ask,
    ensures
        ({
            let need: int = if all_slots_taken(v.state) {
                4
            } else {
                2
            };
            &&& turn matches Turn::Ask(request, task)
            &&& if need <= v.state.meta.free_count {
                &&& task is Commit
                &&& request@ == RequestView::Apply(w.state.commit_plan(PAGE_SIZE))
                &&& w.available
            } else {
                &&& task is Grow
                &&& request@ == RequestView::SetLen(
                    (2 * v.state.meta.total_pages * PAGE_SIZE) as u64,
                )
                &&& !w.available
            }
            &&& w.state.blocks == v.state.blocks
            &&& w.state.dirs == v.state.dirs
        }),
{
    law_place_for_a_page(v.state, PAGE_SIZE);
    let place = v.state.place(PAGE_SIZE)->Ok_0;
    lemma_take_len(v.state.meta, place.pages() as nat);
}

/// While an allocation of a protected page waits for the file to grow, it asks for what the
/// growth asks for.  Once the file is doubled, it is doubled again only if there are still
/// not pages enough.  If the growth fails, that is reported, and nothing else changes.
pub proof fn law_protected_alloc_follows_growth<const PAGE_SIZE: usize>(
    v: PagerView,
    place: Place,
    reserve: ReserveTask,
    event: IoEvent,
    f: Seq<u8>,
    w: PagerView,
    turn: Turn<ProtectedPageId<PAGE_SIZE>, AllocProtectedTask>,
)
    requires
        reserve.belongs_to(v, PAGE_SIZE),
        v.state.meta.accurate(),
        v.alloc_protected_resumed(
            AllocProtectedTaskView::Grow { place, reserve: reserve@ },
            event,
            f,
            w,
            turn,
        ),
    ensures
        ({
            let (u, grown) = v.grow_next(reserve.grow, event, PAGE_SIZE);
            match grown {
                GrowTurn::Ask(request, next) => {
                    &&& w == u
                    &&& turn matches Turn::Ask(asked, task)
                    &&& asked == request
                    &&& task@ == AllocProtectedTaskView::Grow {
                        place,
                        reserve: ReserveTaskView { grow: next, ..reserve@ },
                    }
                },
                GrowTurn::Failed(e) => {
                    &&& w == u
                    &&& turn == Turn::<ProtectedPageId<PAGE_SIZE>, AllocProtectedTask>::Done(
                        Err(e),
                    )
                },
                GrowTurn::Grown => {
                    &&& turn matches Turn::Ask(_, task)
                    &&& task is Commit <==> reserve.want - reserve.got@.len()
                        <= u.state.meta.free_count
                    &&& w.available <==> task is Commit
                },
            }
        }),
{
    let (u, grown) = v.grow_next(reserve.grow, event, PAGE_SIZE);
    if grown is Grown {
        law_grown_is_accurate(v.state.meta, (2 * v.state.meta.total_pages) as u64);
        lemma_take_len(u.state.meta, (reserve.want - reserve.got@.len()) as nat);
    }
}

/// If the pages of a protected page cannot be committed, that is reported, and nothing
/// changes.  Once they are, its entry is made and is to be committed.
pub proof fn law_protected_alloc_commits_pages<const PAGE_SIZE: usize>(
    v: PagerView,
    place: Place,
    pages: Seq<u64>,
    event: IoEvent,
    f: Seq<u8>,
    w: PagerView,
    turn: Turn<ProtectedPageId<PAGE_SIZE>, AllocProtectedTask>,
)
    requires
        v.state.wf(PAGE_SIZE),
        v.alloc_protected_resumed(
            AllocProtectedTaskView::Commit { place, pages },
            event,
            f,
            w,
            turn,
        ),
    ensures
        match event {
            IoEvent::Done => {
                &&& turn matches Turn::Ask(request, task)
                &&& task is Directory
                &&& request@ == RequestView::Apply(
                    w.state.dir_plan(task->Directory_block as int, f, PAGE_SIZE),
                )
                &&& w.state.meta == v.state.meta
                &&& w.state.active != v.state.active
                &&& w.available == v.available
            },
            IoEvent::Failed { error, .. } => {
                &&& turn == Turn::<ProtectedPageId<PAGE_SIZE>, AllocProtectedTask>::Done(
                    Err(MappedPageError::Io(error)),
                )
                &&& w == v
            },
        },
{
    if event is Done {
        let task = turn->Ask_1;
        let block = place.block(v.state);
        assert(task->Directory_block == block as usize);
    }
}

/// An allocation ends with its directory commit: with the handle if that is carried out, and
/// with its failure otherwise.
pub proof fn law_protected_alloc_ends<const PAGE_SIZE: usize>(
    v: PagerView,
    block: usize,
    id: u64,
    event: IoEvent,
    f: Seq<u8>,
    w: PagerView,
    turn: Turn<ProtectedPageId<PAGE_SIZE>, AllocProtectedTask>,
)
    requires
        v.alloc_protected_resumed(
            AllocProtectedTaskView::Directory { block, id },
            event,
            f,
            w,
            turn,
        ),
    ensures
        w == v.dir_done(block as int, event).0,
        turn == Turn::<ProtectedPageId<PAGE_SIZE>, AllocProtectedTask>::Done(
            match event {
                IoEvent::Done => Ok(ProtectedPageId(id)),
                IoEvent::Failed { error, .. } => Err(MappedPageError::Io(error)),
            },
        ),
{
}

/// Without a map as many free pages are marked as a protected page needs, or all if there
/// are fewer, the lowest first, though the allocation fails; a new generation is made only
/// if there were enough.
pub proof fn law_protected_alloc_without_a_map<const PAGE_SIZE: usize>(
    v: PagerView,
    w: PagerView,
    turn: Turn<ProtectedPageId<PAGE_SIZE>, AllocProtectedTask>,
)
    requires
        1024 <= PAGE_SIZE,
        !v.available,
        v.state.wf(PAGE_SIZE),
        v.state.meta.accurate(),
        v.state.meta.generation < u64::MAX,
        v.alloc_protected_begun(w, turn),
    ensures
        ({
            let full = all_slots_taken(v.state) && v.state.blocks.len() >= (PAGE_SIZE - 28) / 17;
            let need: int = if all_slots_taken(v.state) {
                4
            } else {
                2
            };
            let free = v.state.meta.free_count as int;
            &&& full ==> w == v
            &&& !full ==> {
                &&& exists|pages: Seq<u64>|
                    {
                        &&& #[trigger] new_pages(v.state.meta, w.state.meta, pages)
                        &&& pages.len() == if need <= free {
                            need
                        } else {
                            free
                        }
                    }
                &&& w.state.meta.total_pages == v.state.meta.total_pages
                &&& w.state.meta.generation == v.state.meta.generation + if need <= free {
                    1int
                } else {
                    0int
                }
            }
        }),
{
    law_place_for_a_page(v.state, PAGE_SIZE);
    if let Ok(place) = v.state.place(PAGE_SIZE) {
        let n = place.pages() as nat;
        let m = v.state.meta;
        let (k, ids) = m.take(n);
        lemma_take_len(m, n);
        lemma_take_frame(m, n);
        lemma_take_order(m, n);
        let e = w.state.meta;
        assert forall|j: int| #[trigger] e.allocated(j) <==> m.allocated(j) || exists|i: int|
            0 <= i < ids.len() && #[trigger] ids[i] == j by {
            assert(e.allocated(j) == k.allocated(j));
            if among(ids, j) {
                let i = choose|i: int| 0 <= i < ids.len() && ids[i] == j;
                assert(ids[i] == j);
            }
        }
        assert forall|i: int| 0 <= i < ids.len() implies {
            &&& FIRST_DATA_PAGE <= #[trigger] ids[i] < e.total_pages
            &&& !m.allocated(ids[i] as int)
            &&& filled_below(k, ids[i] + 1)
        } by {
            assert(filled_below(k, ids[i] + 1));
            assert(k.allocated(ids[i] as int));
            if ids[i] < FIRST_DATA_PAGE {
                assert(crate::bitmap::page_is_set(m.bitmap, ids[i] as int));
            }
        }
        assert forall|i: int, j: int|
            0 <= i < ids.len() && 0 <= j < #[trigger] ids[i] implies #[trigger] e.allocated(j) by {
            assert(filled_below(k, ids[i] + 1));
            assert(k.allocated(j));
        }
        assert(new_pages(m, e, ids));
    }
}

// ── Freeing a protected page ──────────────────────────────────────────────────

/// The directory of `w` is that of `v` with slot `slot` of block `block` replaced by `e`.
pub open spec fn one_entry_differs(
    v: StateView,
    w: StateView,
    block: int,
    slot: int,
    e: DirEntry,
) -> bool {
    &&& w.dirs.len() == v.dirs.len()
    &&& forall|b: int|
        0 <= b < v.dirs.len() ==> (#[trigger] w.dirs[b]).entries.len() == v.dirs[b].entries.len()
    &&& w.dirs[block].entries[slot] == e
    &&& forall|b: int, k: int|
        0 <= b < v.dirs.len() && 0 <= k < v.dirs[b].entries.len() && (b != block || k != slot)
            ==> #[trigger] w.dirs[b].entries[k] == v.dirs[b].entries[k]
}

/// On an available pager a protected page can be freed exactly where the slot of its handle
/// exists and holds one.  Its slot is then free, no other slot and no page changes yet, and
/// its block is to be committed.  A refusal changes nothing, and tells a slot that holds
/// no page from one that does not exist; but without a map the slot is free all the same.
pub proof fn law_protected_free_begins(
    v: PagerView,
    id: u64,
    f: Seq<u8>,
    page_size: usize,
    w: PagerView,
    turn: Turn<(), FreeProtectedTask>,
)
    requires
        1024 <= page_size,
        v.free_protected_begun(id, f, page_size, w, turn),
    ensures
        ({
            let n = (page_size - 12) / 30;
            let (block, slot) = (id as int / n, id as int % n);
            let exists_there = 0 <= block < v.state.dirs.len() && slot
                < v.state.dirs[block].entries.len();
            let e = v.state.dirs[block].entries[slot];
            &&& w.available == v.available
            &&& w.state.meta == v.state.meta
            &&& w.state.blocks == v.state.blocks
            &&& w.state.active == v.state.active
            &&& turn is Ask <==> v.available && holds_page(v.state, block, slot)
            &&& turn matches Turn::Ask(request, task) ==> {
                &&& one_entry_differs(
                    v.state,
                    w.state,
                    block,
                    slot,
                    DirEntry { in_use: false, ..e },
                )
                &&& request@ == RequestView::Apply(w.state.dir_plan(block, f, page_size))
                &&& task matches FreeProtectedTask::Directory { block: b, page_a, page_b }
                &&& b == block as usize
                &&& page_a == e.page_a
                &&& page_b == e.page_b
            }
            &&& turn is Done && v.available ==> w == v
            &&& !v.available && !holds_page(v.state, block, slot) ==> w == v
            &&& !v.available && holds_page(v.state, block, slot) ==> one_entry_differs(
                v.state,
                w.state,
                block,
                slot,
                DirEntry { in_use: false, ..e },
            )
            &&& turn matches Turn::Done(result) ==> result == Err::<(), MappedPageError>(
                if !v.available {
                    MappedPageError::Unavailable
                } else if exists_there {
                    MappedPageError::DoubleFree
                } else {
                    MappedPageError::OutOfBounds
                },
            )
        }),
{
    law_handle_names_a_slot(v.state, id, page_size);
    let n = (page_size - 12) / 30;
    let (block, slot) = (id as int / n, id as int % n);
    vstd::arithmetic::div_mod::lemma_mod_bound(id as int, n);
}

/// A directory commit that is carried out makes the other copy of its block the active one,
/// and changes nothing else.  If it fails, that is so from the moment the copy is flushed;
/// before that, nothing changes.
pub proof fn law_directory_commit_ends(v: PagerView, block: int, event: IoEvent)
    requires
        0 <= block < v.state.blocks.len(),
    ensures
        ({
            let (w, result) = v.dir_done(block, event);
            let flips = match event {
                IoEvent::Done => true,
                IoEvent::Failed { completed, .. } => completed >= 2,
            };
            &&& result == match event {
                IoEvent::Done => Ok::<(), MappedPageError>(()),
                IoEvent::Failed { error, .. } => Err(MappedPageError::Io(error)),
            }
            &&& w.available == v.available
            &&& w.state.meta == v.state.meta
            &&& w.state.active == v.state.active
            &&& w.state.dirs == v.state.dirs
            &&& w.state.blocks.len() == v.state.blocks.len()
            &&& forall|b: int|
                0 <= b < v.state.blocks.len() ==> {
                    &&& (#[trigger] w.state.blocks[b]).page_a == v.state.blocks[b].page_a
                    &&& w.state.blocks[b].page_b == v.state.blocks[b].page_b
                    &&& w.state.blocks[b].active != v.state.blocks[b].active <==> flips && b
                        == block
                }
        }),
{
    assert forall|x: MetaSelector| #[trigger] x.other() != x by {}
}

/// A release of a protected page whose commits are carried out is done: its slot is free,
/// its two copies are free and counted, and no other slot and no other page changes.
pub proof fn law_protected_page_is_freed(
    v: PagerView,
    id: u64,
    f: Seq<u8>,
    page_size: usize,
    w: PagerView,
    first: Turn<(), FreeProtectedTask>,
    u: PagerView,
    second: Turn<(), FreeProtectedTask>,
    x: PagerView,
    end: Turn<(), FreeProtectedTask>,
)
    requires
        1024 <= page_size,
        v.available,
        v.state.wf(page_size),
        v.state.tidy(),
        v.state.meta.accurate(),
        v.state.meta.generation < u64::MAX,
        v.state.meta.free_count + 2 <= u64::MAX,
        holds_page(
            v.state,
            id as int / ((page_size - 12) / 30),
            id as int % ((page_size - 12) / 30),
        ),
        v.free_protected_begun(id, f, page_size, w, first),
        first is Ask ==> w.free_protected_resumed(
            first->Ask_1,
            IoEvent::Done,
            page_size,
            u,
            second,
        ),
        second is Ask ==> u.free_protected_resumed(
            second->Ask_1,
            IoEvent::Done,
            page_size,
            x,
            end,
        ),
    ensures
        ({
            let n = (page_size - 12) / 30;
            let (block, slot) = (id as int / n, id as int % n);
            let e = v.state.dirs[block].entries[slot];
            &&& first is Ask
            &&& second is Ask
            &&& second->Ask_0@ == RequestView::Apply(u.state.commit_plan(page_size))
            &&& end == Turn::<(), FreeProtectedTask>::Done(Ok(()))
            &&& one_entry_differs(v.state, x.state, block, slot, DirEntry { in_use: false, ..e })
            &&& e.page_a != e.page_b
            &&& forall|j: int|
                #[trigger] x.state.meta.allocated(j) <==> v.state.meta.allocated(j) && j
                    != e.page_a && j != e.page_b
            &&& x.state.meta.free_count == v.state.meta.free_count + 2
            &&& x.state.meta.total_pages == v.state.meta.total_pages
            &&& x.state.meta.accurate()
            &&& x.available
            &&& x.state.active == v.state.active.other()
            &&& x.state.blocks.len() == v.state.blocks.len()
            &&& forall|b: int|
                0 <= b < v.state.blocks.len() ==> {
                    &&& (#[trigger] x.state.blocks[b]).page_a == v.state.blocks[b].page_a
                    &&& x.state.blocks[b].page_b == v.state.blocks[b].page_b
                    &&& x.state.blocks[b].active != v.state.blocks[b].active <==> b == block
                }
        }),
{
    let n = (page_size - 12) / 30;
    let (block, slot) = (id as int / n, id as int % n);
    let s = v.state;
    let e = s.dirs[block].entries[slot];
    law_protected_free_begins(v, id, f, page_size, w, first);
    assert(block as usize == block);
    law_directory_commit_ends(w, block, IoEvent::Done);
    assert(s.slot_in_use(block, slot));
    let o = Owner::Slot(block, slot, false);
    let p = Owner::Slot(block, slot, true);
    assert(s.holds(o) && s.holds(p) && o != p);
    assert(s.page_for(o) == e.page_a && s.page_for(p) == e.page_b);
    let m = s.meta;
    law_release_is_accurate(m, e.page_a);
    let k = m.release(e.page_a);
    assert(k.allocated(e.page_b as int));
    law_release_is_accurate(k, e.page_b);
    let z = k.release(e.page_b);
    assert(x.state.meta == z.bumped());
    assert forall|j: int| #[trigger] x.state.meta.allocated(j) <==> m.allocated(j) && j
        != e.page_a && j != e.page_b by {
        assert(x.state.meta.allocated(j) == z.allocated(j));
        assert(z.allocated(j) <==> j != e.page_b && k.allocated(j));
        assert(k.allocated(j) <==> j != e.page_a && m.allocated(j));
    }
}

/// A failed commit of a release is reported, and leaves the slot free.
pub proof fn law_protected_free_fails(
    v: PagerView,
    task: FreeProtectedTask,
    completed: usize,
    error: std::io::Error,
    page_size: usize,
    w: PagerView,
    turn: Turn<(), FreeProtectedTask>,
)
    requires
        v.free_protected_resumed(task, IoEvent::Failed { completed, error }, page_size, w, turn),
    ensures
        turn == Turn::<(), FreeProtectedTask>::Done(Err(MappedPageError::Io(error))),
        w.state.meta == v.state.meta,
        w.state.dirs == v.state.dirs,
        w.state.active == v.state.active,
        w.available == v.available,
{
}

// ── Freeing several protected pages ───────────────────────────────────────────

proof fn lemma_first_protected_refusal(v: PagerView, ids: Seq<u64>, page_size: usize)
    ensures
        match v.first_protected_refusal(ids, page_size) {
            None => forall|i: int|
                0 <= i < ids.len() ==> v.free_protected_refusal(
                    #[trigger] ids[i],
                    page_size,
                ) is None,
            Some(e) => exists|i: int|
                {
                    &&& 0 <= i < ids.len()
                    &&& v.free_protected_refusal(#[trigger] ids[i], page_size) == Some(e)
                    &&& forall|k: int|
                        0 <= k < i ==> v.free_protected_refusal(
                            #[trigger] ids[k],
                            page_size,
                        ) is None
                },
        },
    decreases ids.len(),
{
    if ids.len() > 0 {
        let before = ids.drop_last();
        lemma_first_protected_refusal(v, before, page_size);
        match v.first_protected_refusal(before, page_size) {
            Some(e) => {
                let i = choose|i: int|
                    {
                        &&& 0 <= i < before.len()
                        &&& v.free_protected_refusal(#[trigger] before[i], page_size) == Some(e)
                        &&& forall|k: int|
                            0 <= k < i ==> v.free_protected_refusal(
                                #[trigger] before[k],
                                page_size,
                            ) is None
                    };
                assert(v.free_protected_refusal(ids[i], page_size) == Some(e));
                assert forall|k: int| 0 <= k < i implies v.free_protected_refusal(
                    #[trigger] ids[k],
                    page_size,
                ) is None by {
                    assert(ids[k] == before[k]);
                }
            },
            None => {
                assert forall|i: int| 0 <= i < before.len() implies v.free_protected_refusal(
                    #[trigger] ids[i],
                    page_size,
                ) is None by {
                    assert(ids[i] == before[i]);
                }
                assert(ids[ids.len() - 1] == ids.last());
            },
        }
    }
}

/// Handle `id` names a slot that holds a protected page.
pub open spec fn names_page<const PAGE_SIZE: usize>(
    s: StateView,
    id: ProtectedPageId<PAGE_SIZE>,
) -> bool {
    holds_page(
        s,
        id.0 as int / ((PAGE_SIZE - 12) / 30),
        id.0 as int % ((PAGE_SIZE - 12) / 30),
    )
}

/// A batch of protected handles begins to be freed exactly where the pager is available,
/// the handles are pairwise different, and every one of them, at every position, names a
/// slot that holds a page; then all of them are freed, in order.  Otherwise the whole call
/// is refused before any is freed.
pub proof fn law_protected_bulk_free_is_all_or_nothing<const PAGE_SIZE: usize>(
    v: PagerView,
    ids: Seq<ProtectedPageId<PAGE_SIZE>>,
    step: BulkFreeStep<ProtectedPageId<PAGE_SIZE>>,
)
    requires
        1024 <= PAGE_SIZE,
        v.free_protected_bulk_begun(ids, step),
    ensures
        ({
            let all = forall|i: int| 0 <= i < ids.len() ==> names_page(v.state, #[trigger] ids[i]);
            let accepted = v.available && ids.no_duplicates() && all;
            &&& accepted <==> !(step matches BulkFreeStep::Done(Err(_)))
            &&& accepted && ids.len() == 0 ==> step == BulkFreeStep::<
                ProtectedPageId<PAGE_SIZE>,
            >::Done(Ok(()))
            &&& accepted && ids.len() > 0 ==> {
                &&& step matches BulkFreeStep::Free(id, batch)
                &&& id == ids[0]
                &&& batch.ids@ == ids
                &&& batch.next == 1
            }
        }),
{
    let ns = protected_numbers(ids);
    lemma_protected_numbers(ids);
    lemma_first_protected_refusal(v, ns, PAGE_SIZE);
    if v.available && v.free_protected_bulk_refusal(ns, PAGE_SIZE) is None {
        assert forall|i: int| 0 <= i < ids.len() implies names_page(v.state, #[trigger] ids[i]) by {
            assert(v.free_protected_refusal(ns[i], PAGE_SIZE) is None);
            law_handle_names_a_slot(v.state, ids[i].0, PAGE_SIZE);
        }
    } else if v.available && ids.no_duplicates() {
        let i = choose|i: int|
            {
                &&& 0 <= i < ns.len()
                &&& v.free_protected_refusal(#[trigger] ns[i], PAGE_SIZE)
                    == v.first_protected_refusal(ns, PAGE_SIZE)
                &&& forall|k: int|
                    0 <= k < i ==> v.free_protected_refusal(#[trigger] ns[k], PAGE_SIZE) is None
            };
        law_handle_names_a_slot(v.state, ids[i].0, PAGE_SIZE);
        assert(!names_page(v.state, ids[i]));
    }
}

/// The error of a batch of protected handles that is refused: the map is gone; or else a
/// handle is named twice, which counts as freeing it twice; or else that of the first
/// handle in the list that could not be freed alone.
pub proof fn law_protected_bulk_free_error<const PAGE_SIZE: usize>(
    v: PagerView,
    ids: Seq<ProtectedPageId<PAGE_SIZE>>,
    step: BulkFreeStep<ProtectedPageId<PAGE_SIZE>>,
    e: MappedPageError,
)
    requires
        1024 <= PAGE_SIZE,
        v.free_protected_bulk_begun(ids, step),
        step == BulkFreeStep::<ProtectedPageId<PAGE_SIZE>>::Done(Err(e)),
    ensures
        !v.available ==> e == MappedPageError::Unavailable,
        v.available && !ids.no_duplicates() ==> e == MappedPageError::DoubleFree,
        v.available && ids.no_duplicates() ==> exists|i: int|
            {
                let id = #[trigger] ids[i];
                let n = (PAGE_SIZE - 12) / 30;
                let (block, slot) = (id.0 as int / n, id.0 as int % n);
                &&& 0 <= i < ids.len()
                &&& forall|k: int| 0 <= k < i ==> names_page(v.state, #[trigger] ids[k])
                &&& !names_page(v.state, id)
                &&& e == if 0 <= block < v.state.dirs.len() && slot
                    < v.state.dirs[block].entries.len() {
                    MappedPageError::DoubleFree
                } else {
                    MappedPageError::OutOfBounds
                }
            },
{
    let ns = protected_numbers(ids);
    lemma_protected_numbers(ids);
    lemma_first_protected_refusal(v, ns, PAGE_SIZE);
    if v.available && ids.no_duplicates() {
        let i = choose|i: int|
            {
                &&& 0 <= i < ns.len()
                &&& v.free_protected_refusal(#[trigger] ns[i], PAGE_SIZE) == Some(e)
                &&& forall|k: int|
                    0 <= k < i ==> v.free_protected_refusal(#[trigger] ns[k], PAGE_SIZE) is None
            };
        law_handle_names_a_slot(v.state, ids[i].0, PAGE_SIZE);
        assert forall|k: int| 0 <= k < i implies names_page(v.state, #[trigger] ids[k]) by {
            assert(v.free_protected_refusal(ns[k], PAGE_SIZE) is None);
            law_handle_names_a_slot(v.state, ids[k].0, PAGE_SIZE);
        }
        assert(!names_page(v.state, ids[i]));
    }
}

proof fn lemma_protected_numbers<const PAGE_SIZE: usize>(ids: Seq<ProtectedPageId<PAGE_SIZE>>)
    ensures
        protected_numbers(ids).len() == ids.len(),
        forall|i: int| 0 <= i < ids.len() ==> #[trigger] protected_numbers(ids)[i] == ids[i].0,
        protected_numbers(ids).no_duplicates() <==> ids.no_duplicates(),
{
    let ns = protected_numbers(ids);
    if ns.no_duplicates() {
        assert forall|i: int, j: int|
            0 <= i < ids.len() && 0 <= j < ids.len() && i != j implies ids[i] != ids[j] by {
            assert(ns[i] != ns[j]);
        }
    }
    if ids.no_duplicates() {
        assert forall|i: int, j: int|
            0 <= i < ns.len() && 0 <= j < ns.len() && i != j implies ns[i] != ns[j] by {
            assert(ids[i] != ids[j]);
            assert(ids[i].0 == ns[i] && ids[j].0 == ns[j]);
        }
    }
}

/// A batch of protected pages begins with the first allocation, ends at once with nothing
/// if nothing is wanted, and is refused without a map.
pub proof fn law_protected_bulk_alloc_begins<const PAGE_SIZE: usize>(
    v: PagerView,
    count: usize,
    step: BulkStep<ProtectedPageId<PAGE_SIZE>>,
)
    requires
        v.alloc_protected_bulk_begun(count, step),
    ensures
        match step {
            BulkStep::Allocate(batch) => {
                &&& v.available
                &&& count > 0
                &&& batch.want == count
                &&& batch.got@.len() == 0
            },
            BulkStep::Free(_, _) => false,
            BulkStep::Done(Ok(ids)) => v.available && count == 0 && ids@.len() == 0,
            BulkStep::Done(Err(e)) => !v.available && e == MappedPageError::Unavailable,
        },
{
}

// ── Writing a protected page ──────────────────────────────────────────────────

/// A write to a protected page whose commit is carried out is done: the copy that was
/// written is the active one, with its checksum and a new generation; the pages of both
/// copies, every other slot and all metadata are as before.
pub proof fn law_protected_page_is_written<const PAGE_SIZE: usize>(
    v: PagerView,
    id: ProtectedPageId<PAGE_SIZE>,
    f: Seq<u8>,
    w: PagerView,
    first: Turn<(), WriteTask<PAGE_SIZE>>,
    g: Seq<u8>,
    u: PagerView,
    end: Turn<(), WriteTask<PAGE_SIZE>>,
)
    requires
        1024 <= PAGE_SIZE,
        v.state.wf(PAGE_SIZE),
        names_page(v.state, id),
        ({
            let n = (PAGE_SIZE - 12) / 30;
            let e = v.state.dirs[id.0 as int / n].entries[id.0 as int % n];
            &&& e.active_slot <= 1
            &&& e.generation < u64::MAX
        }),
        v.write_resumed(
            WriteTask::Data {
                id,
                phys: v.state.inactive_copy(id.0, PAGE_SIZE),
                slot: v.state.inactive_slot(id.0, PAGE_SIZE),
            },
            IoEvent::Done,
            f,
            w,
            first,
        ),
        first is Ask ==> w.write_resumed(first->Ask_1, IoEvent::Done, g, u, end),
    ensures
        ({
            let n = (PAGE_SIZE - 12) / 30;
            let (block, slot) = (id.0 as int / n, id.0 as int % n);
            let e = v.state.dirs[block].entries[slot];
            let written = if e.active_slot == 0 {
                e.page_b
            } else {
                e.page_a
            };
            let after = u.state.dirs[block].entries[slot];
            &&& first matches Turn::Ask(request, _)
            &&& request@ == RequestView::Apply(w.state.dir_plan(block, f, PAGE_SIZE))
            &&& end == Turn::<(), WriteTask<PAGE_SIZE>>::Done(Ok(()))
            &&& one_entry_differs(v.state, u.state, block, slot, after)
            &&& after.in_use
            &&& after.page_a == e.page_a
            &&& after.page_b == e.page_b
            &&& after.active_slot == 1 - e.active_slot
            &&& after.generation == e.generation + 1
            &&& after.checksum == crc32_of(page_of(f, written as int, PAGE_SIZE as int))
            &&& u.state.active_copy(id.0, PAGE_SIZE) == written
            &&& u.state.meta == v.state.meta
            &&& u.state.active == v.state.active
            &&& u.available == v.available
            &&& u.state.blocks.len() == v.state.blocks.len()
            &&& forall|b: int|
                0 <= b < v.state.blocks.len() ==> {
                    &&& (#[trigger] u.state.blocks[b]).page_a == v.state.blocks[b].page_a
                    &&& u.state.blocks[b].page_b == v.state.blocks[b].page_b
                    &&& u.state.blocks[b].active != v.state.blocks[b].active <==> b == block
                }
        }),
{
    let n = (PAGE_SIZE - 12) / 30;
    let (block, slot) = (id.0 as int / n, id.0 as int % n);
    law_handle_names_a_slot(v.state, id.0, PAGE_SIZE);
    law_protected_page_can_be_borrowed(v.mapped(true), id.0, PAGE_SIZE);
    vstd::arithmetic::div_mod::lemma_mod_bound(id.0 as int, n);
    assert(block as usize == block);
    law_directory_commit_ends(w, block, IoEvent::Done);
    law_handle_names_a_slot(u.state, id.0, PAGE_SIZE);
}

/// A write whose copy cannot be flushed is reported, and changes nothing.
pub proof fn law_protected_write_fails<const PAGE_SIZE: usize>(
    v: PagerView,
    id: ProtectedPageId<PAGE_SIZE>,
    phys: u64,
    slot: u8,
    completed: usize,
    error: std::io::Error,
    f: Seq<u8>,
    w: PagerView,
    turn: Turn<(), WriteTask<PAGE_SIZE>>,
)
    requires
        v.write_resumed(
            WriteTask::Data { id, phys, slot },
            IoEvent::Failed { completed, error },
            f,
            w,
            turn,
        ),
    ensures
        w == v,
        turn == Turn::<(), WriteTask<PAGE_SIZE>>::Done(Err(MappedPageError::Io(error))),
{
}

/// A write may go on while the slot of its handle exists and its generation is not the last
/// one; once its copy is flushed, the map has to hold that copy, the copy of its block that
/// is not active, and the active metadata page.
pub proof fn law_protected_write_may_go_on<const PAGE_SIZE: usize>(
    v: PagerView,
    id: ProtectedPageId<PAGE_SIZE>,
    phys: u64,
    slot: u8,
    block: usize,
    event: IoEvent,
    len: int,
)
    requires
        1024 <= PAGE_SIZE,
    ensures
        ({
            let n = (PAGE_SIZE - 12) / 30;
            let (b, i) = (id.0 as int / n, id.0 as int % n);
            let r = v.state.blocks[b];
            let other = if r.active is A {
                r.page_b
            } else {
                r.page_a
            };
            let data = WriteTask::Data { id, phys, slot };
            let directory = WriteTask::<PAGE_SIZE>::Directory { block };
            &&& data.belongs_to(v) <==> {
                &&& b < v.state.dirs.len()
                &&& i < v.state.dirs[b].entries.len()
                &&& v.state.dirs[b].entries[i].generation < u64::MAX
            }
            &&& data.in_map(v, event, len) <==> (event is Done ==> {
                &&& (phys + 1) * PAGE_SIZE <= len
                &&& (other + 1) * PAGE_SIZE <= len
                &&& (v.state.active.page_id() + 1) * PAGE_SIZE <= len
            })
            &&& directory.belongs_to(v) <==> block < v.state.blocks.len()
            &&& directory.in_map(v, event, len)
        }),
{
    law_handle_names_a_slot(v.state, id.0, PAGE_SIZE);
}

/// A release may begin while the map holds the copy of its block that is not active, and the
/// active metadata page.
pub proof fn law_protected_free_may_begin(v: PagerView, id: u64, len: int, page_size: usize)
    requires
        1024 <= page_size,
    ensures
        ({
            let n = (page_size - 12) / 30;
            let r = v.state.blocks[id as int / n];
            let other = if r.active is A {
                r.page_b
            } else {
                r.page_a
            };
            v.free_protected_in_map(id, len, page_size) <==> {
                &&& (other + 1) * page_size <= len
                &&& (v.state.active.page_id() + 1) * page_size <= len
            }
        }),
{
}

/// An allocation may go on with any map until its pages are committed.  Then the map has to
/// hold its first copy, the copy of its block that is written, and the metadata page that is
/// active from then on.
pub proof fn law_protected_alloc_may_go_on(
    v: PagerView,
    task: AllocProtectedTask,
    event: IoEvent,
    len: int,
    page_size: usize,
)
    ensures
        task.in_map(v, event, len, page_size) <==> (event is Done ==> match task {
            AllocProtectedTask::Commit { place, pages } => {
                let target = match place {
                    Place::Slot { block, .. } => if v.state.blocks[block as int].active is A {
                        v.state.blocks[block as int].page_b
                    } else {
                        v.state.blocks[block as int].page_a
                    },
                    Place::NewBlock => pages@[1],
                };
                &&& (pages@[pages@.len() - 2] + 1) * page_size <= len
                &&& (target + 1) * page_size <= len
                &&& (3 - v.state.active.page_id() + 1) * page_size <= len
            },
            _ => true,
        }),
{
}

} // verus!
