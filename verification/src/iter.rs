//! Walking the allocated pages.

use vstd::prelude::*;

use crate::directory::{dir_entries_per_page, spec_dir_entries_per_page};
use crate::image::{State, StateView, valid_page_size};
use crate::meta::FIRST_DATA_PAGE;
use crate::page::PageId;
use crate::pager::Pager;
use crate::protected::{ProtectedPageId, addressable};

verus! {

impl StateView {
    /// Page `id` is a copy of directory block `block`.
    pub open spec fn backs_block(self, block: int, id: int) -> bool {
        self.blocks[block].page_a == id || self.blocks[block].page_b == id
    }

    /// Page `id` is a copy of the protected page in a slot.
    pub open spec fn backs_slot(self, block: int, slot: int, id: int) -> bool {
        let e = self.dirs[block].entries[slot];
        e.in_use && (e.page_a == id || e.page_b == id)
    }

    /// Page `id` serves the directory or a protected page.
    pub open spec fn internal(self, id: int) -> bool {
        ||| exists|block: int|
            0 <= block < self.blocks.len() && #[trigger] self.backs_block(block, id)
        ||| exists|block: int, slot: int|
            self.has_slot(block, slot) && #[trigger] self.backs_slot(block, slot, id)
    }

    /// Page `id` is an allocated regular data page.
    pub open spec fn regular(self, id: int) -> bool {
        &&& FIRST_DATA_PAGE <= id
        &&& self.meta.allocated(id)
        &&& !self.internal(id)
    }

    /// The lowest regular page from `from` on.
    pub open spec fn next_regular(self, from: int) -> Option<u64>
        decreases self.meta.total_pages - from,
    {
        if from >= self.meta.total_pages {
            None
        } else if self.regular(from) {
            Some(from as u64)
        } else {
            self.next_regular(from + 1)
        }
    }

    /// All regular pages from `from` on, in order.
    pub open spec fn regular_pages(self, from: int) -> Seq<u64>
        decreases self.meta.total_pages - from,
    {
        if from >= self.meta.total_pages {
            Seq::empty()
        } else if self.regular(from) {
            seq![from as u64] + self.regular_pages(from + 1)
        } else {
            self.regular_pages(from + 1)
        }
    }

    /// The slot holds a protected page.
    pub open spec fn slot_in_use(self, block: int, slot: int) -> bool {
        self.has_slot(block, slot) && self.dirs[block].entries[slot].in_use
    }

    /// The first slot in use from slot `slot` of block `block` on.
    pub open spec fn next_in_use(self, block: int, slot: int) -> Option<(int, int)>
        decreases self.dirs.len() - block, self.dirs[block].entries.len() - slot,
    {
        if block < 0 || slot < 0 || block >= self.dirs.len() {
            None
        } else if slot >= self.dirs[block].entries.len() {
            self.next_in_use(block + 1, 0)
        } else if self.dirs[block].entries[slot].in_use {
            Some((block, slot))
        } else {
            self.next_in_use(block, slot + 1)
        }
    }

    /// All slots in use from slot `slot` of block `block` on, in order.
    pub open spec fn slots_in_use(self, block: int, slot: int) -> Seq<(int, int)>
        decreases self.dirs.len() - block, self.dirs[block].entries.len() - slot,
    {
        if block < 0 || slot < 0 || block >= self.dirs.len() {
            Seq::empty()
        } else if slot >= self.dirs[block].entries.len() {
            self.slots_in_use(block + 1, 0)
        } else if self.dirs[block].entries[slot].in_use {
            seq![(block, slot)] + self.slots_in_use(block, slot + 1)
        } else {
            self.slots_in_use(block, slot + 1)
        }
    }
}

/// The handle of slot `slot` of block `block`.
pub open spec fn slot_id(block: int, slot: int, page_size: usize) -> int {
    block * spec_dir_entries_per_page(page_size) + slot
}

impl State {
    /// Test whether page `id` serves the directory or a protected page.
    pub fn is_internal_page(&self, id: u64) -> (r: bool)
        ensures
            r == self@.internal(id as int),
    {
        let mut i: usize = 0;
        while i < self.dir_blocks.len()
            invariant
                i <= self.dir_blocks@.len(),
                forall|block: int| 0 <= block < i ==> !#[trigger] self@.backs_block(block, id as int),
            decreases self.dir_blocks.len() - i,
        {
            let block = self.dir_blocks[i];
            if block.page_a == id || block.page_b == id {
                assert(self@.backs_block(i as int, id as int));
                return true;
            }
            i += 1;
        }
        let mut b: usize = 0;
        while b < self.dir_pages.len()
            invariant
                b <= self.dir_pages@.len(),
                forall|block: int|
                    0 <= block < self.dir_blocks@.len() ==> !#[trigger] self@.backs_block(
                        block,
                        id as int,
                    ),
                forall|block: int, slot: int|
                    block < b && self@.has_slot(block, slot) ==> !#[trigger] self@.backs_slot(
                        block,
                        slot,
                        id as int,
                    ),
            decreases self.dir_pages.len() - b,
        {
            assert(self@.dirs[b as int] == self.dir_pages@[b as int]@);
            let n: usize = self.dir_pages[b].entries.len();
            let mut s: usize = 0;
            while s < n
                invariant
                    b < self.dir_pages@.len(),
                    n == self.dir_pages@[b as int].entries@.len(),
                    self@.dirs[b as int] == self.dir_pages@[b as int]@,
                    s <= n,
                    forall|block: int|
                        0 <= block < self.dir_blocks@.len() ==> !#[trigger] self@.backs_block(
                            block,
                            id as int,
                        ),
                    forall|block: int, slot: int|
                        block < b && self@.has_slot(block, slot) ==> !#[trigger] self@.backs_slot(
                            block,
                            slot,
                            id as int,
                        ),
                    forall|slot: int|
                        0 <= slot < s ==> !#[trigger] self@.backs_slot(b as int, slot, id as int),
                decreases n - s,
            {
                let entry = self.dir_pages[b].entries[s];
                if entry.in_use && (entry.page_a == id || entry.page_b == id) {
                    assert(self@.has_slot(b as int, s as int));
                    assert(self@.backs_slot(b as int, s as int, id as int));
                    return true;
                }
                s += 1;
            }
            b += 1;
        }
        false
    }

    /// The lowest regular page from `from` on.
    pub fn find_regular(&self, from: u64) -> (r: Option<u64>)
        requires
            self@.meta.well_sized(),
            FIRST_DATA_PAGE <= from,
        ensures
            r == self@.next_regular(from as int),
    {
        let mut id: u64 = from;
        while id < self.meta.total_pages
            invariant
                self@.meta.well_sized(),
                FIRST_DATA_PAGE <= from <= id,
                self@.next_regular(from as int) == self@.next_regular(id as int),
            decreases self.meta.total_pages - id,
        {
            if self.meta.is_allocated(id) && !self.is_internal_page(id) {
                return Some(id);
            }
            id += 1;
        }
        None
    }

    /// The first slot in use from slot `slot` of block `block` on.
    pub fn find_in_use(&self, block: usize, slot: usize) -> (r: Option<(usize, usize)>)
        ensures
            match r {
                Some((b, s)) => self@.next_in_use(block as int, slot as int) == Some(
                    (b as int, s as int),
                ) && self@.slot_in_use(b as int, s as int),
                None => self@.next_in_use(block as int, slot as int) is None,
            },
    {
        let mut b: usize = block;
        let mut s: usize = slot;
        while b < self.dir_pages.len()
            invariant
                self@.next_in_use(block as int, slot as int) == self@.next_in_use(
                    b as int,
                    s as int,
                ),
            decreases self.dir_pages.len() - b, self@.dirs[b as int].entries.len() - s,
        {
            assert(self@.dirs[b as int] == self.dir_pages@[b as int]@);
            if s >= self.dir_pages[b].entries.len() {
                b += 1;
                s = 0;
            } else {
                if self.dir_pages[b].entries[s].in_use {
                    return Some((b, s));
                }
                s += 1;
            }
        }
        None
    }
}

// ── Iterators ─────────────────────────────────────────────────────────────────

/// An iterator over all currently allocated data pages in a [`Pager`].
///
/// Yielded by [`Pager::iter_allocated_pages`].  Reserved pages 0–2 and internal
/// protected-page resources are never included.  It borrows the pager, so pages
/// cannot be allocated or freed while it is alive.
pub struct AllocatedPageIter<'a, const PAGE_SIZE: usize> {
    pub state: &'a State,
    /// The first page that was not looked at yet.
    pub current: u64,
}

/// An iterator over all currently allocated protected pages in a [`Pager`].
///
/// Yielded by [`Pager::iter_allocated_protected_pages`].  Regular data pages and
/// internal directory-block pages are never included.
pub struct AllocatedProtectedPageIter<'a, const PAGE_SIZE: usize> {
    pub state: &'a State,
    pub block_idx: usize,
    pub slot_idx: usize,
}

impl<'a, const PAGE_SIZE: usize> AllocatedPageIter<'a, PAGE_SIZE> {
    pub open spec fn wf(self) -> bool {
        self.state@.meta.well_sized() && FIRST_DATA_PAGE <= self.current
    }

    /// The pages still to come.
    pub open spec fn rest(self) -> Seq<u64> {
        self.state@.regular_pages(self.current as int)
    }

    /// The next page, and on to those behind it.
    pub fn next(&mut self) -> (r: Option<PageId<PAGE_SIZE>>)
        requires
            old(self).wf(),
        ensures
            final(self).wf(),
            final(self).state == old(self).state,
            match r {
                Some(id) => old(self).rest() == seq![id.0] + final(self).rest(),
                None => old(self).rest() == Seq::<u64>::empty() && final(self).rest() == Seq::<
                    u64,
                >::empty(),
            },
    {
        proof {
            lemma_next_regular(self.state@, self.current as int);
        }
        match self.state.find_regular(self.current) {
            Some(id) => {
                self.current = id + 1;
                Some(PageId(id))
            },
            None => {
                if self.current < self.state.meta.total_pages {
                    self.current = self.state.meta.total_pages;
                }
                None
            },
        }
    }
}

/// The list of regular pages starts with the lowest one.
proof fn lemma_next_regular(s: StateView, from: int)
    requires
        0 <= from,
    ensures
        match s.next_regular(from) {
            Some(id) => from <= id < s.meta.total_pages && s.regular_pages(from) == seq![id]
                + s.regular_pages(id + 1),
            None => s.regular_pages(from) == Seq::<u64>::empty(),
        },
    decreases s.meta.total_pages - from,
{
    if from < s.meta.total_pages && !s.regular(from) {
        lemma_next_regular(s, from + 1);
    }
}

impl<'a, const PAGE_SIZE: usize> AllocatedProtectedPageIter<'a, PAGE_SIZE> {
    pub open spec fn wf(self) -> bool {
        &&& addressable(PAGE_SIZE)
        &&& valid_page_size(PAGE_SIZE)
        &&& self.state@.wf(PAGE_SIZE)
    }

    /// The slots still to come.
    pub open spec fn rest(self) -> Seq<(int, int)> {
        self.state@.slots_in_use(self.block_idx as int, self.slot_idx as int)
    }

    /// The next protected page, and on to those behind it.
    pub fn next(&mut self) -> (r: Option<ProtectedPageId<PAGE_SIZE>>)
        requires
            old(self).wf(),
        ensures
            final(self).wf(),
            final(self).state == old(self).state,
            match r {
                Some(id) => {
                    &&& old(self).rest().len() > 0
                    &&& final(self).rest() == old(self).rest().skip(1)
                    &&& id.0 == slot_id(
                        old(self).rest()[0].0,
                        old(self).rest()[0].1,
                        PAGE_SIZE,
                    )
                },
                None => old(self).rest() == Seq::<(int, int)>::empty() && final(self).rest()
                    == Seq::<(int, int)>::empty(),
            },
    {
        proof {
            lemma_next_in_use(self.state@, self.block_idx as int, self.slot_idx as int);
        }
        let epp: usize = dir_entries_per_page(PAGE_SIZE);
        match self.state.find_in_use(self.block_idx, self.slot_idx) {
            Some((block, slot)) => {
                proof {
                    lemma_slot_id_fits(self.state@, block as int, slot as int, PAGE_SIZE);
                    let rest = self.state@.slots_in_use(block as int, slot + 1);
                    assert((seq![(block as int, slot as int)] + rest).skip(1) =~= rest);
                }
                let id: u64 = block as u64 * epp as u64 + slot as u64;
                self.block_idx = block;
                self.slot_idx = slot + 1;
                Some(ProtectedPageId(id))
            },
            None => None,
        }
    }
}

/// The list of slots in use starts with the first one.
proof fn lemma_next_in_use(s: StateView, block: int, slot: int)
    requires
        0 <= block,
        0 <= slot,
    ensures
        match s.next_in_use(block, slot) {
            Some((b, t)) => s.slots_in_use(block, slot) == seq![(b, t)] + s.slots_in_use(b, t + 1),
            None => s.slots_in_use(block, slot) == Seq::<(int, int)>::empty(),
        },
    decreases s.dirs.len() - block, s.dirs[block].entries.len() - slot,
{
    if block < s.dirs.len() {
        if slot >= s.dirs[block].entries.len() {
            lemma_next_in_use(s, block + 1, 0);
        } else if !s.dirs[block].entries[slot].in_use {
            lemma_next_in_use(s, block, slot + 1);
        }
    }
}

/// The handle of a slot is a 64-bit number, and the slot is the one it names.
pub proof fn lemma_slot_id_fits(s: StateView, block: int, slot: int, page_size: usize)
    requires
        valid_page_size(page_size),
        addressable(page_size),
        s.wf(page_size),
        s.has_slot(block, slot),
    ensures
        0 <= block * spec_dir_entries_per_page(page_size),
        0 <= slot_id(block, slot, page_size) <= u64::MAX,
        StateView::block_of(slot_id(block, slot, page_size) as u64, page_size) == block,
        StateView::slot_of(slot_id(block, slot, page_size) as u64, page_size) == slot,
        slot < spec_dir_entries_per_page(page_size),
{
    let epp = spec_dir_entries_per_page(page_size) as int;
    assert(s.dirs[block].fits(page_size as int));
    assert(slot < epp);
    assert(0 <= block * epp <= 0xffff_ffff * 0xffff_ffff) by (nonlinear_arith)
        requires
            0 <= block <= 0xffff_ffff,
            0 <= epp <= 0xffff_ffff,
    ;
    vstd::arithmetic::div_mod::lemma_fundamental_div_mod_converse(
        block * epp + slot,
        epp,
        block,
        slot,
    );
}

impl<const PAGE_SIZE: usize> Pager<PAGE_SIZE> {
    /// Return an iterator over all currently allocated regular data pages.
    ///
    /// Internal protected-page resources and reserved pages 0–2 are excluded.
    pub fn iter_allocated_pages<'a>(&'a self) -> (r: AllocatedPageIter<'a, PAGE_SIZE>)
        requires
            self.wf(),
        ensures
            r.wf(),
            r.state@ == self@.state,
            r.current == FIRST_DATA_PAGE,
    {
        AllocatedPageIter { state: &self.state, current: FIRST_DATA_PAGE }
    }

    /// Return an iterator over all currently allocated protected pages.
    ///
    /// Regular data pages and internal directory-block pages are excluded.
    pub fn iter_allocated_protected_pages<'a>(&'a self) -> (r: AllocatedProtectedPageIter<
        'a,
        PAGE_SIZE,
    >)
        requires
            self.wf(),
            addressable(PAGE_SIZE),
        ensures
            r.wf(),
            r.state@ == self@.state,
            r.block_idx == 0,
            r.slot_idx == 0,
    {
        AllocatedProtectedPageIter { state: &self.state, block_idx: 0, slot_idx: 0 }
    }
}

// ── Laws ──────────────────────────────────────────────────────────────────────

/// The iterator over regular pages yields every allocated page that is neither
/// reserved nor internal, and no other, each once and in increasing order.
pub proof fn law_regular_pages(s: StateView, from: int)
    requires
        FIRST_DATA_PAGE <= from,
    ensures
        crate::growth::increasing(s.regular_pages(from)),
        forall|id: int|
            #[trigger] crate::growth::among(s.regular_pages(from), id) <==> from <= id
                && id < s.meta.total_pages && s.regular(id),
    decreases s.meta.total_pages - from,
{
    let ids = s.regular_pages(from);
    if from < s.meta.total_pages {
        law_regular_pages(s, from + 1);
        let rest = s.regular_pages(from + 1);
        if s.regular(from) {
            assert forall|i: int, j: int| 0 <= i < j < ids.len() implies ids[i] < ids[j] by {
                assert(ids[j] == rest[j - 1]);
                assert(crate::growth::among(rest, rest[j - 1] as int));
                if i > 0 {
                    assert(ids[i] == rest[i - 1]);
                }
            }
            assert forall|id: int| #[trigger] crate::growth::among(ids, id) <==> from <= id
                && id < s.meta.total_pages && s.regular(id) by {
                if crate::growth::among(ids, id) {
                    let i = choose|i: int| 0 <= i < ids.len() && ids[i] == id;
                    if i > 0 {
                        assert(rest[i - 1] == id);
                        assert(crate::growth::among(rest, id));
                    }
                }
                if id == from {
                    assert(ids[0] == id);
                } else if from < id && id < s.meta.total_pages && s.regular(id) {
                    assert(crate::growth::among(rest, id));
                    let i = choose|i: int| 0 <= i < rest.len() && rest[i] == id;
                    assert(ids[i + 1] == id);
                }
            }
        }
    }
}

/// The iterator over protected pages yields the slots in use, and no other, in
/// order.
pub proof fn law_protected_pages(s: StateView, block: int, slot: int)
    requires
        0 <= block,
        0 <= slot,
    ensures
        forall|b: int, t: int|
            #[trigger] s.slots_in_use(block, slot).contains((b, t)) <==> s.slot_in_use(b, t) && (
            block < b || block == b && slot <= t),
        forall|i: int, j: int|
            0 <= i < j < s.slots_in_use(block, slot).len() ==> {
                let p = #[trigger] s.slots_in_use(block, slot)[i];
                let q = #[trigger] s.slots_in_use(block, slot)[j];
                p.0 < q.0 || p.0 == q.0 && p.1 < q.1
            },
    decreases s.dirs.len() - block, s.dirs[block].entries.len() - slot,
{
    let all = s.slots_in_use(block, slot);
    if block < s.dirs.len() {
        if slot >= s.dirs[block].entries.len() {
            law_protected_pages(s, block + 1, 0);
            assert(all == s.slots_in_use(block + 1, 0));
            assert forall|b: int, t: int| #[trigger] all.contains((b, t)) <==> s.slot_in_use(b, t)
                && (block < b || block == b && slot <= t) by {
                assert(s.slots_in_use(block + 1, 0).contains((b, t)) <==> s.slot_in_use(b, t) && (
                block + 1 < b || block + 1 == b && 0 <= t));
            }
        } else {
            law_protected_pages(s, block, slot + 1);
            let rest = s.slots_in_use(block, slot + 1);
            if s.dirs[block].entries[slot].in_use {
                assert(all == seq![(block, slot)] + rest);
                assert forall|b: int, t: int| #[trigger] all.contains((b, t)) <==> s.slot_in_use(
                    b,
                    t,
                ) && (block < b || block == b && slot <= t) by {
                    if all.contains((b, t)) {
                        let i = choose|i: int| 0 <= i < all.len() && all[i] == (b, t);
                        if i > 0 {
                            assert(rest[i - 1] == (b, t));
                            assert(rest.contains((b, t)));
                        }
                    }
                    if rest.contains((b, t)) {
                        let i = choose|i: int| 0 <= i < rest.len() && rest[i] == (b, t);
                        assert(all[i + 1] == (b, t));
                    }
                    assert(all[0] == (block, slot));
                }
                assert forall|i: int, j: int| 0 <= i < j < all.len() implies {
                    let p = #[trigger] all[i];
                    let q = #[trigger] all[j];
                    p.0 < q.0 || p.0 == q.0 && p.1 < q.1
                } by {
                    assert(all[j] == rest[j - 1]);
                    assert(rest.contains((rest[j - 1].0, rest[j - 1].1)));
                    if i > 0 {
                        assert(all[i] == rest[i - 1]);
                    }
                }
            } else {
                assert(all == rest);
                assert forall|b: int, t: int| #[trigger] all.contains((b, t)) <==> s.slot_in_use(
                    b,
                    t,
                ) && (block < b || block == b && slot <= t) by {
                    assert(rest.contains((b, t)) <==> s.slot_in_use(b, t) && (block < b || block
                        == b && slot + 1 <= t));
                }
            }
        }
    } else {
        assert(all.len() == 0);
    }
}

/// The two iterators are disjoint: no regular page is a copy of a protected page
/// or of the directory.
pub proof fn law_iterators_disjoint(s: StateView, id: u64, block: int, slot: int)
    requires
        s.regular(id as int),
    ensures
        s.slot_in_use(block, slot) ==> s.dirs[block].entries[slot].page_a != id
            && s.dirs[block].entries[slot].page_b != id,
        0 <= block < s.blocks.len() ==> s.blocks[block].page_a != id && s.blocks[block].page_b
            != id,
{
    if s.slot_in_use(block, slot) && (s.dirs[block].entries[slot].page_a == id
        || s.dirs[block].entries[slot].page_b == id) {
        assert(s.backs_slot(block, slot, id as int));
    }
    if 0 <= block < s.blocks.len() && (s.blocks[block].page_a == id || s.blocks[block].page_b
        == id) {
        assert(s.backs_block(block, id as int));
    }
}

/// A regular page is an allocated page from page 3 on that no block of the directory and no
/// slot in use has as one of its two copies.
pub proof fn law_regular_page(s: StateView, id: int)
    requires
        s.blocks.len() == s.dirs.len(),
    ensures
        s.regular(id) <==> {
            &&& 3 <= id
            &&& s.meta.allocated(id)
            &&& forall|b: int|
                0 <= b < s.blocks.len() ==> (#[trigger] s.blocks[b]).page_a != id
                    && s.blocks[b].page_b != id
            &&& forall|b: int, t: int|
                0 <= b < s.dirs.len() && 0 <= t < s.dirs[b].entries.len() ==> {
                    let e = #[trigger] s.dirs[b].entries[t];
                    e.in_use ==> e.page_a != id && e.page_b != id
                }
        },
{
    if s.regular(id) {
        assert forall|b: int| 0 <= b < s.blocks.len() implies (#[trigger] s.blocks[b]).page_a != id
            && s.blocks[b].page_b != id by {
            assert(!s.backs_block(b, id));
        }
        assert forall|b: int, t: int|
            0 <= b < s.dirs.len() && 0 <= t < s.dirs[b].entries.len() implies {
            let e = #[trigger] s.dirs[b].entries[t];
            e.in_use ==> e.page_a != id && e.page_b != id
        } by {
            assert(s.has_slot(b, t));
            assert(!s.backs_slot(b, t, id));
        }
    }
}

/// A slot is walked exactly where it exists and holds a page.  Its handle counts the slots
/// of the blocks before it, as many for each as a directory page has room for.
pub proof fn law_protected_page_handle(s: StateView, block: int, slot: int, page_size: usize)
    requires
        1024 <= page_size,
        s.blocks.len() == s.dirs.len(),
    ensures
        s.slot_in_use(block, slot) <==> {
            &&& 0 <= block < s.dirs.len()
            &&& 0 <= slot < s.dirs[block].entries.len()
            &&& s.dirs[block].entries[slot].in_use
        },
        slot_id(block, slot, page_size) == block * ((page_size - 12) / 30) + slot,
{
}

} // verus!
