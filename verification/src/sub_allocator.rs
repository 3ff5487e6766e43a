//! Sub-page allocator: divides big pages from a `Pager<PARENT_SIZE>` into
//! fixed-size sub-pages of `SUB_SIZE` bytes each.
//!
//! Each big page is divided into `N = PARENT_SIZE / SUB_SIZE` sub-slots, tracked
//! with a `u64` bitmask (one bit per slot, so N ≤ 64 is required).  When all
//! sub-slots of a big page are freed the big page is returned to the inner pager.
//!
//! Sub-allocation state is **in-memory only**.  It is not persisted to disk and
//! is not reconstructed when a pager file is reopened.  Callers are responsible
//! for rebuilding their sub-allocation state after a reopen.

use vstd::arithmetic::power2::pow2;
use vstd::prelude::*;

use crate::bulk::{BulkAlloc, BulkFree, BulkFreeStep, BulkStep, free_step, start_step};
use crate::bytes::page_of;
use crate::checkout::{
    law_growth_keeps_checked_out, law_mark_keeps_checked_out, law_pager_keeps_checked_out,
    law_placed_keeps_checked_out, law_release_keeps_checked_out, law_sub_alloc_keeps_checked_out,
    law_sub_free_bulk_keeps_checked_out, law_sub_free_keeps_checked_out,
};
use crate::error::MappedPageError;
use crate::image::log2_of;
use crate::page::{MappedPage, PageId, page_in_map, page_slice, page_slice_mut, with_page};
use crate::pager::{AllocTask, FreeTask, Pager, PagerView, has_duplicates};
use crate::task::{GrowTurn, IoEvent, Turn};

verus! {

// ── Bitmasks ──────────────────────────────────────────────────────────────────

/// Sub-slot `i` is in use.
pub open spec fn taken(used: u64, i: int) -> bool {
    0 <= i < 64 && (used >> (i as u64)) & 1u64 == 1u64
}

/// The lowest sub-slot from `from` on and below `n` that is not in use.
pub open spec fn first_untaken(used: u64, from: int, n: int) -> Option<int>
    decreases n - from,
{
    if from >= n {
        None
    } else if !taken(used, from) {
        Some(from)
    } else {
        first_untaken(used, from + 1, n)
    }
}

/// Sub-slot `bit` also in use.
pub open spec fn with_taken(used: u64, bit: int) -> u64 {
    used | (1u64 << (bit as u64))
}

/// Sub-slot `bit` no longer in use.
pub open spec fn without_taken(used: u64, bit: int) -> u64 {
    used & !(1u64 << (bit as u64))
}

/// The bitmask with all of `n` sub-slots in use.
pub open spec fn spec_full_mask(n: usize) -> u64 {
    if n >= 64 {
        u64::MAX
    } else {
        ((1u64 << (n as u64)) - 1) as u64
    }
}

/// No sub-slot from `n` on is in use.
pub open spec fn only_below(used: u64, n: usize) -> bool {
    used & !spec_full_mask(n) == 0
}

/// Bitmask value when every one of `n` sub-slots is in use.
///
/// Handles n = 64, where `1u64 << 64` would overflow.
#[verifier::when_used_as_spec(spec_full_mask)]
pub fn full_mask(n: usize) -> (r: u64)
    ensures
        r == spec_full_mask(n),
{
    if n >= 64 {
        u64::MAX
    } else {
        assert((1u64 << (n as u64)) >= 1u64) by (bit_vector)
            requires
                n < 64,
        ;
        (1u64 << (n as u64)) - 1
    }
}

pub proof fn lemma_with_taken(used: u64, bit: int, other: int)
    requires
        0 <= bit < 64,
    ensures
        taken(with_taken(used, bit), other) <==> other == bit || taken(used, other),
        with_taken(used, bit) != 0,
{
    let b = bit as u64;
    let k = other as u64;
    assert(b < 64 ==> (used | (1u64 << b)) != 0) by (bit_vector);
    assert(b < 64 && k < 64 ==> (((used | (1u64 << b)) >> k) & 1u64 == 1u64 <==> k == b || (used
        >> k) & 1u64 == 1u64)) by (bit_vector);
}

pub proof fn lemma_without_taken(used: u64, bit: int, other: int)
    requires
        0 <= bit < 64,
    ensures
        taken(without_taken(used, bit), other) <==> other != bit && taken(used, other),
{
    let b = bit as u64;
    let k = other as u64;
    assert(b < 64 && k < 64 ==> (((used & !(1u64 << b)) >> k) & 1u64 == 1u64 <==> k != b && (used
        >> k) & 1u64 == 1u64)) by (bit_vector);
}

proof fn lemma_taken_mask(used: u64, bit: u64)
    requires
        bit < 64,
    ensures
        used & (1u64 << bit) == 0 <==> !taken(used, bit as int),
{
    assert(bit < 64 ==> (used & (1u64 << bit) == 0 <==> (used >> bit) & 1u64 != 1u64))
        by (bit_vector);
}

/// Setting a bit below `n`, or clearing any bit, keeps those from `n` on clear.
proof fn lemma_only_below(used: u64, bit: int, n: usize)
    requires
        0 <= bit < n <= 64,
        only_below(used, n),
    ensures
        only_below(with_taken(used, bit), n),
        only_below(without_taken(used, bit), n),
{
    let b = bit as u64;
    let m = n as u64;
    if n >= 64 {
        assert(!0xffff_ffff_ffff_ffffu64 == 0u64) by (bit_vector);
        let x = with_taken(used, bit);
        let y = without_taken(used, bit);
        assert(x & 0u64 == 0u64 && y & 0u64 == 0u64) by (bit_vector);
    } else {
        let full = spec_full_mask(n);
        assert(b < m && m < 64 && full == ((1u64 << m) - 1) as u64 && used & !full == 0 ==> (used
            | (1u64 << b)) & !full == 0 && (used & !(1u64 << b)) & !full == 0) by (bit_vector);
    }
}

pub proof fn lemma_first_untaken(used: u64, from: int, n: int)
    ensures
        match first_untaken(used, from, n) {
            Some(b) => from <= b < n && !taken(used, b) && forall|k: int|
                from <= k < b ==> #[trigger] taken(used, k),
            None => forall|k: int| from <= k < n ==> #[trigger] taken(used, k),
        },
    decreases n - from,
{
    if from < n && taken(used, from) {
        lemma_first_untaken(used, from + 1, n);
    }
}

proof fn lemma_first_untaken_is(used: u64, from: int, n: int, b: int)
    requires
        from <= b < n,
        !taken(used, b),
        forall|k: int| from <= k < b ==> #[trigger] taken(used, k),
    ensures
        first_untaken(used, from, n) == Some(b),
    decreases b - from,
{
    if from < b {
        assert(taken(used, from));
        lemma_first_untaken_is(used, from + 1, n, b);
    }
}

/// A bitmask is full exactly where no sub-slot is free, and else the number of
/// its trailing ones is the lowest free sub-slot.
proof fn lemma_trailing_ones(used: u64, n: usize)
    requires
        1 <= n <= 64,
        only_below(used, n),
    ensures
        used == spec_full_mask(n) <==> first_untaken(used, 0, n as int) is None,
        used != spec_full_mask(n) ==> first_untaken(used, 0, n as int) == Some(
            vstd::std_specs::bits::u64_trailing_ones(used) as int,
        ),
{
    vstd::std_specs::bits::axiom_u64_trailing_ones(used);
    lemma_first_untaken(used, 0, n as int);
    let t = vstd::std_specs::bits::u64_trailing_ones(used) as u64;
    let m = n as u64;
    let full = spec_full_mask(n);
    let rest = (!used) << ((64 - t) as u64);
    assert forall|k: int| 0 <= k < t implies #[trigger] taken(used, k) by {
        let j = k as u64;
        assert((used >> j) & 1u64 == 1u64);
    }
    if used == full {
        assert forall|k: int| 0 <= k < n implies #[trigger] taken(used, k) by {
            let j = k as u64;
            if n >= 64 {
                assert(j < 64 ==> (0xffff_ffff_ffff_ffffu64 >> j) & 1u64 == 1u64) by (bit_vector);
            } else {
                assert(j < m && m < 64 && full == ((1u64 << m) - 1) as u64 ==> (full >> j) & 1u64
                    == 1u64) by (bit_vector);
            }
        }
    } else if t >= n {
        if n < 64 {
            assert(1 <= m && m < 64 && m <= t && t <= 64 && full == ((1u64 << m) - 1) as u64 && used
                & !full == 0 && (!used) << ((64 - t) as u64) == 0 ==> used == full)
                by (bit_vector);
        }
    } else {
        lemma_first_untaken_is(used, 0, n as int, t as int);
    }
}

// ── Handles and slots ─────────────────────────────────────────────────────────

/// One big page checked out from the inner pager, together with its sub-slot
/// bitmask.  Bit `i` = 1 means sub-slot `i` is currently allocated.
#[derive(Clone, Copy, Debug)]
pub struct BigPageSlot<const PARENT_SIZE: usize> {
    pub id: PageId<PARENT_SIZE>,
    pub used: u64,
}

/// An opaque handle to one allocated sub-page inside a `SubPageAllocator`.
///
/// The const generics `PARENT_SIZE` and `SUB_SIZE` ensure that a
/// `SubPageId<4096, 512>` cannot be passed to a `SubPageAllocator<4096, 256>` —
/// the compiler rejects the mismatch.
#[derive(Clone, Copy, Debug, PartialEq, Eq, PartialOrd, Ord, Hash)]
pub struct SubPageId<const PARENT_SIZE: usize, const SUB_SIZE: usize> {
    /// Index into `SubPageAllocator::slots`.
    pub slot_index: u32,
    /// Which sub-slot within that big page (0 .. PARENT_SIZE / SUB_SIZE).
    pub sub_index: u32,
}

impl<const PARENT_SIZE: usize, const SUB_SIZE: usize> SubPageId<PARENT_SIZE, SUB_SIZE> {
    /// The handle of sub-slot `sub_index` of slot `slot_index`, allocated or not.
    pub fn new_raw(slot_index: u32, sub_index: u32) -> (r: Self)
        ensures
            r.slot_index == slot_index,
            r.sub_index == sub_index,
    {
        SubPageId { slot_index, sub_index }
    }

    /// A number that orders handles by slot, then by sub-slot.
    pub open spec fn key(self) -> u64 {
        (self.slot_index * 0x1_0000_0000 + self.sub_index) as u64
    }

    fn to_key(&self) -> (r: u64)
        ensures
            r == self.key(),
            r == self.slot_index * 0x1_0000_0000 + self.sub_index,
    {
        self.slot_index as u64 * 0x1_0000_0000 + self.sub_index as u64
    }
}

/// A sub-page allocator that divides big pages from an inner `Pager<PARENT_SIZE>`
/// into sub-pages of `SUB_SIZE` bytes each.
///
/// # Constraints
///
/// - `SUB_SIZE` must be a power of two.
/// - `PARENT_SIZE` must be divisible by `SUB_SIZE`.
/// - `SUB_SIZE` must be strictly less than `PARENT_SIZE`.
/// - `PARENT_SIZE / SUB_SIZE` must be at most 64 (fits in a `u64` bitmask).
///
/// # Persistence
///
/// Sub-allocation state is in-memory only.  The inner `Pager`'s file is updated
/// when big pages are allocated or freed, but the sub-slot bitmasks are not
/// written to disk.  Reconstruct sub-allocation state after reopening the file.
pub struct SubPageAllocator<const PARENT_SIZE: usize, const SUB_SIZE: usize> {
    pub pager: Pager<PARENT_SIZE>,
    /// One entry per big page currently (or previously) checked out.
    /// `None` is a tombstone: the big page was fully freed and returned to the
    /// inner pager; its slot index may be reused by a future allocation.
    pub slots: Vec<Option<BigPageSlot<PARENT_SIZE>>>,
}

#[verifier::ext_equal]
pub struct SubView<const PARENT_SIZE: usize> {
    pub pager: PagerView,
    pub slots: Seq<Option<BigPageSlot<PARENT_SIZE>>>,
}

impl<const PARENT_SIZE: usize, const SUB_SIZE: usize> View for SubPageAllocator<
    PARENT_SIZE,
    SUB_SIZE,
> {
    type V = SubView<PARENT_SIZE>;

    open spec fn view(&self) -> SubView<PARENT_SIZE> {
        SubView { pager: self.pager@, slots: self.slots@ }
    }
}

/// `sub_size` divides `parent_size` into at least two and at most 64 parts, and
/// is a power of two.
pub open spec fn valid_sub_size(parent_size: usize, sub_size: usize) -> bool {
    &&& 0 < sub_size < parent_size
    &&& pow2(log2_of(sub_size as nat)) == sub_size
    &&& parent_size % sub_size == 0
    &&& parent_size / sub_size <= 64
}

impl<const PARENT_SIZE: usize> SubView<PARENT_SIZE> {
    /// The first slot from `from` on with a free sub-slot, and its lowest one.
    pub open spec fn open_from(self, from: int, n: int) -> Option<(int, int)>
        decreases self.slots.len() - from,
    {
        if from >= self.slots.len() {
            None
        } else {
            match self.slots[from] {
                Some(slot) if first_untaken(slot.used, 0, n) is Some => Some(
                    (from, first_untaken(slot.used, 0, n)->0),
                ),
                _ => self.open_from(from + 1, n),
            }
        }
    }

    /// The first tombstone from `from` on; the number of slots if there is none.
    pub open spec fn vacant_from(self, from: int) -> int
        decreases self.slots.len() - from,
    {
        if from >= self.slots.len() || self.slots[from] is None {
            from
        } else {
            self.vacant_from(from + 1)
        }
    }

    /// Slot `i` with other sub-slots in use.
    pub open spec fn with_used(self, i: int, used: u64) -> SubView<PARENT_SIZE> {
        SubView {
            slots: self.slots.update(i, Some(BigPageSlot { id: self.slots[i]->0.id, used })),
            ..self
        }
    }

    /// A big page of which the first sub-slot is in use, in slot `i`.
    pub open spec fn with_big(self, i: int, id: PageId<PARENT_SIZE>) -> SubView<PARENT_SIZE> {
        let slot = Some(BigPageSlot { id, used: 1u64 });
        SubView {
            slots: if i < self.slots.len() {
                self.slots.update(i, slot)
            } else {
                self.slots.push(slot)
            },
            ..self
        }
    }

    pub open spec fn with_pager(self, pager: PagerView) -> SubView<PARENT_SIZE> {
        SubView { pager, ..self }
    }

    /// Why sub-slot `b` of slot `i` cannot be freed, if it cannot.
    pub open spec fn free_refusal(self, i: int, b: int, n: int) -> Option<MappedPageError> {
        if b >= n || i >= self.slots.len() {
            Some(MappedPageError::OutOfBounds)
        } else {
            match self.slots[i] {
                Some(slot) if taken(slot.used, b) => None,
                _ => Some(MappedPageError::DoubleFree),
            }
        }
    }

    /// Why sub-slot `b` of slot `i` has no big page behind it, if it has none.
    pub open spec fn get_refusal(self, i: int, b: int, n: int) -> Option<MappedPageError> {
        if b >= n || i >= self.slots.len() || self.slots[i] is None {
            Some(MappedPageError::OutOfBounds)
        } else {
            self.pager.page_refusal(self.slots[i]->0.id.0)
        }
    }
}

impl<const PARENT_SIZE: usize, const SUB_SIZE: usize> SubPageAllocator<PARENT_SIZE, SUB_SIZE> {
    /// Sub-slots of a big page.
    pub open spec fn per_page() -> int {
        PARENT_SIZE as int / SUB_SIZE as int
    }

    /// Every slot with a big page has a sub-slot in use, and none beyond the page.
    pub open spec fn masks_fit(v: SubView<PARENT_SIZE>) -> bool {
        forall|i: int|
            0 <= i < v.slots.len() ==> (#[trigger] v.slots[i] matches Some(slot) ==> {
                &&& slot.used != 0
                &&& only_below(slot.used, Self::per_page() as usize)
            })
    }

    /// The sizes fit, the pager can be used, every slot with a big page has a
    /// sub-slot in use and none beyond the page, and the big pages are allocated and
    /// none is checked out twice.
    pub open spec fn wf(self) -> bool {
        &&& valid_sub_size(PARENT_SIZE, SUB_SIZE)
        &&& self.pager.wf()
        &&& self@.slots.len() <= u32::MAX
        &&& Self::masks_fit(self@)
        &&& self@.checked_out()
    }

    /// Create a new `SubPageAllocator` wrapping `pager`.
    ///
    /// No pages are allocated from `pager` until the first allocation.
    pub fn new(pager: Pager<PARENT_SIZE>) -> (r: Self)
        requires
            valid_sub_size(PARENT_SIZE, SUB_SIZE),
            pager.wf(),
        ensures
            r.wf(),
            r@.pager == pager@,
            r@.slots == Seq::<Option<BigPageSlot<PARENT_SIZE>>>::empty(),
    {
        let r = SubPageAllocator { pager, slots: Vec::new() };
        assert(r@.slots =~= Seq::empty());
        r
    }

    /// Borrow the inner pager (e.g. to query `page_count` or `free_page_count`).
    pub fn pager(&self) -> (r: &Pager<PARENT_SIZE>)
        ensures
            *r == self.pager,
    {
        &self.pager
    }

    /// Consume this allocator and return the inner pager.
    ///
    /// Any big pages that still have live sub-slots allocated remain checked out
    /// in the pager.  Callers are responsible for freeing them if needed.
    pub fn into_pager(self) -> (r: Pager<PARENT_SIZE>)
        ensures
            r == self.pager,
    {
        self.pager
    }
}

// ── Allocation ────────────────────────────────────────────────────────────────

/// An allocation of a sub-page that waits for a big page.
#[derive(Debug)]
pub struct SubAllocTask<const PARENT_SIZE: usize>(pub AllocTask<PARENT_SIZE>);

impl<const PARENT_SIZE: usize> SubAllocTask<PARENT_SIZE> {
    /// The allocation belongs to an allocator in this state: there can be one more
    /// slot, and a page that is being committed is not checked out yet.
    pub open spec fn belongs_to(self, v: SubView<PARENT_SIZE>) -> bool {
        &&& self.0.belongs_to(v.pager)
        &&& v.slots.len() < u32::MAX
        &&& self.0 matches AllocTask::Commit(id) ==> {
            &&& v.pager.state.meta.allocated(id.0 as int)
            &&& !v.has_out(id.0)
        }
    }
}

impl<const PARENT_SIZE: usize> SubView<PARENT_SIZE> {
    /// How an allocation goes on once `turn` says how that of its big page does:
    /// the big page goes to the first tombstone, or to a new slot.
    pub open spec fn big_next<const SUB_SIZE: usize>(
        self,
        turn: Turn<PageId<PARENT_SIZE>, AllocTask<PARENT_SIZE>>,
        after: SubView<PARENT_SIZE>,
        r: Turn<SubPageId<PARENT_SIZE, SUB_SIZE>, SubAllocTask<PARENT_SIZE>>,
    ) -> bool {
        match turn {
            Turn::Done(Ok(id)) => {
                let i = self.vacant_from(0);
                &&& after == self.with_big(i, id)
                &&& r == Turn::<
                    SubPageId<PARENT_SIZE, SUB_SIZE>,
                    SubAllocTask<PARENT_SIZE>,
                >::Done(Ok(SubPageId { slot_index: i as u32, sub_index: 0 }))
            },
            Turn::Done(Err(e)) => {
                &&& after == self
                &&& r == Turn::<
                    SubPageId<PARENT_SIZE, SUB_SIZE>,
                    SubAllocTask<PARENT_SIZE>,
                >::Done(Err(e))
            },
            Turn::Ask(request, task) => {
                &&& after == self
                &&& r == Turn::<
                    SubPageId<PARENT_SIZE, SUB_SIZE>,
                    SubAllocTask<PARENT_SIZE>,
                >::Ask(request, SubAllocTask(task))
            },
        }
    }
}

impl<const PARENT_SIZE: usize, const SUB_SIZE: usize> SubPageAllocator<PARENT_SIZE, SUB_SIZE> {
    pub proof fn lemma_sizes()
        requires
            valid_sub_size(PARENT_SIZE, SUB_SIZE),
        ensures
            2 <= Self::per_page() <= 64,
            Self::per_page() * SUB_SIZE == PARENT_SIZE,
    {
        let n = Self::per_page();
        let p = PARENT_SIZE as int;
        let s = SUB_SIZE as int;
        vstd::arithmetic::div_mod::lemma_fundamental_div_mod(p, s);
        assert(n * s == s * n) by (nonlinear_arith);
        assert(n >= 2) by (nonlinear_arith)
            requires
                n * s == p,
                0 < s < p,
        ;
    }

    /// How an allocation begins: with a sub-slot of a big page in use, or with the
    /// allocation of a big page.
    pub open spec fn allocated(
        v: SubView<PARENT_SIZE>,
        after: SubView<PARENT_SIZE>,
        r: Turn<SubPageId<PARENT_SIZE, SUB_SIZE>, SubAllocTask<PARENT_SIZE>>,
    ) -> bool {
        match v.open_from(0, Self::per_page()) {
            Some((i, b)) => {
                &&& after == v.with_used(i, with_taken(v.slots[i]->0.used, b))
                &&& r == Turn::<
                    SubPageId<PARENT_SIZE, SUB_SIZE>,
                    SubAllocTask<PARENT_SIZE>,
                >::Done(Ok(SubPageId { slot_index: i as u32, sub_index: b as u32 }))
            },
            None => {
                &&& after == v.with_pager(after.pager)
                &&& match r {
                    Turn::Ask(request, SubAllocTask(task)) => v.pager.alloc_begun(
                        after.pager,
                        Turn::Ask(request, task),
                    ),
                    Turn::Done(Err(e)) => v.pager.alloc_begun::<PARENT_SIZE>(
                        after.pager,
                        Turn::Done(Err(e)),
                    ),
                    Turn::Done(Ok(_)) => false,
                }
            },
        }
    }

    /// How an allocation that waits for a big page goes on after `event`.
    pub open spec fn alloc_resumed(
        v: SubView<PARENT_SIZE>,
        task: SubAllocTask<PARENT_SIZE>,
        event: IoEvent,
        after: SubView<PARENT_SIZE>,
        r: Turn<SubPageId<PARENT_SIZE, SUB_SIZE>, SubAllocTask<PARENT_SIZE>>,
    ) -> bool {
        match task.0 {
            AllocTask::Commit(id) => match event {
                IoEvent::Done => v.with_pager(v.pager.committed()).big_next(
                    Turn::Done(Ok(id)),
                    after,
                    r,
                ),
                IoEvent::Failed { error, .. } => v.big_next(
                    Turn::Done(Err(MappedPageError::Io(error))),
                    after,
                    r,
                ),
            },
            AllocTask::Grow(grow) => {
                let (p, turn) = v.pager.grow_next(grow, event, PARENT_SIZE);
                match turn {
                    GrowTurn::Grown => {
                        &&& after == v.with_pager(after.pager)
                        &&& r matches Turn::Ask(request, SubAllocTask(next))
                        &&& p.alloc_next(after.pager, Turn::Ask(request, next))
                    },
                    GrowTurn::Failed(e) => v.with_pager(p).big_next(Turn::Done(Err(e)), after, r),
                    GrowTurn::Ask(request, next) => v.with_pager(p).big_next(
                        Turn::Ask(request, AllocTask::Grow(next)),
                        after,
                        r,
                    ),
                }
            },
        }
    }

    /// Allocate a sub-page: from the first big page that has a free sub-slot, or
    /// else from a fresh one.
    pub fn allocate(&mut self) -> (r: Turn<
        SubPageId<PARENT_SIZE, SUB_SIZE>,
        SubAllocTask<PARENT_SIZE>,
    >)
        requires
            old(self).wf(),
            old(self)@.open_from(0, Self::per_page()) is None ==> {
                &&& old(self)@.slots.len() < u32::MAX
                &&& old(self)@.pager.can_alloc(PARENT_SIZE)
            },
        ensures
            final(self).wf(),
            Self::allocated(old(self)@, final(self)@, r),
            r matches Turn::Ask(_, task) ==> task.belongs_to(final(self)@),
    {
        // Pass 1: find a partially-used big page with a free sub-slot.
        if let Some((i, bit)) = self.find_open() {
            proof {
                Self::lemma_sizes();
            }
            if let Some(slot) = self.slots[i] {
                assert(self@.slots[i as int] == Some(slot));
                proof {
                    lemma_with_taken(slot.used, bit as int, 0);
                    lemma_only_below(slot.used, bit as int, Self::per_page() as usize);
                    law_sub_alloc_keeps_checked_out(
                        self@,
                        Self::per_page(),
                        i as int,
                        bit as int,
                    );
                }
                let used: u64 = slot.used | (1u64 << (bit as u64));
                self.slots[i] = Some(BigPageSlot { id: slot.id, used });
                assert(self@ =~= old(self)@.with_used(i as int, used));
                return Turn::Done(Ok(SubPageId { slot_index: i as u32, sub_index: bit }));
            }
        }
        // Pass 2: need a fresh big page; allocate it from the inner pager.
        proof {
            law_pager_keeps_checked_out(self@, self@.pager.mapped(false));
            if let Some(id) = self@.pager.state.meta.lowest_free() {
                law_mark_keeps_checked_out(self@, id);
            }
        }
        match self.pager.allocate() {
            Turn::Done(Ok(id)) => self.place_big(id),
            Turn::Done(Err(e)) => Turn::Done(Err(e)),
            Turn::Ask(request, task) => Turn::Ask(request, SubAllocTask(task)),
        }
    }

    /// The first slot with a free sub-slot, and its lowest one.
    pub(crate) fn find_open(&self) -> (r: Option<(usize, u32)>)
        requires
            self.wf(),
        ensures
            match r {
                Some((i, bit)) => {
                    &&& self@.open_from(0, Self::per_page()) == Some((i as int, bit as int))
                    &&& i < self@.slots.len()
                    &&& self@.slots[i as int] is Some
                    &&& bit < Self::per_page()
                },
                None => self@.open_from(0, Self::per_page()) is None,
            },
    {
        let n: usize = PARENT_SIZE / SUB_SIZE;
        let full = full_mask(n);
        proof {
            Self::lemma_sizes();
        }
        let mut i: usize = 0;
        while i < self.slots.len()
            invariant
                self.wf(),
                n == Self::per_page(),
                2 <= n <= 64,
                full == spec_full_mask(n),
                i <= self.slots@.len(),
                self@.open_from(0, n as int) == self@.open_from(i as int, n as int),
            decreases self.slots.len() - i,
        {
            if let Some(slot) = self.slots[i] {
                assert(self@.slots[i as int] == Some(slot));
                proof {
                    lemma_trailing_ones(slot.used, n);
                    lemma_first_untaken(slot.used, 0, n as int);
                }
                if slot.used != full {
                    return Some((i, slot.used.trailing_ones()));
                }
            }
            i += 1;
        }
        None
    }

    /// Put a fresh big page into the first tombstone, or into a new slot.
    fn place_big(&mut self, id: PageId<PARENT_SIZE>) -> (r: Turn<
        SubPageId<PARENT_SIZE, SUB_SIZE>,
        SubAllocTask<PARENT_SIZE>,
    >)
        requires
            old(self).wf(),
            old(self)@.slots.len() < u32::MAX,
            old(self)@.pager.state.meta.allocated(id.0 as int),
            !old(self)@.has_out(id.0),
        ensures
            final(self).wf(),
            final(self)@ == old(self)@.with_big(old(self)@.vacant_from(0), id),
            r == Turn::<SubPageId<PARENT_SIZE, SUB_SIZE>, SubAllocTask<PARENT_SIZE>>::Done(
                Ok(SubPageId { slot_index: old(self)@.vacant_from(0) as u32, sub_index: 0 }),
            ),
    {
        proof {
            Self::lemma_sizes();
            lemma_one_only_below(Self::per_page() as usize);
            law_placed_keeps_checked_out(self@, id.0);
        }
        let new_slot = BigPageSlot { id, used: 1u64 };
        let mut i: usize = 0;
        // Reuse a tombstone slot if one exists.
        while i < self.slots.len()
            invariant
                *self == *old(self),
                self.wf(),
                self@.slots.len() < u32::MAX,
                new_slot == (BigPageSlot { id, used: 1u64 }),
                only_below(1u64, Self::per_page() as usize),
                self@.with_big(self@.vacant_from(0), id).checked_out(),
                i <= self.slots@.len(),
                self@.vacant_from(0) == self@.vacant_from(i as int),
            decreases self.slots.len() - i,
        {
            let vacant = match self.slots[i] {
                Some(_) => false,
                None => true,
            };
            if vacant {
                self.slots[i] = Some(new_slot);
                assert(self@ =~= old(self)@.with_big(i as int, id));
                return Turn::Done(Ok(SubPageId { slot_index: i as u32, sub_index: 0 }));
            }
            i += 1;
        }
        // No tombstone; grow the vec.
        self.slots.push(Some(new_slot));
        assert(self@ =~= old(self)@.with_big(i as int, id));
        Turn::Done(Ok(SubPageId { slot_index: i as u32, sub_index: 0 }))
    }

    /// Go on with an allocation that waits for a big page.
    pub fn resume_alloc(&mut self, task: SubAllocTask<PARENT_SIZE>, event: IoEvent) -> (r: Turn<
        SubPageId<PARENT_SIZE, SUB_SIZE>,
        SubAllocTask<PARENT_SIZE>,
    >)
        requires
            old(self).wf(),
            task.belongs_to(old(self)@),
        ensures
            final(self).wf(),
            Self::alloc_resumed(old(self)@, task, event, final(self)@, r),
            r matches Turn::Ask(_, next) ==> next.belongs_to(final(self)@),
    {
        proof {
            let v = self@;
            if task.0 is Grow {
                let (p, turn) = v.pager.grow_next(task.0->Grow_0, event, PARENT_SIZE);
                law_growth_keeps_checked_out(v);
                if turn is Grown {
                    law_pager_keeps_checked_out(
                        v.with_pager(v.pager.with_meta(v.pager.state.meta.doubled())),
                        p,
                    );
                    law_mark_keeps_checked_out(v.with_pager(p), p.state.meta.lowest_free()->0);
                } else {
                    law_pager_keeps_checked_out(v, p);
                }
            } else {
                law_pager_keeps_checked_out(v, v.pager.committed());
            }
        }
        match self.pager.resume_alloc(task.0, event) {
            Turn::Done(Ok(id)) => self.place_big(id),
            Turn::Done(Err(e)) => Turn::Done(Err(e)),
            Turn::Ask(request, next) => Turn::Ask(request, SubAllocTask(next)),
        }
    }
}

/// Of the bitmask 1 the first sub-slot is in use, and no other.
pub proof fn lemma_taken_of_one(k: int)
    ensures
        taken(1u64, k) <==> k == 0,
{
    let j = k as u64;
    assert(j < 64 ==> ((1u64 >> j) & 1u64 == 1u64 <==> j == 0)) by (bit_vector);
}

/// Bitmasks with the same sub-slots in use are equal.
pub proof fn lemma_same_taken(a: u64, b: u64)
    requires
        forall|k: int| #[trigger] taken(a, k) <==> taken(b, k),
    ensures
        a == b,
{
    let x = a ^ b;
    assert(x == 0 ==> a == b) by (bit_vector)
        requires
            x == a ^ b,
    ;
    assert forall|k: int| !#[trigger] taken(x, k) by {
        let j = k as u64;
        assert(taken(a, k) <==> taken(b, k));
        assert(j < 64 ==> (((a ^ b) >> j) & 1u64 == 1u64 <==> ((a >> j) & 1u64 == 1u64) != ((b >> j)
            & 1u64 == 1u64))) by (bit_vector);
    }
    lemma_zero_mask(x);
}

/// No sub-slot from `n` on is in use.
pub proof fn lemma_taken_below(used: u64, n: usize, k: int)
    requires
        1 <= n <= 64,
        only_below(used, n),
        taken(used, k),
    ensures
        k < n,
{
    let j = k as u64;
    let m = n as u64;
    if n < 64 && k >= n {
        let full = spec_full_mask(n);
        assert(m <= j && j < 64 && m < 64 && full == ((1u64 << m) - 1) as u64 && used & !full == 0
            ==> (used >> j) & 1u64 != 1u64) by (bit_vector);
    }
}

proof fn lemma_one_only_below(n: usize)
    requires
        1 <= n <= 64,
    ensures
        only_below(1u64, n),
{
    let m = n as u64;
    if n >= 64 {
        assert(1u64 & !0xffff_ffff_ffff_ffffu64 == 0u64) by (bit_vector);
    } else {
        let full = spec_full_mask(n);
        assert(1 <= m && m < 64 && full == ((1u64 << m) - 1) as u64 ==> 1u64 & !full == 0)
            by (bit_vector);
    }
}

// ── Release ───────────────────────────────────────────────────────────────────

impl<const PARENT_SIZE: usize> SubView<PARENT_SIZE> {
    /// Sub-slot `b` of slot `i` free.  A slot with no sub-slot in use becomes a
    /// tombstone.
    pub open spec fn with_freed(self, i: int, b: int) -> SubView<PARENT_SIZE> {
        let used = without_taken(self.slots[i]->0.used, b);
        if used == 0 {
            SubView { slots: self.slots.update(i, None), ..self }
        } else {
            self.with_used(i, used)
        }
    }

    /// Freeing sub-slot `b` of slot `i` leaves no sub-slot of it in use.
    pub open spec fn empties(self, i: int, b: int) -> bool {
        without_taken(self.slots[i]->0.used, b) == 0
    }
}

impl<const PARENT_SIZE: usize, const SUB_SIZE: usize> SubPageAllocator<PARENT_SIZE, SUB_SIZE> {
    /// Why handle `id` cannot be freed, if it cannot.
    pub open spec fn refusal(v: SubView<PARENT_SIZE>, id: SubPageId<PARENT_SIZE, SUB_SIZE>) -> Option<
        MappedPageError,
    > {
        v.free_refusal(id.slot_index as int, id.sub_index as int, Self::per_page())
    }

    pub(crate) fn find_refusal(&self, id: SubPageId<PARENT_SIZE, SUB_SIZE>) -> (r: Option<MappedPageError>)
        requires
            self.wf(),
        ensures
            r == Self::refusal(self@, id),
    {
        proof {
            Self::lemma_sizes();
        }
        if id.sub_index as usize >= PARENT_SIZE / SUB_SIZE {
            return Some(MappedPageError::OutOfBounds);
        }
        if id.slot_index as usize >= self.slots.len() {
            return Some(MappedPageError::OutOfBounds);
        }
        match self.slots[id.slot_index as usize] {
            Some(slot) => {
                proof {
                    lemma_taken_mask(slot.used, id.sub_index as u64);
                }
                if slot.used & (1u64 << (id.sub_index as u64)) == 0 {
                    Some(MappedPageError::DoubleFree)
                } else {
                    None
                }
            },
            None => Some(MappedPageError::DoubleFree),
        }
    }

    /// If freeing `id` gives a big page back, the pager's counters can take it.
    pub open spec fn free_fits(
        v: SubView<PARENT_SIZE>,
        id: SubPageId<PARENT_SIZE, SUB_SIZE>,
    ) -> bool {
        let i = id.slot_index as int;
        let big = v.slots[i]->0.id.0;
        Self::refusal(v, id) is None && v.empties(i, id.sub_index as int) ==> v.pager.can_free(big)
    }

    /// How a release begins: it is refused, or the sub-slot is free; and a big page
    /// with no sub-page left is given back.
    pub open spec fn freed(
        v: SubView<PARENT_SIZE>,
        id: SubPageId<PARENT_SIZE, SUB_SIZE>,
        after: SubView<PARENT_SIZE>,
        r: Turn<(), FreeTask>,
    ) -> bool {
        let i = id.slot_index as int;
        let b = id.sub_index as int;
        match Self::refusal(v, id) {
            Some(e) => {
                &&& after == v
                &&& r == Turn::<(), FreeTask>::Done(Err(e))
            },
            None => {
                let w = v.with_freed(i, b);
                if !v.empties(i, b) {
                    &&& after == w
                    &&& r == Turn::<(), FreeTask>::Done(Ok(()))
                } else {
                    &&& after == w.with_pager(after.pager)
                    &&& w.pager.free_next(v.slots[i]->0.id.0, PARENT_SIZE, after.pager, r)
                }
            },
        }
    }

    /// Free a sub-page.  A big page with no sub-page left is given back to the
    /// inner pager.
    pub fn free(&mut self, id: SubPageId<PARENT_SIZE, SUB_SIZE>) -> (r: Turn<(), FreeTask>)
        requires
            old(self).wf(),
            Self::free_fits(old(self)@, id),
        ensures
            final(self).wf(),
            Self::freed(old(self)@, id, final(self)@, r),
    {
        if let Some(e) = self.find_refusal(id) {
            return Turn::Done(Err(e));
        }
        let i: usize = id.slot_index as usize;
        proof {
            Self::lemma_sizes();
        }
        if let Some(slot) = self.slots[i] {
            assert(self@.slots[i as int] == Some(slot));
            proof {
                lemma_only_below(slot.used, id.sub_index as int, Self::per_page() as usize);
                law_sub_free_keeps_checked_out(self@, i as int, id.sub_index as int);
            }
            let used: u64 = slot.used & !(1u64 << (id.sub_index as u64));
            if used == 0 {
                // All sub-slots free: set tombstone first, then release the big page.
                self.slots[i] = None;
                assert(self@ =~= old(self)@.with_freed(i as int, id.sub_index as int));
                return self.pager.free(slot.id);
            }
            self.slots[i] = Some(BigPageSlot { id: slot.id, used });
            assert(self@ =~= old(self)@.with_freed(i as int, id.sub_index as int));
        }
        Turn::Done(Ok(()))
    }

    /// Go on with a release that gave a big page back.
    pub fn resume_free(&mut self, task: FreeTask, event: IoEvent) -> (r: Turn<(), FreeTask>)
        requires
            old(self).wf(),
        ensures
            final(self).wf(),
            final(self)@ == old(self)@.with_pager(final(self)@.pager),
            old(self)@.pager.free_resumed(event, final(self)@.pager, r),
    {
        proof {
            law_pager_keeps_checked_out(self@, self@.pager.committed());
        }
        self.pager.resume_free(task, event)
    }
}

// ── Batches ───────────────────────────────────────────────────────────────────

/// The numbers that order the handles `ids`.
pub open spec fn keys<const PARENT_SIZE: usize, const SUB_SIZE: usize>(
    ids: Seq<SubPageId<PARENT_SIZE, SUB_SIZE>>,
) -> Seq<u64> {
    Seq::new(ids.len(), |i: int| ids[i].key())
}

/// The big pages of the slots below `upto` that have no sub-slot in use.
pub open spec fn emptied<const PARENT_SIZE: usize>(
    slots: Seq<Option<BigPageSlot<PARENT_SIZE>>>,
    upto: int,
) -> Seq<PageId<PARENT_SIZE>>
    decreases upto,
{
    if upto <= 0 {
        Seq::empty()
    } else {
        match slots[upto - 1] {
            Some(slot) if slot.used == 0 => emptied(slots, upto - 1).push(slot.id),
            _ => emptied(slots, upto - 1),
        }
    }
}

/// The slots, with a tombstone for each that has no sub-slot in use.
pub open spec fn tombstoned<const PARENT_SIZE: usize>(
    slots: Seq<Option<BigPageSlot<PARENT_SIZE>>>,
) -> Seq<Option<BigPageSlot<PARENT_SIZE>>> {
    Seq::new(
        slots.len(),
        |i: int|
            match slots[i] {
                Some(slot) if slot.used == 0 => None,
                _ => slots[i],
            },
    )
}

impl<const PARENT_SIZE: usize, const SUB_SIZE: usize> SubPageAllocator<PARENT_SIZE, SUB_SIZE> {
    /// The first handle, by slot and sub-slot, that cannot be freed.
    pub open spec fn least_bad(
        v: SubView<PARENT_SIZE>,
        ids: Seq<SubPageId<PARENT_SIZE, SUB_SIZE>>,
    ) -> Option<SubPageId<PARENT_SIZE, SUB_SIZE>>
        decreases ids.len(),
    {
        if ids.len() == 0 {
            None
        } else {
            let before = Self::least_bad(v, ids.drop_last());
            if Self::refusal(v, ids.last()) is None {
                before
            } else {
                match before {
                    Some(bad) if bad.key() < ids.last().key() => before,
                    _ => Some(ids.last()),
                }
            }
        }
    }

    /// Why the handles `ids` cannot be freed together, if they cannot: a handle
    /// that is named twice, or else the first, by slot and sub-slot, that cannot
    /// be freed.
    pub open spec fn bulk_refusal(
        v: SubView<PARENT_SIZE>,
        ids: Seq<SubPageId<PARENT_SIZE, SUB_SIZE>>,
    ) -> Option<MappedPageError> {
        if !keys(ids).no_duplicates() {
            Some(MappedPageError::DoubleFree)
        } else {
            match Self::least_bad(v, ids) {
                Some(bad) => Self::refusal(v, bad),
                None => None,
            }
        }
    }

    /// The sub-slots `ids` free, with slots that have none in use kept as they
    /// are.
    pub open spec fn cleared(
        v: SubView<PARENT_SIZE>,
        ids: Seq<SubPageId<PARENT_SIZE, SUB_SIZE>>,
    ) -> SubView<PARENT_SIZE>
        decreases ids.len(),
    {
        if ids.len() == 0 {
            v
        } else {
            let before = Self::cleared(v, ids.drop_last());
            let i = ids.last().slot_index as int;
            before.with_used(
                i,
                without_taken(before.slots[i]->0.used, ids.last().sub_index as int),
            )
        }
    }

    /// How the release of the handles `ids` goes on: it is refused as a whole, or
    /// the sub-slots are free and the big pages with none in use are given back in
    /// slot order.
    pub open spec fn freed_bulk(
        v: SubView<PARENT_SIZE>,
        ids: Seq<SubPageId<PARENT_SIZE, SUB_SIZE>>,
        after: SubView<PARENT_SIZE>,
        step: BulkFreeStep<PageId<PARENT_SIZE>>,
    ) -> bool {
        match Self::bulk_refusal(v, ids) {
            Some(e) => {
                &&& after == v
                &&& step == BulkFreeStep::<PageId<PARENT_SIZE>>::Done(Err(e))
            },
            None => {
                let w = Self::cleared(v, ids);
                &&& after == (SubView { slots: tombstoned(w.slots), ..w })
                &&& free_step(emptied(w.slots, w.slots.len() as int), 0, step)
            },
        }
    }

    /// Begin to allocate `count` sub-pages, one after the other.
    ///
    /// If one cannot be allocated, those allocated before it are freed again.
    pub fn alloc_bulk(&self, count: usize) -> (r: BulkStep<SubPageId<PARENT_SIZE, SUB_SIZE>>)
        ensures
            start_step(count, r),
    {
        BulkAlloc::start(count)
    }

    /// Free several sub-pages.
    ///
    /// All ids are validated before any state changes.  The big pages that have no
    /// sub-page left are then to be given back to the inner pager, in slot order
    /// (see [`release`](Self::release)).
    pub fn free_bulk(&mut self, ids: Vec<SubPageId<PARENT_SIZE, SUB_SIZE>>) -> (r: BulkFreeStep<
        PageId<PARENT_SIZE>,
    >)
        requires
            old(self).wf(),
        ensures
            final(self).wf(),
            Self::freed_bulk(old(self)@, ids@, final(self)@, r),
    {
        let mut numbers: Vec<u64> = Vec::new();
        let mut i: usize = 0;
        while i < ids.len()
            invariant
                i <= ids@.len(),
                numbers@ == keys(ids@).take(i as int),
            decreases ids.len() - i,
        {
            numbers.push(ids[i].to_key());
            i += 1;
            assert(numbers@ =~= keys(ids@).take(i as int));
        }
        assert(numbers@ =~= keys(ids@));
        if has_duplicates(&numbers) {
            return BulkFreeStep::Done(Err(MappedPageError::DoubleFree));
        }
        if let Some(e) = self.find_bulk_refusal(&ids) {
            return BulkFreeStep::Done(Err(e));
        }
        proof {
            law_sub_free_bulk_keeps_checked_out(self@, ids@);
        }
        self.clear(&ids);
        let to_release = self.sweep();
        BulkFree::start(to_release)
    }

    /// Why the first handle, by slot and sub-slot, that cannot be freed cannot.
    fn find_bulk_refusal(&self, ids: &Vec<SubPageId<PARENT_SIZE, SUB_SIZE>>) -> (r: Option<
        MappedPageError,
    >)
        requires
            self.wf(),
        ensures
            match r {
                Some(e) => Self::least_bad(self@, ids@) matches Some(bad) && Self::refusal(
                    self@,
                    bad,
                ) == Some(e),
                None => Self::least_bad(self@, ids@) is None,
            },
    {
        let mut bad: Option<SubPageId<PARENT_SIZE, SUB_SIZE>> = None;
        let mut i: usize = 0;
        assert(ids@.take(0) =~= Seq::empty());
        while i < ids.len()
            invariant
                self.wf(),
                i <= ids@.len(),
                bad == Self::least_bad(self@, ids@.take(i as int)),
                bad matches Some(b) ==> Self::refusal(self@, b) is Some,
            decreases ids.len() - i,
        {
            let id = ids[i];
            assert(ids@.take(i + 1).drop_last() =~= ids@.take(i as int));
            if self.find_refusal(id).is_some() {
                let lower = match bad {
                    Some(b) => b.to_key() < id.to_key(),
                    None => false,
                };
                if !lower {
                    bad = Some(id);
                }
            }
            i += 1;
        }
        assert(ids@.take(i as int) =~= ids@);
        match bad {
            Some(b) => self.find_refusal(b),
            None => None,
        }
    }

    /// Clear the bits of handles that are all allocated.
    fn clear(&mut self, ids: &Vec<SubPageId<PARENT_SIZE, SUB_SIZE>>)
        requires
            old(self).wf(),
            Self::least_bad(old(self)@, ids@) is None,
        ensures
            final(self)@ == Self::cleared(old(self)@, ids@),
            final(self).pager == old(self).pager,
            final(self)@.slots.len() == old(self)@.slots.len(),
            forall|i: int|
                0 <= i < final(self)@.slots.len() ==> (#[trigger] final(self)@.slots[i] matches Some(
                    slot,
                ) ==> only_below(slot.used, Self::per_page() as usize)),
    {
        proof {
            Self::lemma_sizes();
        }
        let mut k: usize = 0;
        assert(ids@.take(0) =~= Seq::empty());
        while k < ids.len()
            invariant
                old(self).wf(),
                2 <= Self::per_page() <= 64,
                Self::least_bad(old(self)@, ids@) is None,
                k <= ids@.len(),
                self.pager == old(self).pager,
                self@ == Self::cleared(old(self)@, ids@.take(k as int)),
                self@.slots.len() == old(self)@.slots.len(),
                forall|i: int|
                    0 <= i < self@.slots.len() ==> (#[trigger] self@.slots[i] is Some <==> old(
                        self,
                    )@.slots[i] is Some),
                forall|i: int|
                    0 <= i < self@.slots.len() ==> (#[trigger] self@.slots[i] matches Some(slot)
                        ==> only_below(slot.used, Self::per_page() as usize)),
            decreases ids.len() - k,
        {
            let id = ids[k];
            proof {
                Self::lemma_none_bad(old(self)@, ids@, k as int);
                assert(ids@.take(k + 1).drop_last() =~= ids@.take(k as int));
            }
            let i: usize = id.slot_index as usize;
            assert(self@.slots[i as int] is Some <==> old(self)@.slots[i as int] is Some);
            if let Some(slot) = self.slots[i] {
                assert(self@.slots[i as int] == Some(slot));
                proof {
                    lemma_only_below(slot.used, id.sub_index as int, Self::per_page() as usize);
                }
                let used: u64 = slot.used & !(1u64 << (id.sub_index as u64));
                let ghost before = self@;
                self.slots[i] = Some(BigPageSlot { id: slot.id, used });
                assert(self@ =~= before.with_used(i as int, used));
            }
            k += 1;
        }
        assert(ids@.take(k as int) =~= ids@);
    }

    proof fn lemma_none_bad(
        v: SubView<PARENT_SIZE>,
        ids: Seq<SubPageId<PARENT_SIZE, SUB_SIZE>>,
        k: int,
    )
        requires
            Self::least_bad(v, ids) is None,
            0 <= k < ids.len(),
        ensures
            Self::refusal(v, ids[k]) is None,
        decreases ids.len(),
    {
        if k < ids.len() - 1 {
            Self::lemma_none_bad(v, ids.drop_last(), k);
        }
    }

    /// Replace the slots that have no sub-slot in use by tombstones, and return
    /// their big pages in slot order.
    fn sweep(&mut self) -> (r: Vec<PageId<PARENT_SIZE>>)
        requires
            valid_sub_size(PARENT_SIZE, SUB_SIZE),
            old(self).pager.wf(),
            old(self)@.slots.len() <= u32::MAX,
            forall|i: int|
                0 <= i < old(self)@.slots.len() ==> (#[trigger] old(self)@.slots[i] matches Some(
                    slot,
                ) ==> only_below(slot.used, Self::per_page() as usize)),
            (SubView { slots: tombstoned(old(self)@.slots), ..old(self)@ }).checked_out(),
        ensures
            final(self).wf(),
            final(self)@.pager == old(self)@.pager,
            final(self)@.slots == tombstoned(old(self)@.slots),
            r@ == emptied(old(self)@.slots, old(self)@.slots.len() as int),
    {
        let mut pages: Vec<PageId<PARENT_SIZE>> = Vec::new();
        let mut i: usize = 0;
        while i < self.slots.len()
            invariant
                self.pager == old(self).pager,
                self.slots@.len() == old(self).slots@.len(),
                i <= self.slots@.len(),
                forall|j: int|
                    0 <= j < i ==> #[trigger] self.slots@[j] == tombstoned(old(self)@.slots)[j],
                forall|j: int|
                    i <= j < self.slots@.len() ==> #[trigger] self.slots@[j] == old(
                        self,
                    )@.slots[j],
                pages@ == emptied(old(self)@.slots, i as int),
            decreases self.slots.len() - i,
        {
            if let Some(slot) = self.slots[i] {
                if slot.used == 0 {
                    self.slots[i] = None;
                    pages.push(slot.id);
                }
            }
            i += 1;
        }
        assert(self@ =~= (SubView { slots: tombstoned(old(self)@.slots), ..old(self)@ }));
        pages
    }

    /// Give a big page back to the inner pager that is no longer checked out.
    pub fn release(&mut self, id: PageId<PARENT_SIZE>) -> (r: Turn<(), FreeTask>)
        requires
            old(self).wf(),
            !old(self)@.has_out(id.0),
            old(self)@.pager.can_free(id.0),
        ensures
            final(self).wf(),
            final(self)@ == old(self)@.with_pager(final(self)@.pager),
            old(self)@.pager.free_next(id.0, PARENT_SIZE, final(self)@.pager, r),
    {
        proof {
            if self@.pager.state.free_refusal(id.0) is None {
                law_release_keeps_checked_out(self@, id.0);
            }
        }
        self.pager.free(id)
    }
}

// ── Page access ───────────────────────────────────────────────────────────────

/// Sub-page `b` of a page.
pub open spec fn sub_page(page: Seq<u8>, b: int, sub_size: int) -> Seq<u8> {
    page.subrange(b * sub_size, b * sub_size + sub_size)
}

/// A page with its sub-page `b` replaced.
pub open spec fn with_sub_page(page: Seq<u8>, b: int, sub_size: int, new: Seq<u8>) -> Seq<u8> {
    page.take(b * sub_size) + new + page.skip(b * sub_size + sub_size)
}

impl<const PARENT_SIZE: usize, const SUB_SIZE: usize> SubPageId<PARENT_SIZE, SUB_SIZE> {
    /// The page of the inner pager that this sub-page lies in.
    pub open spec fn big(self, v: SubView<PARENT_SIZE>) -> u64 {
        v.slots[self.slot_index as int]->0.id.0
    }

    /// Why this handle cannot be borrowed, if it cannot.
    pub open spec fn get_refusal(self, v: SubView<PARENT_SIZE>) -> Option<MappedPageError> {
        v.get_refusal(
            self.slot_index as int,
            self.sub_index as int,
            SubPageAllocator::<PARENT_SIZE, SUB_SIZE>::per_page(),
        )
    }

    /// The bytes of the sub-page in the map.
    pub open spec fn seen(self, v: SubView<PARENT_SIZE>, map: Seq<u8>) -> Seq<u8> {
        sub_page(
            page_of(map, self.big(v) as int, PARENT_SIZE as int),
            self.sub_index as int,
            SUB_SIZE as int,
        )
    }

    /// The map with the bytes of the sub-page replaced.
    pub open spec fn written(self, v: SubView<PARENT_SIZE>, map: Seq<u8>, new: Seq<u8>) -> Seq<u8> {
        let big = page_of(map, self.big(v) as int, PARENT_SIZE as int);
        with_page(
            map,
            self.big(v) as int,
            PARENT_SIZE as int,
            with_sub_page(big, self.sub_index as int, SUB_SIZE as int, new),
        )
    }

    /// Find the page that this sub-page lies in.
    pub fn find_big(&self, allocator: &SubPageAllocator<PARENT_SIZE, SUB_SIZE>) -> (r: Result<
        u64,
        MappedPageError,
    >)
        requires
            allocator.wf(),
        ensures
            match r {
                Ok(page) => self.get_refusal(allocator@) is None && page == self.big(allocator@),
                Err(e) => self.get_refusal(allocator@) == Some(e),
            },
            r is Ok ==> self.sub_index * SUB_SIZE + SUB_SIZE <= PARENT_SIZE,
    {
        proof {
            SubPageAllocator::<PARENT_SIZE, SUB_SIZE>::lemma_sizes();
            let n = SubPageAllocator::<PARENT_SIZE, SUB_SIZE>::per_page();
            let b = self.sub_index as int;
            assert(b < n ==> b * SUB_SIZE + SUB_SIZE <= n * SUB_SIZE) by (nonlinear_arith);
        }
        if self.sub_index as usize >= PARENT_SIZE / SUB_SIZE {
            return Err(MappedPageError::OutOfBounds);
        }
        if self.slot_index as usize >= allocator.slots.len() {
            return Err(MappedPageError::OutOfBounds);
        }
        match allocator.slots[self.slot_index as usize] {
            Some(slot) => match allocator.pager.page_access(slot.id.0) {
                Some(e) => Err(e),
                None => Ok(slot.id.0),
            },
            None => Err(MappedPageError::OutOfBounds),
        }
    }

    /// Borrow the sub-page contents immutably.
    pub fn get<'a>(
        &self,
        allocator: &SubPageAllocator<PARENT_SIZE, SUB_SIZE>,
        map: &'a [u8],
    ) -> (r: Result<MappedPage<&'a [u8]>, MappedPageError>)
        requires
            allocator.wf(),
            self.get_refusal(allocator@) is None ==> page_in_map(
                self.big(allocator@),
                PARENT_SIZE,
                map.len() as int,
            ),
        ensures
            match r {
                Ok(page) => {
                    &&& self.get_refusal(allocator@) is None
                    &&& page@ == self.seen(allocator@, map@)
                },
                Err(e) => self.get_refusal(allocator@) == Some(e),
            },
    {
        match self.find_big(allocator) {
            Ok(big) => {
                proof {
                    crate::page::lemma_page_in_map(big, PARENT_SIZE, map.len() as int);
                    assert(0 <= self.sub_index * SUB_SIZE) by (nonlinear_arith);
                }
                let page = page_slice(map, big, PARENT_SIZE);
                let start: usize = self.sub_index as usize * SUB_SIZE;
                Ok(
                    MappedPage::from_slice(
                        vstd::slice::slice_subrange(page, start, start + SUB_SIZE),
                    ),
                )
            },
            Err(e) => Err(e),
        }
    }

    /// Borrow the sub-page contents mutably.
    pub fn get_mut<'a>(
        &self,
        allocator: &SubPageAllocator<PARENT_SIZE, SUB_SIZE>,
        map: &'a mut [u8],
    ) -> (r: Result<MappedPage<&'a mut [u8]>, MappedPageError>)
        requires
            allocator.wf(),
            self.get_refusal(allocator@) is None ==> page_in_map(
                self.big(allocator@),
                PARENT_SIZE,
                old(map).len() as int,
            ),
        ensures
            match r {
                Ok(page) => {
                    &&& self.get_refusal(allocator@) is None
                    &&& page@ == self.seen(allocator@, old(map)@)
                    &&& final(map)@ == self.written(
                        allocator@,
                        old(map)@,
                        final(page.bytes)@,
                    )
                },
                Err(e) => self.get_refusal(allocator@) == Some(e) && final(map)@ == old(map)@,
            },
    {
        match self.find_big(allocator) {
            Ok(big) => {
                proof {
                    crate::page::lemma_page_in_map(big, PARENT_SIZE, map.len() as int);
                    assert(0 <= self.sub_index * SUB_SIZE) by (nonlinear_arith);
                }
                let page = page_slice_mut(map, big, PARENT_SIZE);
                let start: usize = self.sub_index as usize * SUB_SIZE;
                let (_, tail) = page.split_at_mut(start);
                let (sub, _) = tail.split_at_mut(SUB_SIZE);
                Ok(MappedPage::from_slice_mut(sub))
            },
            Err(e) => Err(e),
        }
    }
}

// ── Laws ──────────────────────────────────────────────────────────────────────

/// A sub-slot is in use of every bitmask but zero.
pub proof fn lemma_zero_mask(used: u64)
    ensures
        used == 0 <==> forall|k: int| !#[trigger] taken(used, k),
{
    if used == 0 {
        assert forall|k: int| !#[trigger] taken(used, k) by {
            let j = k as u64;
            assert(j < 64 ==> (0u64 >> j) & 1u64 == 0u64) by (bit_vector);
        }
    } else {
        vstd::std_specs::bits::axiom_u64_trailing_zeros(used);
        let t = vstd::std_specs::bits::u64_trailing_zeros(used) as int;
        assert(taken(used, t));
    }
}

/// A sub-page that is handed out from a big page in use was free, is in use
/// afterwards, and no other sub-page of any big page changes.
pub proof fn law_sub_alloc_takes_one<const PARENT_SIZE: usize>(
    v: SubView<PARENT_SIZE>,
    n: int,
    i: int,
    b: int,
)
    requires
        n <= 64,
        v.open_from(0, n) == Some((i, b)),
    ensures
        ({
            let w = v.with_used(i, with_taken(v.slots[i]->0.used, b));
            &&& 0 <= i < v.slots.len()
            &&& 0 <= b < n
            &&& v.slots[i] is Some
            &&& !taken(v.slots[i]->0.used, b)
            &&& w.slots[i]->0.id == v.slots[i]->0.id
            &&& forall|k: int|
                #[trigger] taken(w.slots[i]->0.used, k) <==> k == b || taken(v.slots[i]->0.used, k)
            &&& forall|j: int| 0 <= j < v.slots.len() && j != i ==> w.slots[j] == v.slots[j]
            &&& w.pager == v.pager
        }),
{
    lemma_open_from(v, 0, n);
    let used = v.slots[i]->0.used;
    assert forall|k: int| #[trigger] taken(with_taken(used, b), k) <==> k == b || taken(
        used,
        k,
    ) by {
        lemma_with_taken(used, b, k);
    }
}

pub proof fn lemma_open_from<const PARENT_SIZE: usize>(v: SubView<PARENT_SIZE>, from: int, n: int)
    requires
        0 <= from,
    ensures
        v.open_from(from, n) matches Some((i, b)) ==> {
            &&& from <= i < v.slots.len()
            &&& v.slots[i] is Some
            &&& 0 <= b < n
            &&& !taken(v.slots[i]->0.used, b)
        },
    decreases v.slots.len() - from,
{
    if from < v.slots.len() {
        match v.slots[from] {
            Some(slot) => {
                lemma_first_untaken(slot.used, 0, n);
            },
            None => {},
        }
        lemma_open_from(v, from + 1, n);
    }
}

/// What `vacant_from` finds.
pub proof fn lemma_vacant_from<const PARENT_SIZE: usize>(v: SubView<PARENT_SIZE>, from: int)
    requires
        0 <= from <= v.slots.len(),
    ensures
        from <= v.vacant_from(from) <= v.slots.len(),
        v.vacant_from(from) < v.slots.len() ==> v.slots[v.vacant_from(from)] is None,
    decreases v.slots.len() - from,
{
    if from < v.slots.len() && v.slots[from] is Some {
        lemma_vacant_from(v, from + 1);
    }
}

/// Freeing the sub-page that was just handed out restores the slots.
pub proof fn law_sub_free_undoes_alloc<const PARENT_SIZE: usize>(
    v: SubView<PARENT_SIZE>,
    n: int,
    i: int,
    b: int,
)
    requires
        n <= 64,
        v.open_from(0, n) == Some((i, b)),
        v.slots[i]->0.used != 0,
    ensures
        v.with_used(i, with_taken(v.slots[i]->0.used, b)).with_freed(i, b) == v,
{
    lemma_open_from(v, 0, n);
    let used = v.slots[i]->0.used;
    let k = b as u64;
    assert(k < 64 && (used >> k) & 1u64 != 1u64 ==> (used | (1u64 << k)) & !(1u64 << k) == used)
        by (bit_vector);
    assert(v.with_used(i, with_taken(used, b)).with_freed(i, b) =~= v);
}

/// A big page is given back exactly when the last of its sub-pages in use is
/// freed.
pub proof fn law_sub_free_empties<const PARENT_SIZE: usize>(
    v: SubView<PARENT_SIZE>,
    i: int,
    b: int,
)
    requires
        0 <= b < 64,
    ensures
        v.empties(i, b) <==> forall|k: int|
            k != b ==> !#[trigger] taken(v.slots[i]->0.used, k),
{
    let used = v.slots[i]->0.used;
    lemma_zero_mask(without_taken(used, b));
    assert forall|k: int| #[trigger] taken(without_taken(used, b), k) <==> k != b && taken(
        used,
        k,
    ) by {
        lemma_without_taken(used, b, k);
    }
    if v.empties(i, b) {
        assert forall|k: int| k != b implies !#[trigger] taken(used, k) by {
            assert(!taken(without_taken(used, b), k));
        }
    }
}

/// Writing one sub-page changes no other sub-page of the big page.
pub proof fn law_sub_pages_apart(page: Seq<u8>, b: int, c: int, sub_size: int, new: Seq<u8>)
    requires
        0 <= b,
        0 <= c,
        0 < sub_size,
        b * sub_size + sub_size <= page.len(),
        c * sub_size + sub_size <= page.len(),
        new.len() == sub_size,
    ensures
        sub_page(with_sub_page(page, b, sub_size, new), c, sub_size) == if c == b {
            new
        } else {
            sub_page(page, c, sub_size)
        },
{
    assert(0 <= b * sub_size && 0 <= c * sub_size) by (nonlinear_arith)
        requires
            0 <= b,
            0 <= c,
            0 < sub_size,
    ;
    assert(b < c ==> b * sub_size + sub_size <= c * sub_size) by (nonlinear_arith)
        requires
            0 < sub_size,
    ;
    assert(c < b ==> c * sub_size + sub_size <= b * sub_size) by (nonlinear_arith)
        requires
            0 < sub_size,
    ;
    let w = with_sub_page(page, b, sub_size, new);
    if c == b {
        assert(sub_page(w, c, sub_size) =~= new);
    } else {
        assert(sub_page(w, c, sub_size) =~= sub_page(page, c, sub_size));
    }
}

} // verus!
