//! Handing out several pages, and doubling the file where none is left.

use vstd::prelude::*;

use crate::bitmap::bitmap_len;
use crate::meta::{MetaPage, MetaView};

verus! {

impl MetaView {
    /// Up to `n` pages handed out one after the other, as far as pages are free,
    /// and the metadata that remain.
    pub open spec fn take(self, n: nat) -> (MetaView, Seq<u64>)
        decreases n,
    {
        if n == 0 {
            (self, Seq::empty())
        } else {
            match self.lowest_free() {
                None => (self, Seq::empty()),
                Some(id) => {
                    let (m, ids) = self.mark(id).take((n - 1) as nat);
                    (m, seq![id] + ids)
                },
            }
        }
    }

    /// The metadata of the file with twice the pages.
    pub open spec fn doubled(self) -> MetaView {
        self.grown((2 * self.total_pages) as u64)
    }

    /// The file can be doubled: its size and its counters can be represented,
    /// the larger bitmap fits into a metadata page, and a page is then free.
    pub open spec fn growable(self, page_size: usize) -> bool {
        &&& 2 * self.total_pages * page_size <= u64::MAX
        &&& 2 * self.total_pages <= u64::MAX
        &&& 24 + bitmap_len(2 * self.total_pages) + 4 <= page_size
        &&& self.free_count + self.total_pages <= u64::MAX
        &&& self.doubled().lowest_free() is Some
    }

    /// `n` pages can be handed out, with the file doubled as often as needed.
    pub open spec fn can_take(self, n: nat, page_size: usize) -> bool
        decreases n,
    {
        if n == 0 {
            true
        } else {
            match self.lowest_free() {
                Some(id) => self.mark(id).can_take((n - 1) as nat, page_size),
                None => {
                    &&& self.growable(page_size)
                    &&& self.doubled().mark(self.doubled().lowest_free()->0).can_take(
                        (n - 1) as nat,
                        page_size,
                    )
                },
            }
        }
    }

    /// `n` pages handed out, with the file doubled wherever no page is free, and
    /// the metadata that remain.
    pub open spec fn take_growing(self, n: nat) -> (MetaView, Seq<u64>)
        decreases n,
    {
        if n == 0 {
            (self, Seq::empty())
        } else {
            let m = match self.lowest_free() {
                Some(_) => self,
                None => self.doubled(),
            };
            let id = m.lowest_free()->0;
            let (rest, ids) = m.mark(id).take_growing((n - 1) as nat);
            (rest, seq![id] + ids)
        }
    }
}

/// Handing out the lowest free page changes neither the size of the bitmap nor
/// the generation.
pub proof fn lemma_mark_frame(m: MetaView, id: u64)
    requires
        m.lowest_free() == Some(id),
    ensures
        id < m.total_pages,
        m.mark(id).bitmap.len() == m.bitmap.len(),
        m.mark(id).total_pages == m.total_pages,
        m.mark(id).generation == m.generation,
        forall|ps: int| #[trigger] m.mark(id).fits(ps) == m.fits(ps),
{
    crate::bitmap::lemma_first_clear(m.bitmap, 0, m.limit());
}

/// Handing out pages changes neither the size of the bitmap nor the generation.
pub proof fn lemma_take_frame(m: MetaView, n: nat)
    ensures
        m.take(n).0.bitmap.len() == m.bitmap.len(),
        m.take(n).0.total_pages == m.total_pages,
        m.take(n).0.generation == m.generation,
        m.take(n).1.len() <= n,
    decreases n,
{
    if n > 0 {
        match m.lowest_free() {
            Some(id) => {
                lemma_mark_frame(m, id);
                lemma_take_frame(m.mark(id), (n - 1) as nat);
            },
            None => {},
        }
    }
}

/// Where fewer pages were handed out than asked for, none is free any more.
pub proof fn lemma_take_short(m: MetaView, n: nat)
    ensures
        m.take(n).1.len() < n ==> m.take(n).0.lowest_free() is None,
    decreases n,
{
    if n > 0 {
        match m.lowest_free() {
            Some(id) => {
                lemma_take_short(m.mark(id), (n - 1) as nat);
            },
            None => {},
        }
    }
}

/// Where `n` pages can be handed out, the rest can be handed out after the first
/// of them.
pub proof fn lemma_can_take_rest(m: MetaView, n: nat, page_size: usize)
    requires
        m.can_take(n, page_size),
    ensures
        m.take(n).0.can_take((n - m.take(n).1.len()) as nat, page_size),
    decreases n,
{
    lemma_take_frame(m, n);
    if n > 0 {
        match m.lowest_free() {
            Some(id) => {
                lemma_can_take_rest(m.mark(id), (n - 1) as nat, page_size);
            },
            None => {},
        }
    }
}

/// Where pages can be handed out, the metadata that remain fit into a page.
pub proof fn lemma_take_growing_fits(m: MetaView, n: nat, page_size: usize)
    requires
        m.fits(page_size as int),
        m.can_take(n, page_size),
    ensures
        m.take_growing(n).0.fits(page_size as int),
    decreases n,
{
    if n > 0 {
        let k = match m.lowest_free() {
            Some(_) => m,
            None => m.doubled(),
        };
        let id = k.lowest_free()->0;
        lemma_mark_frame(k, id);
        assert(k.mark(id).fits(page_size as int) == k.fits(page_size as int));
        lemma_take_growing_fits(k.mark(id), (n - 1) as nat, page_size);
    }
}

// ── Order of the pages that are handed out ────────────────────────────────────

/// Each number is larger than those before it.
pub open spec fn increasing(ids: Seq<u64>) -> bool {
    forall|i: int, j: int| 0 <= i < j < ids.len() ==> ids[i] < ids[j]
}

/// `j` is one of the numbers.
pub open spec fn among(ids: Seq<u64>, j: int) -> bool {
    exists|i: int| 0 <= i < ids.len() && ids[i] == j
}

/// Every page below `low` is allocated.
pub open spec fn filled_below(m: MetaView, low: int) -> bool {
    forall|j: int| 0 <= j < low ==> #[trigger] m.allocated(j)
}

/// The pages `ids` are in order and lie in the filled part of the file.
pub open spec fn handed_out(m: MetaView, ids: Seq<u64>) -> bool {
    &&& increasing(ids)
    &&& forall|i: int| 0 <= i < ids.len() ==> filled_below(m, #[trigger] ids[i] + 1)
}

/// Handing out the lowest free page allocates that page and no other.
pub proof fn lemma_mark_allocates(m: MetaView, id: u64)
    requires
        m.lowest_free() == Some(id),
    ensures
        !m.allocated(id as int),
        filled_below(m, id as int),
        filled_below(m.mark(id), id + 1),
        forall|j: int| #[trigger] m.mark(id).allocated(j) <==> j == id || m.allocated(j),
{
    lemma_mark_frame(m, id);
    crate::bitmap::lemma_first_clear(m.bitmap, 0, m.limit());
    assert forall|j: int| #[trigger] m.mark(id).allocated(j) <==> j == id || m.allocated(j) by {
        if 0 <= j < m.limit() {
            crate::bitmap::lemma_with_set(m.bitmap, id as int, j);
        }
    }
    assert forall|j: int| 0 <= j < id implies #[trigger] m.allocated(j) by {
        assert(crate::bitmap::page_is_set(m.bitmap, j));
    }
}

/// Doubling the file keeps every allocation.
pub proof fn lemma_doubled_keeps(m: MetaView)
    requires
        m.well_sized(),
        2 * m.total_pages <= u64::MAX,
    ensures
        forall|j: int| 0 <= j < m.total_pages ==> (#[trigger] m.doubled().allocated(j)
            <==> m.allocated(j)),
        m.doubled().well_sized(),
        m.doubled().generation == m.generation,
        m.doubled().total_pages == 2 * m.total_pages,
{
    let g = m.doubled();
    assert forall|j: int| 0 <= j < m.total_pages implies (#[trigger] g.allocated(j)
        <==> m.allocated(j)) by {
        assert(g.bitmap[j / 8] == m.bitmap[j / 8]);
    }
}

/// Pages come in order, each was free and is allocated afterwards, and no other
/// page changes.
pub proof fn lemma_take_order(m: MetaView, n: nat)
    requires
        m.well_sized(),
    ensures
        handed_out(m.take(n).0, m.take(n).1),
        forall|i: int|
            0 <= i < m.take(n).1.len() ==> !m.allocated(#[trigger] m.take(n).1[i] as int),
        forall|j: int|
            #[trigger] m.take(n).0.allocated(j) <==> m.allocated(j) || among(m.take(n).1, j),
    decreases n,
{
    if n > 0 {
        match m.lowest_free() {
            Some(id) => {
                lemma_mark_frame(m, id);
                lemma_mark_allocates(m, id);
                let k = m.mark(id);
                lemma_take_order(k, (n - 1) as nat);
                let (end, rest) = k.take((n - 1) as nat);
                let ids = m.take(n).1;
                assert(ids == seq![id] + rest);
                assert forall|i: int| 0 <= i < ids.len() implies filled_below(
                    end,
                    #[trigger] ids[i] + 1,
                ) && !m.allocated(ids[i] as int) && (0 < i ==> id < ids[i]) by {
                    if i > 0 {
                        assert(ids[i] == rest[i - 1]);
                        assert(!k.allocated(rest[i - 1] as int));
                    } else {
                        assert forall|j: int| 0 <= j < id + 1 implies #[trigger] end.allocated(
                            j,
                        ) by {
                            assert(k.allocated(j));
                        }
                    }
                }
                assert forall|i: int, j: int| 0 <= i < j < ids.len() implies ids[i] < ids[j] by {
                    if i > 0 {
                        assert(rest[i - 1] < rest[j - 1]);
                    }
                }
                assert forall|j: int| among(ids, j) <==> j == id || among(rest, j) by {
                    if among(ids, j) {
                        let i = choose|i: int| 0 <= i < ids.len() && ids[i] == j;
                        if i > 0 {
                            assert(rest[i - 1] == j);
                        }
                    }
                    if among(rest, j) {
                        let i = choose|i: int| 0 <= i < rest.len() && rest[i] == j;
                        assert(ids[i + 1] == j);
                    }
                    assert(ids[0] == id);
                }
            },
            None => {},
        }
    }
}

/// Pages handed out before come before pages that are handed out now.
pub proof fn lemma_take_after(m: MetaView, got: Seq<u64>, n: nat)
    requires
        m.well_sized(),
        handed_out(m, got),
    ensures
        handed_out(m.take(n).0, got + m.take(n).1),
{
    lemma_take_order(m, n);
    let (end, ids) = m.take(n);
    let all = got + ids;
    assert forall|i: int| 0 <= i < all.len() implies filled_below(end, #[trigger] all[i] + 1) by {
        if i < got.len() {
            assert(filled_below(m, got[i] + 1));
            assert forall|j: int| 0 <= j < got[i] + 1 implies #[trigger] end.allocated(j) by {
                assert(m.allocated(j));
            }
        } else {
            assert(all[i] == ids[i - got.len()]);
        }
    }
    assert forall|i: int, j: int| 0 <= i < j < all.len() implies all[i] < all[j] by {
        if i < got.len() && j >= got.len() {
            assert(filled_below(m, got[i] + 1));
            let x = ids[j - got.len()];
            assert(!m.allocated(x as int));
            if x <= got[i] {
                assert(m.allocated(x as int));
            }
        } else if i >= got.len() {
            assert(ids[i - got.len()] < ids[j - got.len()]);
        }
    }
}

/// Pages that were handed out stay so when the file is doubled.
pub proof fn lemma_doubled_after(m: MetaView, got: Seq<u64>)
    requires
        m.well_sized(),
        2 * m.total_pages <= u64::MAX,
        handed_out(m, got),
    ensures
        handed_out(m.doubled(), got),
{
    lemma_doubled_keeps(m);
    assert forall|i: int| 0 <= i < got.len() implies filled_below(
        m.doubled(),
        #[trigger] got[i] + 1,
    ) by {
        assert(filled_below(m, got[i] + 1));
        assert forall|j: int| 0 <= j < got[i] + 1 implies #[trigger] m.doubled().allocated(j) by {
            assert(m.allocated(j));
        }
    }
}

/// There are no more pages handed out than pages.
pub proof fn lemma_handed_out_len(m: MetaView, ids: Seq<u64>)
    requires
        handed_out(m, ids),
    ensures
        ids.len() <= m.total_pages,
{
    if ids.len() > 0 {
        lemma_increasing_len(ids);
        let last = ids[ids.len() - 1];
        assert(filled_below(m, last + 1));
        assert(m.allocated(last as int));
    }
}

proof fn lemma_increasing_len(ids: Seq<u64>)
    requires
        increasing(ids),
        ids.len() > 0,
    ensures
        ids.len() <= ids.last() + 1,
    decreases ids.len(),
{
    if ids.len() > 1 {
        lemma_increasing_len(ids.drop_last());
        assert(ids[ids.len() - 2] < ids[ids.len() - 1]);
    }
}

// ── Giving pages back ─────────────────────────────────────────────────────────

impl MetaView {
    /// Page `id` free, if it was allocated.
    pub open spec fn freed(self, id: u64) -> MetaView {
        if self.allocated(id as int) {
            self.release(id)
        } else {
            self
        }
    }

    /// The pages `ids` free.
    pub open spec fn freed_all(self, ids: Seq<u64>) -> MetaView
        decreases ids.len(),
    {
        if ids.len() == 0 {
            self
        } else {
            self.freed_all(ids.drop_last()).freed(ids.last())
        }
    }
}

/// Giving pages back changes neither the size of the bitmap nor the generation.
pub proof fn lemma_freed_all_frame(m: MetaView, ids: Seq<u64>)
    requires
        m.well_sized(),
        m.free_count + ids.len() <= u64::MAX,
    ensures
        m.freed_all(ids).well_sized(),
        m.freed_all(ids).total_pages == m.total_pages,
        m.freed_all(ids).generation == m.generation,
        m.freed_all(ids).free_count <= m.free_count + ids.len(),
    decreases ids.len(),
{
    if ids.len() > 0 {
        lemma_freed_all_frame(m, ids.drop_last());
    }
}

/// Giving pages back frees those pages and no other.
pub proof fn lemma_freed_all_allocated(m: MetaView, ids: Seq<u64>)
    requires
        m.well_sized(),
        m.free_count + ids.len() <= u64::MAX,
    ensures
        forall|j: int|
            #[trigger] m.freed_all(ids).allocated(j) <==> m.allocated(j) && !among(ids, j),
    decreases ids.len(),
{
    if ids.len() > 0 {
        let before = ids.drop_last();
        let k = m.freed_all(before);
        let id = ids.last();
        lemma_freed_all_frame(m, before);
        lemma_freed_all_allocated(m, before);
        assert forall|j: int| #[trigger] m.freed_all(ids).allocated(j) <==> m.allocated(j)
            && !among(ids, j) by {
            assert(among(ids, j) <==> j == id || among(before, j)) by {
                if among(ids, j) {
                    let i = choose|i: int| 0 <= i < ids.len() && ids[i] == j;
                    if i < before.len() {
                        assert(before[i] == j);
                    }
                }
                if among(before, j) {
                    let i = choose|i: int| 0 <= i < before.len() && before[i] == j;
                    assert(ids[i] == j);
                }
                assert(ids[ids.len() - 1] == id);
            }
            assert(k.allocated(j) <==> m.allocated(j) && !among(before, j));
            if 0 <= j < k.limit() && k.allocated(id as int) {
                crate::bitmap::lemma_with_clear(k.bitmap, id as int, j);
            }
        }
    } else {
        assert(m.freed_all(ids) == m);
    }
}

impl MetaPage {
    /// Free every page of `ids` that is allocated.
    pub fn free_all(&mut self, ids: &Vec<u64>)
        requires
            old(self)@.well_sized(),
            old(self)@.free_count + ids@.len() <= u64::MAX,
        ensures
            final(self)@ == old(self)@.freed_all(ids@),
    {
        let n: usize = ids.len();
        let mut i: usize = 0;
        assert(ids@.take(0) =~= Seq::empty());
        while i < n
            invariant
                n == ids@.len(),
                i <= n,
                old(self)@.well_sized(),
                old(self)@.free_count + ids@.len() <= u64::MAX,
                self@ == old(self)@.freed_all(ids@.take(i as int)),
            decreases n - i,
        {
            proof {
                lemma_freed_all_frame(old(self)@, ids@.take(i as int));
                assert(ids@.take(i + 1).drop_last() =~= ids@.take(i as int));
            }
            let _ = self.free_page(ids[i]);
            i += 1;
        }
        assert(ids@.take(n as int) =~= ids@);
    }

    /// Hand out pages until `out` holds `want` of them or none is free.
    pub fn take_into(&mut self, out: &mut Vec<u64>, want: usize)
        requires
            old(out)@.len() <= want,
        ensures
            final(self)@ == old(self)@.take((want - old(out)@.len()) as nat).0,
            final(out)@ == old(out)@ + old(self)@.take((want - old(out)@.len()) as nat).1,
    {
        let ghost start = self@;
        let ghost had = out@;
        let ghost n = (want - had.len()) as nat;
        assert(had =~= had + Seq::<u64>::empty());
        while out.len() < want
            invariant
                had.len() <= out@.len() <= want,
                n == want - had.len(),
                start == old(self)@,
                had == old(out)@,
                start.take(n).0 == self@.take((want - out@.len()) as nat).0,
                had + start.take(n).1 == out@ + self@.take((want - out@.len()) as nat).1,
            decreases want - out.len(),
        {
            match self.alloc_page() {
                Some(id) => {
                    let ghost so_far = out@;
                    out.push(id);
                    assert(so_far + (seq![id] + self@.take((want - out@.len()) as nat).1) =~= out@
                        + self@.take((want - out@.len()) as nat).1);
                },
                None => {
                    assert(out@ + Seq::<u64>::empty() =~= out@);
                    return;
                },
            }
        }
        assert(out@ + Seq::<u64>::empty() =~= out@);
    }

    /// A copy of this metadata.
    pub fn duplicate(&self) -> (r: MetaPage)
        ensures
            r@ == self@,
    {
        let bitmap = self.bitmap.clone();
        assert(bitmap@ =~= self.bitmap@);
        MetaPage {
            total_pages: self.total_pages,
            generation: self.generation,
            free_count: self.free_count,
            bitmap,
        }
    }

    /// Test whether the file can be doubled.
    pub fn is_growable(&self, page_size: usize) -> (r: bool)
        ensures
            r == self@.growable(page_size),
    {
        if self.total_pages > u64::MAX / 2 {
            return false;
        }
        let new_total: u64 = 2 * self.total_pages;
        match new_total.checked_mul(page_size as u64) {
            Some(_) => {},
            None => {
                return false;
            },
        }
        let bytes = crate::meta::bitmap_bytes(new_total);
        if page_size < 28 || bytes > (page_size - 28) as u64 {
            return false;
        }
        if self.free_count > u64::MAX - self.total_pages {
            return false;
        }
        let mut grown = self.duplicate();
        grown.grow_to(new_total);
        grown.alloc_page().is_some()
    }

    /// Test whether `n` pages can be handed out, with the file doubled as often
    /// as needed.
    pub fn is_able_to_take(&self, n: usize, page_size: usize) -> (r: bool)
        ensures
            r == self@.can_take(n as nat, page_size),
    {
        let mut m = self.duplicate();
        let mut left: usize = n;
        while left > 0
            invariant
                self@.can_take(n as nat, page_size) == m@.can_take(left as nat, page_size),
            decreases left,
        {
            match m.alloc_page() {
                Some(_) => {},
                None => {
                    if !m.is_growable(page_size) {
                        return false;
                    }
                    let new_total: u64 = 2 * m.total_pages;
                    m.grow_to(new_total);
                    let _ = m.alloc_page();
                },
            }
            left -= 1;
        }
        true
    }
}

// ── Laws ──────────────────────────────────────────────────────────────────────

/// Pages are handed out in increasing order; each was free and no reserved one
/// and is allocated afterwards, however often the file is doubled on the way; no
/// other page changes, and the metadata stay accurate.
pub proof fn law_pages_handed_out(m: MetaView, n: nat, page_size: usize)
    requires
        m.accurate(),
        m.can_take(n, page_size),
    ensures
        m.take_growing(n).1.len() == n,
        increasing(m.take_growing(n).1),
        forall|i: int|
            0 <= i < n ==> {
                &&& crate::meta::FIRST_DATA_PAGE <= #[trigger] m.take_growing(n).1[i]
                &&& m.take_growing(n).1[i] < m.take_growing(n).0.total_pages
                &&& !m.allocated(m.take_growing(n).1[i] as int)
            },
        forall|j: int|
            #[trigger] m.take_growing(n).0.allocated(j) <==> m.allocated(j) || among(
                m.take_growing(n).1,
                j,
            ),
        m.take_growing(n).0.accurate(),
        m.total_pages <= m.take_growing(n).0.total_pages,
        m.take_growing(n).0.generation == m.generation,
    decreases n,
{
    if n > 0 {
        let k = match m.lowest_free() {
            Some(_) => m,
            None => m.doubled(),
        };
        if m.lowest_free() is None {
            crate::meta::law_grown_is_accurate(m, (2 * m.total_pages) as u64);
        }
        let id = k.lowest_free()->0;
        crate::meta::law_mark_is_accurate(k, id);
        lemma_mark_allocates(k, id);
        let rest_of = k.mark(id);
        law_pages_handed_out(rest_of, (n - 1) as nat, page_size);
        let (end, rest) = rest_of.take_growing((n - 1) as nat);
        let ids = m.take_growing(n).1;
        assert(ids == seq![id] + rest);
        assert forall|i: int| 0 <= i < n implies {
            &&& crate::meta::FIRST_DATA_PAGE <= #[trigger] ids[i]
            &&& ids[i] < end.total_pages
            &&& !m.allocated(ids[i] as int)
            &&& (0 < i ==> id < ids[i])
        } by {
            if i > 0 {
                assert(ids[i] == rest[i - 1]);
                assert(!rest_of.allocated(rest[i - 1] as int));
                if rest[i - 1] <= id {
                    assert(rest_of.allocated(rest[i - 1] as int));
                }
            }
        }
        assert forall|i: int, j: int| 0 <= i < j < ids.len() implies ids[i] < ids[j] by {
            if i > 0 {
                assert(rest[i - 1] < rest[j - 1]);
            } else {
                assert(id < ids[j]);
            }
        }
        assert forall|j: int| #[trigger] end.allocated(j) <==> m.allocated(j) || among(ids, j) by {
            assert(among(ids, j) <==> j == id || among(rest, j)) by {
                if among(ids, j) {
                    let i = choose|i: int| 0 <= i < ids.len() && ids[i] == j;
                    if i > 0 {
                        assert(rest[i - 1] == j);
                    }
                }
                if among(rest, j) {
                    let i = choose|i: int| 0 <= i < rest.len() && rest[i] == j;
                    assert(ids[i + 1] == j);
                }
                assert(ids[0] == id);
            }
            assert(k.allocated(j) <==> m.allocated(j));
            assert(rest_of.allocated(j) <==> j == id || k.allocated(j));
        }
    } else {
        assert forall|j: int| #[trigger] m.take_growing(n).0.allocated(j) <==> m.allocated(j)
            || among(m.take_growing(n).1, j) by {}
    }
}

/// Taking what is free first, doubling the file, and then taking the rest hands
/// out the same pages as doubling the file at the moment no page is free.
pub proof fn law_growth_between_takes(m: MetaView, n: nat)
    ensures
        ({
            let (k, ids) = m.take(n);
            let left = (n - ids.len()) as nat;
            if left == 0 {
                m.take_growing(n) == (k, ids)
            } else if k.doubled().lowest_free() is Some {
                let (end, rest) = k.doubled().take_growing(left);
                m.take_growing(n) == (end, ids + rest)
            } else {
                true
            }
        }),
    decreases n,
{
    lemma_take_frame(m, n);
    let (k, ids) = m.take(n);
    let left = (n - ids.len()) as nat;
    if n > 0 {
        match m.lowest_free() {
            Some(id) => {
                lemma_take_frame(m.mark(id), (n - 1) as nat);
                law_growth_between_takes(m.mark(id), (n - 1) as nat);
                let (_, tail) = m.mark(id).take((n - 1) as nat);
                assert(ids == seq![id] + tail);
                if left > 0 && k.doubled().lowest_free() is Some {
                    let (end, rest) = k.doubled().take_growing(left);
                    assert(seq![id] + (tail + rest) =~= ids + rest);
                }
            },
            None => {
                assert(ids =~= Seq::empty());
                if k.doubled().lowest_free() is Some {
                    let (end, rest) = k.doubled().take_growing(left);
                    assert(ids + rest =~= rest);
                }
            },
        }
    }
}

/// Giving back allocated pages that are not reserved, each named once, keeps the
/// metadata accurate, frees those pages and no other, and counts them as free.
pub proof fn law_pages_given_back(m: MetaView, ids: Seq<u64>)
    requires
        m.accurate(),
        ids.no_duplicates(),
        m.free_count + ids.len() <= u64::MAX,
        forall|i: int|
            0 <= i < ids.len() ==> crate::meta::FIRST_DATA_PAGE <= #[trigger] ids[i]
                && m.allocated(ids[i] as int),
    ensures
        m.freed_all(ids).accurate(),
        m.freed_all(ids).free_count == m.free_count + ids.len(),
        forall|j: int|
            #[trigger] m.freed_all(ids).allocated(j) <==> m.allocated(j) && !among(ids, j),
    decreases ids.len(),
{
    lemma_freed_all_allocated(m, ids);
    if ids.len() > 0 {
        let before = ids.drop_last();
        let id = ids.last();
        assert forall|i: int| 0 <= i < before.len() implies crate::meta::FIRST_DATA_PAGE
            <= #[trigger] before[i] && m.allocated(before[i] as int) by {
            assert(before[i] == ids[i]);
        }
        law_pages_given_back(m, before);
        let k = m.freed_all(before);
        assert(!among(before, id as int)) by {
            if among(before, id as int) {
                let i = choose|i: int| 0 <= i < before.len() && before[i] == id as int;
                assert(ids[i] == ids[ids.len() - 1]);
            }
        }
        assert(m.allocated(ids[ids.len() - 1] as int));
        assert(k.allocated(id as int));
        crate::meta::law_release_is_accurate(k, id);
    }
}

/// Giving back the pages that were handed out allocates what was allocated
/// before, also if the file was doubled on the way.
pub proof fn law_giving_back_undoes_handing_out(m: MetaView, n: nat, page_size: usize)
    requires
        m.accurate(),
        m.can_take(n, page_size),
        m.take_growing(n).0.free_count + n <= u64::MAX,
    ensures
        ({
            let (k, ids) = m.take_growing(n);
            &&& k.freed_all(ids).accurate()
            &&& forall|j: int| #[trigger] k.freed_all(ids).allocated(j) <==> m.allocated(j)
        }),
{
    law_pages_handed_out(m, n, page_size);
    let (k, ids) = m.take_growing(n);
    assert forall|i: int| 0 <= i < ids.len() implies crate::meta::FIRST_DATA_PAGE
        <= #[trigger] ids[i] && k.allocated(ids[i] as int) by {
        assert(among(ids, ids[i] as int));
    }
    assert(ids.no_duplicates());
    law_pages_given_back(k, ids);
    assert forall|j: int| #[trigger] k.freed_all(ids).allocated(j) <==> m.allocated(j) by {
        if among(ids, j) {
            let i = choose|i: int| 0 <= i < ids.len() && ids[i] == j;
            assert(!m.allocated(ids[i] as int));
        }
    }
}

} // verus!
