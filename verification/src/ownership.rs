//! Who uses which page: an invariant that every operation keeps.

use vstd::prelude::*;

use crate::bytes::page_of;
use crate::directory::DirEntry;
use crate::durability::{dir_differs_at, section_reads};
use crate::error::MappedPageError;
use crate::growth::{among, increasing};
use crate::image::{StateView, recover, valid_page_size};
use crate::meta::{FIRST_DATA_PAGE, MetaSelector};
use crate::page::{page_in_map, with_page};
use crate::pager::PagerView;
use crate::plan::{crash_leaves, run};
use crate::protected::{Place, addressable};

verus! {

/// One use of a page beside that as a regular data page.
pub enum Owner {
    /// A copy of a directory block.
    Block(int, MetaSelector),
    /// A copy of the protected page in a slot of a block.
    Slot(int, int, bool),
}

impl StateView {
    /// The use exists.
    pub open spec fn holds(self, o: Owner) -> bool {
        match o {
            Owner::Block(block, _) => 0 <= block < self.blocks.len(),
            Owner::Slot(block, slot, _) => self.slot_in_use(block, slot),
        }
    }

    /// The page that is used.
    pub open spec fn page_for(self, o: Owner) -> u64 {
        match o {
            Owner::Block(block, sel) => self.blocks[block].copy(sel),
            Owner::Slot(block, slot, second) => self.dirs[block].entries[slot].copy(
                if second {
                    1u8
                } else {
                    0u8
                },
            ),
        }
    }

    /// Every page in use for the directory or for a protected page is an allocated
    /// data page, no page is used twice, and each protected page has an active
    /// copy.
    pub open spec fn tidy(self) -> bool {
        &&& self.blocks.len() == self.dirs.len()
        &&& forall|o: Owner|
            self.holds(o) ==> {
                let page = #[trigger] self.page_for(o);
                FIRST_DATA_PAGE <= page && self.meta.allocated(page as int)
            }
        &&& forall|o: Owner, p: Owner|
            self.holds(o) && self.holds(p) && o != p ==> #[trigger] self.page_for(o)
                != #[trigger] self.page_for(p)
        &&& forall|block: int, slot: int|
            #[trigger] self.slot_in_use(block, slot)
                ==> self.dirs[block].entries[slot].active_slot <= 1
    }
}

/// A page is internal exactly where it is in use for the directory or for a
/// protected page.
pub proof fn law_internal_is_owned(s: StateView, id: int)
    ensures
        s.internal(id) <==> exists|o: Owner| s.holds(o) && #[trigger] s.page_for(o) == id,
{
    if s.internal(id) {
        if exists|block: int| 0 <= block < s.blocks.len() && #[trigger] s.backs_block(block, id) {
            let block = choose|block: int|
                0 <= block < s.blocks.len() && #[trigger] s.backs_block(block, id);
            if s.blocks[block].page_a == id {
                assert(s.page_for(Owner::Block(block, MetaSelector::A)) == id);
            } else {
                assert(s.page_for(Owner::Block(block, MetaSelector::B)) == id);
            }
        } else {
            let (block, slot) = choose|block: int, slot: int|
                s.has_slot(block, slot) && #[trigger] s.backs_slot(block, slot, id);
            if s.dirs[block].entries[slot].page_a == id {
                assert(s.page_for(Owner::Slot(block, slot, false)) == id);
            } else {
                assert(s.page_for(Owner::Slot(block, slot, true)) == id);
            }
        }
    }
    if exists|o: Owner| s.holds(o) && #[trigger] s.page_for(o) == id {
        let o = choose|o: Owner| s.holds(o) && #[trigger] s.page_for(o) == id;
        match o {
            Owner::Block(block, _) => {
                assert(s.backs_block(block, id));
            },
            Owner::Slot(block, slot, _) => {
                assert(s.backs_slot(block, slot, id));
            },
        }
    }
}

/// A fresh file is tidy.
pub proof fn law_fresh_is_tidy()
    ensures
        StateView::fresh().tidy(),
{
}

/// A commit of the metadata, a new generation, and metadata under which the pages
/// in use stay allocated keep a state tidy.  So do allocation and growth.
pub proof fn law_meta_keeps_tidy(s: StateView, t: StateView)
    requires
        s.tidy(),
        t.blocks == s.blocks,
        t.dirs == s.dirs,
        forall|id: int|
            s.internal(id) && s.meta.allocated(id) ==> #[trigger] t.meta.allocated(id),
    ensures
        t.tidy(),
{
    assert forall|o: Owner| t.holds(o) implies {
        let page = #[trigger] t.page_for(o);
        FIRST_DATA_PAGE <= page && t.meta.allocated(page as int)
    } by {
        let page = s.page_for(o);
        assert(t.page_for(o) == page);
        assert(s.holds(o));
        law_internal_is_owned(s, page as int);
        assert(s.meta.allocated(page as int));
    }
    assert forall|o: Owner, p: Owner| t.holds(o) && t.holds(p) && o != p implies #[trigger] t.page_for(
        o,
    ) != #[trigger] t.page_for(p) by {
        assert(s.page_for(o) != s.page_for(p));
    }
    assert forall|block: int, slot: int| #[trigger] t.slot_in_use(block, slot) implies t.dirs[block].entries[slot].active_slot
        <= 1 by {
        assert(s.slot_in_use(block, slot));
    }
}

/// Freeing a regular page keeps a state tidy.
pub proof fn law_free_keeps_tidy(s: StateView, id: u64)
    requires
        s.tidy(),
        s.meta.well_sized(),
        s.regular(id as int),
    ensures
        (StateView { meta: s.meta.release(id), ..s }).tidy(),
{
    let t = StateView { meta: s.meta.release(id), ..s };
    assert forall|j: int| s.internal(j) && s.meta.allocated(j) implies #[trigger] t.meta.allocated(
        j,
    ) by {
        crate::bitmap::lemma_with_clear(s.meta.bitmap, id as int, j);
    }
    law_meta_keeps_tidy(s, t);
}

/// Pages that are reserved, with the file doubled as often as needed, keep a
/// state tidy and are free for any use: they are distinct data pages that serve
/// nothing yet.
pub proof fn law_reserved_pages_are_new(s: StateView, n: nat, page_size: usize)
    requires
        s.tidy(),
        s.meta.accurate(),
        s.meta.can_take(n, page_size),
    ensures
        ({
            let (m, ids) = s.meta.take_growing(n);
            let t = StateView { meta: m, ..s };
            &&& t.tidy()
            &&& ids.len() == n
            &&& increasing(ids)
            &&& forall|i: int|
                0 <= i < ids.len() ==> {
                    &&& FIRST_DATA_PAGE <= #[trigger] ids[i]
                    &&& t.meta.allocated(ids[i] as int)
                    &&& !t.internal(ids[i] as int)
                }
        }),
{
    crate::growth::law_pages_handed_out(s.meta, n, page_size);
    let (m, ids) = s.meta.take_growing(n);
    let t = StateView { meta: m, ..s };
    law_meta_keeps_tidy(s, t);
    assert forall|i: int| 0 <= i < ids.len() implies {
        &&& FIRST_DATA_PAGE <= #[trigger] ids[i]
        &&& t.meta.allocated(ids[i] as int)
        &&& !t.internal(ids[i] as int)
    } by {
        let id = ids[i] as int;
        assert(among(ids, id));
        law_internal_is_owned(s, id);
        law_internal_is_owned(t, id);
        if t.internal(id) {
            let o = choose|o: Owner| t.holds(o) && #[trigger] t.page_for(o) == id;
            assert(s.holds(o) && s.page_for(o) == id);
            assert(s.meta.allocated(id));
        }
    }
}

/// Entering a protected page keeps a state tidy if its pages are distinct,
/// allocated, not reserved, and not yet in use.
pub proof fn law_enter_keeps_tidy(
    s: StateView,
    place: Place,
    pages: Seq<u64>,
    f: Seq<u8>,
    page_size: usize,
)
    requires
        valid_page_size(page_size),
        s.tidy(),
        s.place(page_size) == Ok::<Place, MappedPageError>(place),
        addressable(page_size),
        s.dirs.len() <= usize::MAX,
        forall|b: int| 0 <= b < s.dirs.len() ==> (#[trigger] s.dirs[b]).entries.len() <= usize::MAX,
        pages.len() == place.pages(),
        increasing(pages),
        forall|i: int|
            0 <= i < pages.len() ==> {
                &&& FIRST_DATA_PAGE <= #[trigger] pages[i]
                &&& s.meta.allocated(pages[i] as int)
                &&& !s.internal(pages[i] as int)
            },
    ensures
        s.entered(place, pages, f, page_size).tidy(),
{
    let t = s.entered(place, pages, f, page_size);
    let n = pages.len() as int;
    crate::protected::lemma_open_slot(s, 0);
    let (b, k) = match place {
        Place::Slot { block, slot } => (block as int, slot as int),
        Place::NewBlock => (s.blocks.len() as int, 0int),
    };
    // The uses of `t` are those of `s`, and those that are made for `pages`.
    assert forall|o: Owner| t.holds(o) implies ({
        ||| s.holds(o) && t.page_for(o) == s.page_for(o)
        ||| o == Owner::Slot(b, k, false) && t.page_for(o) == pages[n - 2]
        ||| o == Owner::Slot(b, k, true) && t.page_for(o) == pages[n - 1]
        ||| place is NewBlock && o == Owner::Block(b, MetaSelector::A) && t.page_for(o) == pages[0]
        ||| place is NewBlock && o == Owner::Block(b, MetaSelector::B) && t.page_for(o) == pages[1]
    }) by {
        match o {
            Owner::Block(block, sel) => {
                if block < s.blocks.len() {
                    assert(t.blocks[block] == s.blocks[block]);
                }
            },
            Owner::Slot(block, slot, second) => {
                if block == b && slot == k {
                } else if place is NewBlock && block == b {
                    assert(t.dirs[block].entries[slot] == DirEntry::free_entry());
                } else {
                    assert(t.dirs[block].entries[slot] == s.dirs[block].entries[slot]);
                    assert(s.slot_in_use(block, slot));
                }
            },
        }
    }
    assert forall|o: Owner| t.holds(o) implies {
        let page = #[trigger] t.page_for(o);
        FIRST_DATA_PAGE <= page && t.meta.allocated(page as int)
    } by {
        assert(FIRST_DATA_PAGE <= pages[n - 1] && FIRST_DATA_PAGE <= pages[n - 2]);
        assert(FIRST_DATA_PAGE <= pages[0] && FIRST_DATA_PAGE <= pages[1]);
        if s.holds(o) {
            assert(FIRST_DATA_PAGE <= s.page_for(o));
        }
    }
    assert forall|o: Owner, p: Owner| t.holds(o) && t.holds(p) && o != p implies #[trigger] t.page_for(
        o,
    ) != #[trigger] t.page_for(p) by {
        if s.holds(o) && t.page_for(o) == s.page_for(o) {
            law_internal_is_owned(s, s.page_for(o) as int);
        }
        if s.holds(p) && t.page_for(p) == s.page_for(p) {
            law_internal_is_owned(s, s.page_for(p) as int);
        }
        assert(!s.internal(pages[0] as int) && !s.internal(pages[1] as int));
        assert(!s.internal(pages[n - 2] as int) && !s.internal(pages[n - 1] as int));
        assert(pages[n - 2] < pages[n - 1]);
        assert(pages[0] < pages[1]);
        if place is NewBlock {
            assert(pages[1] < pages[2]);
        }
        if s.holds(o) && s.holds(p) && t.page_for(o) == s.page_for(o) && t.page_for(p)
            == s.page_for(p) {
            assert(s.page_for(o) != s.page_for(p));
        }
    }
    assert forall|block: int, slot: int| #[trigger] t.slot_in_use(block, slot) implies t.dirs[block].entries[slot].active_slot
        <= 1 by {
        if block == b && slot == k {
        } else if place is NewBlock && block == b {
            assert(t.dirs[block].entries[slot] == DirEntry::free_entry());
        } else {
            assert(t.dirs[block].entries[slot] == s.dirs[block].entries[slot]);
            assert(s.slot_in_use(block, slot));
        }
    }
}

/// Freeing an entry, and then its copies, keeps a state tidy.
pub proof fn law_free_protected_keeps_tidy(s: StateView, block: int, slot: int)
    requires
        s.tidy(),
        s.meta.well_sized(),
        s.meta.free_count + 2 <= u64::MAX,
        s.slot_in_use(block, slot),
    ensures
        ({
            let e = s.dirs[block].entries[slot];
            let t = s.with_entry(block, slot, DirEntry { in_use: false, ..e });
            &&& t.tidy()
            &&& !t.internal(e.page_a as int)
            &&& !t.internal(e.page_b as int)
            &&& (StateView { meta: s.meta.freed(e.page_a).freed(e.page_b), ..t }).tidy()
        }),
{
    let e = s.dirs[block].entries[slot];
    let t = s.with_entry(block, slot, DirEntry { in_use: false, ..e });
    let a = Owner::Slot(block, slot, false);
    let b = Owner::Slot(block, slot, true);
    assert forall|o: Owner| t.holds(o) implies s.holds(o) && t.page_for(o) == s.page_for(o) && o
        != a && o != b by {
        match o {
            Owner::Block(i, sel) => {},
            Owner::Slot(i, j, second) => {
                if i != block || j != slot {
                    assert(t.dirs[i].entries[j] == s.dirs[i].entries[j]);
                    assert(s.slot_in_use(i, j));
                }
            },
        }
    }
    assert forall|o: Owner| t.holds(o) implies {
        let page = #[trigger] t.page_for(o);
        FIRST_DATA_PAGE <= page && t.meta.allocated(page as int)
    } by {
        assert(FIRST_DATA_PAGE <= s.page_for(o));
    }
    assert forall|o: Owner, p: Owner| t.holds(o) && t.holds(p) && o != p implies #[trigger] t.page_for(
        o,
    ) != #[trigger] t.page_for(p) by {
        assert(s.page_for(o) != s.page_for(p));
    }
    assert forall|i: int, j: int| #[trigger] t.slot_in_use(i, j) implies t.dirs[i].entries[j].active_slot
        <= 1 by {
        assert(t.holds(Owner::Slot(i, j, false)));
        assert(s.slot_in_use(i, j));
        assert(t.dirs[i].entries[j] == s.dirs[i].entries[j]);
    }
    assert(t.tidy());
    law_internal_is_owned(t, e.page_a as int);
    law_internal_is_owned(t, e.page_b as int);
    assert forall|o: Owner| t.holds(o) implies #[trigger] t.page_for(o) != e.page_a && t.page_for(o)
        != e.page_b by {
        assert(s.page_for(a) == e.page_a && s.page_for(b) == e.page_b);
        assert(s.page_for(o) != s.page_for(a));
        assert(s.page_for(o) != s.page_for(b));
    }
    let u = StateView { meta: s.meta.freed(e.page_a).freed(e.page_b), ..t };
    let pair = seq![e.page_a, e.page_b];
    assert(pair.drop_last() =~= seq![e.page_a]);
    assert(seq![e.page_a].drop_last() =~= Seq::empty());
    assert(s.meta.freed_all(Seq::empty()) == s.meta);
    assert(s.meta.freed_all(seq![e.page_a]) == s.meta.freed(e.page_a));
    assert(s.meta.freed_all(pair) == u.meta);
    crate::growth::lemma_freed_all_allocated(s.meta, pair);
    assert forall|id: int| t.internal(id) && t.meta.allocated(id) implies #[trigger] u.meta.allocated(
        id,
    ) by {
        assert(!among(pair, id));
    }
    law_meta_keeps_tidy(t, u);
}

/// Promoting the other copy of a protected page keeps a state tidy.
pub proof fn law_write_keeps_tidy(s: StateView, id: u64, page: Seq<u8>, page_size: usize)
    requires
        s.tidy(),
        s.protected_refusal(id, page_size) is None,
    ensures
        s.written(id, s.inactive_slot(id, page_size), page, page_size).tidy(),
{
    let slot = s.inactive_slot(id, page_size);
    let t = s.written(id, slot, page, page_size);
    let b = StateView::block_of(id, page_size);
    let k = StateView::slot_of(id, page_size);
    assert(s.slot_in_use(b, k));
    assert forall|i: int, j: int| #[trigger] t.slot_in_use(i, j) <==> s.slot_in_use(i, j) by {
        if i == b && j == k {
        } else if s.has_slot(i, j) {
            assert(t.dirs[i].entries[j] == s.dirs[i].entries[j]);
        }
    }
    assert forall|o: Owner| t.holds(o) implies s.holds(o) && t.page_for(o) == s.page_for(o) by {
        match o {
            Owner::Block(i, sel) => {},
            Owner::Slot(i, j, second) => {
                assert(t.slot_in_use(i, j));
                if i != b || j != k {
                    assert(t.dirs[i].entries[j] == s.dirs[i].entries[j]);
                }
            },
        }
    }
    assert forall|o: Owner| t.holds(o) implies {
        let p = #[trigger] t.page_for(o);
        FIRST_DATA_PAGE <= p && t.meta.allocated(p as int)
    } by {
        assert(FIRST_DATA_PAGE <= s.page_for(o));
    }
    assert forall|o: Owner, p: Owner| t.holds(o) && t.holds(p) && o != p implies #[trigger] t.page_for(
        o,
    ) != #[trigger] t.page_for(p) by {
        assert(s.page_for(o) != s.page_for(p));
    }
    assert forall|i: int, j: int| #[trigger] t.slot_in_use(i, j) implies t.dirs[i].entries[j].active_slot
        <= 1 by {
        if i != b || j != k {
            assert(t.dirs[i].entries[j] == s.dirs[i].entries[j]);
        }
    }
}

/// Committing a directory block keeps a state tidy.
pub proof fn law_dir_commit_keeps_tidy(s: StateView, idx: int)
    requires
        s.tidy(),
        0 <= idx < s.blocks.len(),
    ensures
        s.dir_committed(idx).tidy(),
{
    let t = s.dir_committed(idx);
    assert forall|o: Owner| t.holds(o) implies s.holds(o) && t.page_for(o) == s.page_for(o) by {}
    assert forall|o: Owner| t.holds(o) implies {
        let p = #[trigger] t.page_for(o);
        FIRST_DATA_PAGE <= p && t.meta.allocated(p as int)
    } by {
        assert(FIRST_DATA_PAGE <= s.page_for(o));
    }
    assert forall|o: Owner, p: Owner| t.holds(o) && t.holds(p) && o != p implies #[trigger] t.page_for(
        o,
    ) != #[trigger] t.page_for(p) by {
        assert(s.page_for(o) != s.page_for(p));
    }
    assert forall|i: int, j: int| #[trigger] t.slot_in_use(i, j) implies t.dirs[i].entries[j].active_slot
        <= 1 by {
        assert(s.slot_in_use(i, j));
    }
}

/// In a tidy state whose pages all lie in the file, the directory is laid out as
/// its commits need it.
pub proof fn law_tidy_is_laid_out(s: StateView, len: int, page_size: usize)
    requires
        s.tidy(),
        s.meta.total_pages * page_size <= len,
    ensures
        s.laid_out(len, page_size),
{
    assert forall|i: int, sel: MetaSelector| 0 <= i < s.blocks.len() implies {
        let phys = #[trigger] s.blocks[i].copy(sel);
        FIRST_DATA_PAGE <= phys && page_in_map(phys, page_size, len)
    } by {
        let phys = s.page_for(Owner::Block(i, sel));
        assert(FIRST_DATA_PAGE <= phys && s.meta.allocated(phys as int));
        assert((phys + 1) * page_size <= s.meta.total_pages * page_size) by (nonlinear_arith)
            requires
                phys + 1 <= s.meta.total_pages,
        ;
    }
    assert forall|i: int, a: MetaSelector, j: int, b: MetaSelector|
        0 <= i < s.blocks.len() && 0 <= j < s.blocks.len() && (i != j || a
            != b) implies #[trigger] s.blocks[i].copy(a) != #[trigger] s.blocks[j].copy(b) by {
        assert(s.page_for(Owner::Block(i, a)) != s.page_for(Owner::Block(j, b)));
    }
}

// ── Protected pages ───────────────────────────────────────────────────────────

/// Page `q` of the file is as before when page `p` is replaced, and page `p` is
/// the new one.
pub proof fn lemma_with_page(f: Seq<u8>, p: u64, q: u64, page_size: usize, new: Seq<u8>)
    requires
        0 < page_size,
        new.len() == page_size,
        page_in_map(p, page_size, f.len() as int),
        page_in_map(q, page_size, f.len() as int),
    ensures
        page_of(with_page(f, p as int, page_size as int, new), q as int, page_size as int) == if p
            == q {
            new
        } else {
            page_of(f, q as int, page_size as int)
        },
{
    let ps = page_size as int;
    let (x, y) = (p as int, q as int);
    assert(x * ps + ps == (x + 1) * ps && y * ps + ps == (y + 1) * ps && 0 <= x * ps && 0 <= y * ps)
        by (nonlinear_arith)
        requires
            0 <= x,
            0 <= y,
            0 < ps,
    ;
    assert(x < y ==> x * ps + ps <= y * ps) by (nonlinear_arith)
        requires
            0 < ps,
    ;
    assert(y < x ==> y * ps + ps <= x * ps) by (nonlinear_arith)
        requires
            0 < ps,
    ;
    let g = with_page(f, x, ps, new);
    if p == q {
        assert(page_of(g, y, ps) =~= new);
    } else {
        assert(page_of(g, y, ps) =~= page_of(f, y, ps));
    }
}

/// What is written through a writer is not seen before it is committed: it
/// changes the active copy of no protected page, nor any regular page.
pub proof fn law_write_unseen_before_commit(
    s: StateView,
    f: Seq<u8>,
    id: u64,
    page_size: usize,
    new: Seq<u8>,
)
    requires
        valid_page_size(page_size),
        s.tidy(),
        s.meta.total_pages * page_size <= f.len(),
        s.protected_refusal(id, page_size) is None,
        new.len() == page_size,
    ensures
        ({
            let g = with_page(f, s.inactive_copy(id, page_size) as int, page_size as int, new);
            &&& forall|other: u64|
                s.protected_refusal(other, page_size) is None ==> page_of(
                    g,
                    #[trigger] s.active_copy(other, page_size) as int,
                    page_size as int,
                ) == page_of(f, s.active_copy(other, page_size) as int, page_size as int)
            &&& forall|q: u64|
                s.regular(q as int) ==> #[trigger] page_of(g, q as int, page_size as int)
                    == page_of(f, q as int, page_size as int)
        }),
{
    let ps = page_size as int;
    let b = StateView::block_of(id, page_size);
    let k = StateView::slot_of(id, page_size);
    let e = s.dirs[b].entries[k];
    let phys = s.inactive_copy(id, page_size);
    let g = with_page(f, phys as int, ps, new);
    assert(s.slot_in_use(b, k));
    let own = Owner::Slot(b, k, e.active_slot == 0);
    assert(s.page_for(own) == phys);
    lemma_owned_in_map(s, own, f.len() as int, page_size);
    assert forall|other: u64| s.protected_refusal(other, page_size) is None implies page_of(
        g,
        #[trigger] s.active_copy(other, page_size) as int,
        ps,
    ) == page_of(f, s.active_copy(other, page_size) as int, ps) by {
        let b2 = StateView::block_of(other, page_size);
        let k2 = StateView::slot_of(other, page_size);
        let e2 = s.dirs[b2].entries[k2];
        assert(s.slot_in_use(b2, k2));
        let o2 = Owner::Slot(b2, k2, e2.active_slot != 0);
        assert(s.page_for(o2) == s.active_copy(other, page_size));
        assert(o2 != own);
        lemma_owned_in_map(s, o2, f.len() as int, page_size);
        lemma_with_page(f, phys, s.active_copy(other, page_size), page_size, new);
    }
    assert forall|q: u64| s.regular(q as int) implies #[trigger] page_of(g, q as int, ps)
        == page_of(f, q as int, ps) by {
        law_internal_is_owned(s, phys as int);
        assert((q + 1) * page_size <= s.meta.total_pages * page_size) by (nonlinear_arith)
            requires
                q + 1 <= s.meta.total_pages,
        ;
        lemma_with_page(f, phys, q, page_size, new);
    }
}

proof fn lemma_owned_in_map(s: StateView, o: Owner, len: int, page_size: usize)
    requires
        s.tidy(),
        s.holds(o),
        s.meta.total_pages * page_size <= len,
    ensures
        page_in_map(s.page_for(o), page_size, len),
{
    let phys = s.page_for(o);
    assert(s.meta.allocated(phys as int));
    assert((phys + 1) * page_size <= s.meta.total_pages * page_size) by (nonlinear_arith)
        requires
            phys + 1 <= s.meta.total_pages,
    ;
}

/// Once a write is committed, the copy that was written is the active one, and
/// the other handles are as before.
pub proof fn law_write_seen_after_commit(
    s: StateView,
    id: u64,
    page: Seq<u8>,
    page_size: usize,
)
    requires
        valid_page_size(page_size),
        s.tidy(),
        s.protected_refusal(id, page_size) is None,
    ensures
        ({
            let b = StateView::block_of(id, page_size);
            let t = s.written(id, s.inactive_slot(id, page_size), page, page_size).dir_committed(b);
            &&& t.protected_refusal(id, page_size) is None
            &&& t.active_copy(id, page_size) == s.inactive_copy(id, page_size)
            &&& t.inactive_copy(id, page_size) == s.active_copy(id, page_size)
            &&& t.entry(id, page_size)->0.checksum == crate::checksum::crc32_of(page)
            &&& forall|other: u64|
                other != id ==> #[trigger] t.entry(other, page_size) == s.entry(other, page_size)
        }),
{
    let b = StateView::block_of(id, page_size);
    let k = StateView::slot_of(id, page_size);
    assert(s.slot_in_use(b, k));
    let t = s.written(id, s.inactive_slot(id, page_size), page, page_size).dir_committed(b);
    let epp = crate::directory::spec_dir_entries_per_page(page_size) as int;
    assert forall|other: u64| other != id implies #[trigger] t.entry(other, page_size) == s.entry(
        other,
        page_size,
    ) by {
        lemma_handles_apart(id, other, epp);
    }
}

/// Entering a protected page changes no handle that names one: its entry is as
/// before.
pub proof fn law_enter_keeps_other_handles(
    s: StateView,
    place: Place,
    pages: Seq<u64>,
    f: Seq<u8>,
    page_size: usize,
    other: u64,
)
    requires
        s.wf(page_size),
        s.place(page_size) == Ok::<Place, MappedPageError>(place),
        s.protected_refusal(other, page_size) is None,
    ensures
        s.entered(place, pages, f, page_size).entry(other, page_size) == s.entry(other, page_size),
        s.entered(place, pages, f, page_size).protected_refusal(other, page_size) is None,
{
    lemma_wf_sizes(s, page_size);
    crate::protected::lemma_open_slot(s, 0);
    let b = StateView::block_of(other, page_size);
    assert(s.dirs[b] == s.entered(place, pages, f, page_size).dirs[b] || place is Slot);
}

/// Once its entry is free, a handle names no protected page, and freeing it again
/// is refused; every other handle is as before.
pub proof fn law_freed_handle_is_gone(v: PagerView, id: u64, page_size: usize)
    requires
        valid_page_size(page_size),
        v.free_protected_refusal(id, page_size) is None,
    ensures
        ({
            let w = v.entry_freed(id, page_size);
            &&& w.protected_refusal(id, page_size) == Some(MappedPageError::OutOfBounds)
            &&& w.free_protected_refusal(id, page_size) == Some(MappedPageError::DoubleFree)
            &&& forall|other: u64|
                other != id ==> #[trigger] w.state.entry(other, page_size) == v.state.entry(
                    other,
                    page_size,
                )
        }),
{
    let w = v.entry_freed(id, page_size);
    let epp = crate::directory::spec_dir_entries_per_page(page_size) as int;
    assert forall|other: u64| other != id implies #[trigger] w.state.entry(other, page_size)
        == v.state.entry(other, page_size) by {
        lemma_handles_apart(id, other, epp);
    }
}

/// Different handles name different slots.
pub proof fn lemma_handles_apart(x: u64, y: u64, epp: int)
    requires
        x != y,
        0 < epp,
    ensures
        x as int / epp != y as int / epp || x as int % epp != y as int % epp,
{
    vstd::arithmetic::div_mod::lemma_fundamental_div_mod(x as int, epp);
    vstd::arithmetic::div_mod::lemma_fundamental_div_mod(y as int, epp);
}

// ── Protected pages and the file ──────────────────────────────────────────────

/// A changed entry is a change of its directory page alone.
pub proof fn lemma_entry_differs(d: StateView, b: int, k: int, e: DirEntry, page_size: usize)
    requires
        d.wf(page_size),
        d.has_slot(b, k),
    ensures
        dir_differs_at(d, d.with_entry(b, k, e), b),
        d.with_entry(b, k, e).wf(page_size),
{
    let t = d.with_entry(b, k, e);
    assert forall|i: int| 0 <= i < t.dirs.len() implies (#[trigger] t.dirs[i]).fits(
        page_size as int,
    ) by {
        assert(d.dirs[i].fits(page_size as int));
    }
}

/// A protected page that is entered and committed is found again when the file is
/// opened.
pub proof fn law_protected_alloc_survives(
    d: StateView,
    place: Place,
    pages: Seq<u64>,
    f: Seq<u8>,
    page_size: usize,
)
    requires
        valid_page_size(page_size),
        addressable(page_size),
        d.found_in(f, page_size),
        d.tidy(),
        d.meta.total_pages * page_size <= f.len(),
        d.place(page_size) == Ok::<Place, MappedPageError>(place),
        pages.len() == place.pages(),
        increasing(pages),
        forall|i: int|
            0 <= i < pages.len() ==> {
                &&& FIRST_DATA_PAGE <= #[trigger] pages[i]
                &&& d.meta.allocated(pages[i] as int)
                &&& !d.internal(pages[i] as int)
            },
    ensures
        ({
            let block = place.block(d);
            let id = place.id(d, page_size);
            let t = d.entered(place, pages, f, page_size);
            let found = recover(run(f, t.dir_plan(block, f, page_size)), page_size);
            &&& found == Ok::<StateView, MappedPageError>(t.dir_committed(block))
            &&& t.dir_committed(block).protected_refusal(id, page_size) is None
            &&& t.dir_committed(block).active_copy(id, page_size) == pages[pages.len() - 2]
            &&& d.protected_refusal(id, page_size) is Some
        }),
{
    let block = place.block(d);
    let id = place.id(d, page_size);
    let t = d.entered(place, pages, f, page_size);
    crate::durability::lemma_found_stands(d, f, page_size);
    crate::protected::lemma_open_slot(d, 0);
    lemma_wf_sizes(d, page_size);
    law_enter_keeps_tidy(d, place, pages, f, page_size);
    law_tidy_is_laid_out(t, f.len() as int, page_size);
    match place {
        Place::Slot { block: b, slot: k } => {
            let e = t.dirs[b as int].entries[k as int];
            assert(t =~= d.with_entry(b as int, k as int, e));
            lemma_entry_differs(d, b as int, k as int, e, page_size);
            crate::iter::lemma_slot_id_fits(d, b as int, k as int, page_size);
        },
        Place::NewBlock => {
            assert(t.blocks.drop_last() =~= d.blocks);
            assert forall|i: int| 0 <= i < t.dirs.len() implies (#[trigger] t.dirs[i]).fits(
                page_size as int,
            ) by {
                if i < d.dirs.len() {
                    assert(d.dirs[i].fits(page_size as int));
                }
            }
            assert(dir_differs_at(d, t, block));
            assert(t.wf(page_size));
            crate::iter::lemma_slot_id_fits(t, block, 0, page_size);
        },
    }
    crate::durability::law_dir_commit_reaches_file(d, t, block, f, page_size);
}

pub proof fn lemma_wf_sizes(d: StateView, page_size: usize)
    requires
        d.wf(page_size),
    ensures
        d.dirs.len() <= usize::MAX,
        forall|b: int| 0 <= b < d.dirs.len() ==> (#[trigger] d.dirs[b]).entries.len() <= usize::MAX,
{
    assert forall|b: int| 0 <= b < d.dirs.len() implies (#[trigger] d.dirs[b]).entries.len()
        <= usize::MAX by {
        assert(d.dirs[b].fits(page_size as int));
    }
}

/// The commit of a write to a protected page is atomic: wherever it stops, and
/// however the bytes under way are torn, the file is opened with the old content
/// of the page or with the new one, and every other protected page is as before;
/// as long as the directory section of page 0 reads as the old or the new
/// references, and page 0 leads to no torn page if the file was not in order.  The new
/// content stands in the other copy, flushed.
pub proof fn law_protected_write_is_atomic(
    d: StateView,
    f: Seq<u8>,
    id: u64,
    page_size: usize,
    n: int,
    g: Seq<u8>,
)
    requires
        valid_page_size(page_size),
        d.found_in(f, page_size),
        d.tidy(),
        d.meta.total_pages * page_size <= f.len(),
        d.protected_refusal(id, page_size) is None,
        0 <= n <= 4,
        ({
            let new = page_of(f, d.inactive_copy(id, page_size) as int, page_size as int);
            let t = d.written(id, d.inactive_slot(id, page_size), new, page_size);
            let b = StateView::block_of(id, page_size);
            let plan = t.dir_plan(b, f, page_size);
            let c = t.dir_committed(b);
            &&& crash_leaves(f, plan.take(n), g)
            &&& {
                ||| d.in_sync(f, page_size) && (n == 3 ==> section_reads(
                    g,
                    page_size,
                    d.blocks,
                    c.blocks,
                ))
                ||| d.spares_dir_commit(t, b, f, g, page_size, n)
            }
        }),
    ensures
        recover(g, page_size) is Ok,
        ({
            let r = recover(g, page_size)->Ok_0;
            let found = page_of(g, r.active_copy(id, page_size) as int, page_size as int);
            let old_page = page_of(f, d.active_copy(id, page_size) as int, page_size as int);
            let new_page = page_of(f, d.inactive_copy(id, page_size) as int, page_size as int);
            &&& r.protected_refusal(id, page_size) is None
            &&& found == old_page || found == new_page
            &&& n <= 1 ==> found == old_page
            &&& n == 2 && d.in_sync(f, page_size) ==> found == old_page
            &&& n == 4 ==> found == new_page
            &&& forall|other: u64|
                other != id && d.protected_refusal(other, page_size) is None ==> {
                    &&& r.protected_refusal(other, page_size) is None
                    &&& page_of(
                        g,
                        #[trigger] r.active_copy(other, page_size) as int,
                        page_size as int,
                    ) == page_of(f, d.active_copy(other, page_size) as int, page_size as int)
                }
        }),
{
    let ps = page_size as int;
    let b = StateView::block_of(id, page_size);
    let k = StateView::slot_of(id, page_size);
    let e = d.dirs[b].entries[k];
    let new_page = page_of(f, d.inactive_copy(id, page_size) as int, ps);
    let slot = d.inactive_slot(id, page_size);
    let t = d.written(id, slot, new_page, page_size);
    let c = t.dir_committed(b);
    crate::durability::lemma_found_stands(d, f, page_size);
    assert(d.slot_in_use(b, k));
    lemma_entry_differs(d, b, k, t.dirs[b].entries[k], page_size);
    assert(t =~= d.with_entry(b, k, t.dirs[b].entries[k]));
    law_write_keeps_tidy(d, id, new_page, page_size);
    law_tidy_is_laid_out(t, f.len() as int, page_size);
    if d.in_sync(f, page_size) && (n == 3 ==> section_reads(g, page_size, d.blocks, c.blocks)) {
        crate::durability::law_dir_commit_survives_crash(d, t, b, f, page_size, n, g);
    } else {
        crate::durability::law_first_dir_commit_survives_crash(d, t, b, f, page_size, n, g);
    }
    law_write_seen_after_commit(d, id, new_page, page_size);
    // The plan writes a directory copy and page 0, and no copy of a protected page.
    let block = t.blocks[b];
    let dir_owner = Owner::Block(b, block.active.other());
    let phys = d.page_for(dir_owner);
    let dir = t.dirs[b].encode(ps);
    let sum = crate::checksum::crc32_of(t.meta_page_beside(f, phys, dir, page_size));
    assert(FIRST_DATA_PAGE <= phys);
    lemma_owned_in_map(d, dir_owner, f.len() as int, page_size);
    crate::durability::lemma_plan_pages(t, page_size, t.active, sum);
    crate::durability::lemma_plan_pages(c, page_size, t.active, sum);
    crate::durability::lemma_crash_two_phase(
        f,
        phys,
        dir,
        crate::image::page0_of(page_size, t.active, sum, c.blocks),
        page_size,
        n,
        g,
    );
    assert forall|o: Owner| d.holds(o) && o is Slot implies page_of(
        g,
        #[trigger] d.page_for(o) as int,
        ps,
    ) == page_of(f, d.page_for(o) as int, ps) by {
        assert(d.page_for(o) != d.page_for(dir_owner));
        lemma_owned_in_map(d, o, f.len() as int, page_size);
    }
    let first = Owner::Slot(b, k, e.active_slot != 0);
    let second = Owner::Slot(b, k, e.active_slot == 0);
    assert(d.page_for(first) == d.active_copy(id, page_size));
    assert(d.page_for(second) == d.inactive_copy(id, page_size));
    let r = recover(g, page_size)->Ok_0;
    assert forall|other: u64|
        other != id && d.protected_refusal(other, page_size) is None implies {
        &&& r.protected_refusal(other, page_size) is None
        &&& page_of(g, #[trigger] r.active_copy(other, page_size) as int, ps) == page_of(
            f,
            d.active_copy(other, page_size) as int,
            ps,
        )
    } by {
        let b2 = StateView::block_of(other, page_size);
        let k2 = StateView::slot_of(other, page_size);
        let e2 = d.dirs[b2].entries[k2];
        assert(c.entry(other, page_size) == d.entry(other, page_size));
        assert(d.slot_in_use(b2, k2));
        let o2 = Owner::Slot(b2, k2, e2.active_slot != 0);
        assert(d.page_for(o2) == d.active_copy(other, page_size));
    }
}

} // verus!
