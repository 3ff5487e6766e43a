//! Commits as plans: the stores and flushes that make a new state durable, in
//! the order in which they must reach the file.
//!
//! A plan has two halves.  The first writes the new copy to a page that the file
//! does not yet point to, and flushes it.  The second rewrites page 0, which
//! then points to the new copy, and flushes that.

use vstd::prelude::*;

use crate::bytes::{page_of, splice};
use crate::checksum::{crc32, crc32_of};
use crate::image::{State, StateView, page0_bytes, page0_of, valid_page_size};
use crate::meta::MetaPage;
use crate::page::{page_in_map, page_slice};

verus! {

/// One step of a plan.
#[derive(Debug)]
pub enum Step {
    /// Copy `data` into the map from byte `offset` on.
    Store { offset: usize, data: Vec<u8> },
    /// Flush `len` bytes of the map from byte `offset` on.
    Flush { offset: usize, len: usize },
}

#[verifier::ext_equal]
pub enum StepView {
    Store { offset: int, data: Seq<u8> },
    Flush { offset: int, len: int },
}

impl View for Step {
    type V = StepView;

    open spec fn view(&self) -> StepView {
        match self {
            Step::Store { offset, data } => StepView::Store { offset: *offset as int, data: data@ },
            Step::Flush { offset, len } => StepView::Flush {
                offset: *offset as int,
                len: *len as int,
            },
        }
    }
}

/// What a list of steps says.
pub open spec fn steps_of(steps: Seq<Step>) -> Seq<StepView> {
    Seq::new(steps.len(), |i: int| steps[i]@)
}

/// Write `page` to page `phys`, then `page0` to page 0, each flushed before the
/// plan goes on.
pub open spec fn two_phase(phys: u64, page: Seq<u8>, page0: Seq<u8>, page_size: usize) -> Seq<
    StepView,
> {
    seq![
        StepView::Store { offset: phys * page_size, data: page },
        StepView::Flush { offset: phys * page_size, len: page_size as int },
        StepView::Store { offset: 0, data: page0 },
        StepView::Flush { offset: 0, len: page_size as int },
    ]
}

fn two_phase_steps(phys: u64, page: Vec<u8>, page0: Vec<u8>, page_size: usize) -> (r: Vec<Step>)
    requires
        0 < page_size,
        page_in_map(phys, page_size, usize::MAX as int),
    ensures
        steps_of(r@) == two_phase(phys, page@, page0@, page_size),
{
    proof {
        crate::page::lemma_page_in_map(phys, page_size, usize::MAX as int);
    }
    let offset: usize = phys as usize * page_size;
    let mut steps: Vec<Step> = Vec::new();
    steps.push(Step::Store { offset, data: page });
    steps.push(Step::Flush { offset, len: page_size });
    steps.push(Step::Store { offset: 0, data: page0 });
    steps.push(Step::Flush { offset: 0, len: page_size });
    assert(steps_of(steps@) =~= two_phase(phys, page@, page0@, page_size));
    steps
}

// ── Metadata ──────────────────────────────────────────────────────────────────

impl StateView {
    /// The plan that makes the metadata durable: it goes to the metadata page
    /// that is not active, and page 0 then names that page.
    pub open spec fn commit_plan(self, page_size: usize) -> Seq<StepView> {
        let target = self.active.other();
        let page = self.meta.encode(page_size as int);
        two_phase(
            target.page_id(),
            page,
            page0_of(page_size, target, crc32_of(page), self.blocks),
            page_size,
        )
    }

    /// The state once the plan is carried out.
    pub open spec fn committed(self) -> StateView {
        StateView { active: self.active.other(), ..self }
    }

    /// The metadata page that page 0 names once page `phys` holds `page`.
    pub open spec fn meta_page_beside(
        self,
        f: Seq<u8>,
        phys: u64,
        page: Seq<u8>,
        page_size: usize,
    ) -> Seq<u8> {
        if phys == self.active.page_id() {
            page
        } else {
            page_of(f, self.active.page_id() as int, page_size as int)
        }
    }

    /// The plan that makes directory page `idx` durable: it goes to the copy
    /// that is not active, and page 0 then names that copy.  Page 0 also records
    /// the checksum of the metadata page as the file `f` holds it.
    pub open spec fn dir_plan(self, idx: int, f: Seq<u8>, page_size: usize) -> Seq<StepView> {
        let block = self.blocks[idx];
        let phys = block.copy(block.active.other());
        let page = self.dirs[idx].encode(page_size as int);
        let meta_page = self.meta_page_beside(f, phys, page, page_size);
        two_phase(
            phys,
            page,
            page0_of(
                page_size,
                self.active,
                crc32_of(meta_page),
                self.blocks.update(idx, block.flipped()),
            ),
            page_size,
        )
    }

    /// The state once that plan is carried out.
    pub open spec fn dir_committed(self, idx: int) -> StateView {
        StateView { blocks: self.blocks.update(idx, self.blocks[idx].flipped()), ..self }
    }

    /// The pages that the directory plan touches lie inside a map of `len` bytes.
    pub open spec fn dir_plan_in_map(self, idx: int, len: int, page_size: usize) -> bool {
        let block = self.blocks[idx];
        &&& page_in_map(block.copy(block.active.other()), page_size, len)
        &&& page_in_map(self.active.page_id(), page_size, len)
    }
}

impl State {
    /// The plan that makes the metadata durable.
    pub fn commit_plan(&self, page_size: usize) -> (r: Vec<Step>)
        requires
            valid_page_size(page_size),
            self@.wf(page_size),
        ensures
            steps_of(r@) == self@.commit_plan(page_size),
    {
        let target = self.active_meta.other();
        let mut page = crate::bytes::zeroed(page_size);
        self.meta.write_to(page.as_mut_slice());
        let checksum = MetaPage::page_checksum(page.as_slice());
        let page0 = page0_bytes(page_size, target, checksum, self.dir_blocks.as_slice());
        two_phase_steps(target.page_id(), page, page0, page_size)
    }

    /// The plan that makes directory page `idx` durable.
    pub fn dir_plan(&self, idx: usize, map: &[u8], page_size: usize) -> (r: Vec<Step>)
        requires
            valid_page_size(page_size),
            self@.wf(page_size),
            idx < self@.blocks.len(),
            self@.dir_plan_in_map(idx as int, map.len() as int, page_size),
        ensures
            steps_of(r@) == self@.dir_plan(idx as int, map@, page_size),
    {
        let block = self.dir_blocks[idx];
        let phys = block.copy(block.active.other());
        let active_page = self.active_meta.page_id();
        let mut page = crate::bytes::zeroed(page_size);
        assert(self@.dirs[idx as int] == self.dir_pages@[idx as int]@);
        self.dir_pages[idx].write_to(page.as_mut_slice());
        let checksum: u32 = if phys == active_page {
            crc32(page.as_slice())
        } else {
            crc32(page_slice(map, active_page, page_size))
        };
        let mut blocks = self.dir_blocks.clone();
        assert(blocks@ =~= self.dir_blocks@);
        blocks[idx] = block.flipped();
        let page0 = page0_bytes(page_size, self.active_meta, checksum, blocks.as_slice());
        proof {
            assert(page_in_map(phys, page_size, usize::MAX as int));
        }
        two_phase_steps(phys, page, page0, page_size)
    }
}

// ── Carrying a plan out ───────────────────────────────────────────────────────

impl StepView {
    /// The file once this step is carried out.
    pub open spec fn apply(self, f: Seq<u8>) -> Seq<u8> {
        match self {
            StepView::Store { offset, data } => splice(f, offset, data),
            StepView::Flush { .. } => f,
        }
    }

    /// Byte `i` is among those that this step stores or flushes.
    pub open spec fn touches(self, i: int) -> bool {
        match self {
            StepView::Store { offset, data } => offset <= i < offset + data.len(),
            StepView::Flush { offset, len } => offset <= i < offset + len,
        }
    }
}

/// The file once all steps are carried out.
pub open spec fn run(f: Seq<u8>, steps: Seq<StepView>) -> Seq<u8>
    decreases steps.len(),
{
    if steps.len() == 0 {
        f
    } else {
        steps.last().apply(run(f, steps.drop_last()))
    }
}

/// Byte `i` of the file may hold `b` if the machine stops after these steps.
///
/// A stored byte reaches the file at any time until a flush of it ends, so until
/// then the file holds the old or the new one; bytes of one store reach the file
/// in any order.  The last step may have been under way.
pub open spec fn may_hold(f: Seq<u8>, steps: Seq<StepView>, i: int, b: u8) -> bool
    decreases steps.len(),
{
    if steps.len() == 0 {
        b == f[i]
    } else {
        let before = steps.drop_last();
        match steps.last() {
            StepView::Store { offset, data } => {
                ||| may_hold(f, before, i, b)
                ||| steps.last().touches(i) && b == data[i - offset]
            },
            StepView::Flush { .. } => if steps.last().touches(i) {
                b == run(f, before)[i]
            } else {
                may_hold(f, before, i, b)
            },
        }
    }
}

/// `g` may be found in place of the file `f` if the machine stops after these
/// steps.
pub open spec fn crash_leaves(f: Seq<u8>, steps: Seq<StepView>, g: Seq<u8>) -> bool {
    &&& g.len() == f.len()
    &&& forall|i: int| 0 <= i < f.len() ==> #[trigger] may_hold(f, steps, i, g[i])
}

} // verus!
