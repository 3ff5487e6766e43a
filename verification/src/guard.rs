//! Tests of what operations need, for callers that are not verified themselves.

use vstd::prelude::*;

use crate::directory::{dir_entries_per_page, max_dir_blocks};
use crate::image::{is_page_in_map, is_power_of_two};
use crate::page::{PageId, page_in_map};
use crate::pager::{Pager, numbers, page_numbers};
use crate::protected::{AllocProtectedTask, Place, ProtectedPageId, WriteTask, addressable};
use crate::sub_allocator::{SubPageAllocator, SubPageId, valid_sub_size};
use crate::task::IoEvent;

verus! {

/// Test whether the directory's counts fit their 32-bit fields.
pub fn is_addressable(page_size: usize) -> (r: bool)
    ensures
        r == addressable(page_size),
{
    dir_entries_per_page(page_size) as u64 <= u32::MAX as u64 && max_dir_blocks(page_size) as u64
        <= u32::MAX as u64
}

/// Test whether `sub_size` divides `parent_size` as a sub-page allocator needs
/// it.
pub fn is_valid_sub_size(parent_size: usize, sub_size: usize) -> (r: bool)
    ensures
        r == valid_sub_size(parent_size, sub_size),
{
    if sub_size == 0 || sub_size >= parent_size {
        return false;
    }
    parent_size % sub_size == 0 && parent_size / sub_size <= 64 && is_power_of_two(sub_size)
}

impl<const PAGE_SIZE: usize> Pager<PAGE_SIZE> {
    /// Test whether [`allocate`](Self::allocate) may be called: whether the file
    /// can grow, if it has to.
    pub fn ready_to_allocate(&self) -> (r: bool)
        ensures
            r == self@.can_alloc(PAGE_SIZE),
    {
        if self.available {
            self.can_reserve(1)
        } else {
            self.state.meta.generation < u64::MAX || self.state.meta.duplicate().alloc_page().is_none()
        }
    }

    /// Test whether [`alloc_bulk`](Self::alloc_bulk) may be called.
    pub fn ready_to_alloc_bulk(&self, count: usize) -> (r: bool)
        ensures
            r == (self@.available && count > 0 ==> {
                &&& self@.state.meta.can_take(count as nat, PAGE_SIZE)
                &&& self@.state.meta.generation < u64::MAX
            }),
    {
        !self.available || count == 0 || self.can_reserve(count)
    }

    /// Test whether [`free`](Self::free) may be called: whether the counters can
    /// take it, if the page can be freed.
    pub fn ready_to_free(&self, id: PageId<PAGE_SIZE>) -> (r: bool)
        requires
            self.wf(),
        ensures
            r == self@.can_free(id.0),
    {
        self.state.release_refusal(id.0).is_some() || (self.state.meta.free_count < u64::MAX
            && self.state.meta.generation < u64::MAX)
    }

    /// Test whether [`free_bulk`](Self::free_bulk) may be called.
    pub fn ready_to_free_bulk(&self, ids: &Vec<PageId<PAGE_SIZE>>) -> (r: bool)
        requires
            self.wf(),
        ensures
            r == (self@.free_bulk_refusal(numbers(ids@)) is None && ids@.len() > 0 ==> {
                &&& self@.state.meta.free_count + ids@.len() <= u64::MAX
                &&& self@.state.meta.generation < u64::MAX
            }),
    {
        (self.state.meta.free_count <= u64::MAX - ids.len() as u64 && self.state.meta.generation
            < u64::MAX) || ids.len() == 0 || self.bulk_refusal(&page_numbers(ids)).is_some()
    }

    /// Test whether [`alloc_protected`](Self::alloc_protected) may be called:
    /// whether the file can grow, if there is a place for the page and the file
    /// has to.
    pub fn ready_to_alloc_protected(&self) -> (r: bool)
        requires
            self.wf(),
        ensures
            r == (addressable(PAGE_SIZE) && self@.can_alloc_protected(PAGE_SIZE)),
    {
        if !is_addressable(PAGE_SIZE) {
            return false;
        }
        match self.state.find_place(PAGE_SIZE) {
            Ok(place) => {
                if self.available {
                    return self.can_reserve(place.pages());
                }
                let mut meta = self.state.meta.duplicate();
                let mut pages: Vec<u64> = Vec::new();
                meta.take_into(&mut pages, place.pages());
                assert(pages@ =~= self@.state.meta.take(place.pages() as nat).1);
                self.state.meta.generation < u64::MAX || pages.len() != place.pages()
            },
            Err(_) => true,
        }
    }

    /// Test whether the map is long enough for an allocation to go on.
    pub fn alloc_protected_in_map(
        &self,
        task: &AllocProtectedTask,
        event: &IoEvent,
        len: usize,
    ) -> (r: bool)
        requires
            self.wf(),
            task.belongs_to(self@, PAGE_SIZE),
        ensures
            r == task.in_map(self@, *event, len as int, PAGE_SIZE),
    {
        match (task, event) {
            (AllocProtectedTask::Commit { place, pages }, IoEvent::Done) => {
                let n: usize = pages.len();
                let target = match place {
                    Place::Slot { block, .. } => {
                        let b = self.state.dir_blocks[*block];
                        b.copy(b.active.other())
                    },
                    Place::NewBlock => pages[1],
                };
                is_page_in_map(pages[n - 2], PAGE_SIZE, len) && is_page_in_map(
                    target,
                    PAGE_SIZE,
                    len,
                ) && is_page_in_map(self.state.active_meta.other().page_id(), PAGE_SIZE, len)
            },
            _ => true,
        }
    }

    /// Test whether directory block `idx` can be committed to a map of this length.
    fn dir_plan_in_map(&self, idx: usize, len: usize) -> (r: bool)
        requires
            self.wf(),
            idx < self@.state.blocks.len(),
        ensures
            r == self@.state.dir_plan_in_map(idx as int, len as int, PAGE_SIZE),
    {
        let block = self.state.dir_blocks[idx];
        is_page_in_map(block.copy(block.active.other()), PAGE_SIZE, len) && is_page_in_map(
            self.state.active_meta.page_id(),
            PAGE_SIZE,
            len,
        )
    }

    /// Test whether [`free_protected`](Self::free_protected) may be called with a
    /// map of this length.
    pub fn ready_to_free_protected(&self, id: ProtectedPageId<PAGE_SIZE>, len: usize) -> (r: bool)
        requires
            self.wf(),
        ensures
            r == (self@.free_protected_refusal(id.0, PAGE_SIZE) is None ==> {
                &&& self@.free_protected_in_map(id.0, len as int, PAGE_SIZE)
                &&& self@.state.meta.free_count + 2 <= u64::MAX
                &&& self@.state.meta.generation < u64::MAX
            }),
    {
        if self.protected_free_refusal(id.0).is_some() {
            return true;
        }
        match self.state.locate(id.0, PAGE_SIZE) {
            Some((block, _)) => self.dir_plan_in_map(block, len) && self.state.meta.free_count
                <= u64::MAX - 2 && self.state.meta.generation < u64::MAX,
            None => true,
        }
    }

    /// Test whether a commit of a protected page can go on.
    pub fn can_resume_write(
        &self,
        task: &WriteTask<PAGE_SIZE>,
        event: &IoEvent,
        len: usize,
    ) -> (r: bool)
        requires
            self.wf(),
        ensures
            r == (task.belongs_to(self@) && task.in_map(self@, *event, len as int)),
    {
        match task {
            WriteTask::Data { id, phys, .. } => match self.state.locate(id.0, PAGE_SIZE) {
                Some((block, slot)) => {
                    if self.state.entry_at(block, slot).generation == u64::MAX {
                        return false;
                    }
                    match event {
                        IoEvent::Done => is_page_in_map(*phys, PAGE_SIZE, len)
                            && self.dir_plan_in_map(block, len),
                        IoEvent::Failed { .. } => true,
                    }
                },
                None => false,
            },
            WriteTask::Directory { block } => *block < self.state.dir_blocks.len(),
        }
    }

    /// Test whether page `id` lies inside a map of this length, if it is a page of
    /// the file.
    pub fn page_in_map(&self, id: PageId<PAGE_SIZE>, len: usize) -> (r: bool)
        requires
            self.wf(),
        ensures
            r == (self@.page_refusal(id.0) is None ==> page_in_map(id.0, PAGE_SIZE, len as int)),
    {
        self.page_access(id.0).is_some() || is_page_in_map(id.0, PAGE_SIZE, len)
    }

    /// Test whether the active copy of a protected page lies inside a map of this
    /// length, if the handle names a protected page: whether it can be read.
    pub fn active_copy_in_map(&self, id: ProtectedPageId<PAGE_SIZE>, len: usize) -> (r: bool)
        requires
            self.wf(),
        ensures
            r == (self@.protected_refusal(id.0, PAGE_SIZE) is None ==> page_in_map(
                self@.state.active_copy(id.0, PAGE_SIZE),
                PAGE_SIZE,
                len as int,
            )),
    {
        if !self.available {
            return true;
        }
        match self.state.protected_entry(id.0, PAGE_SIZE) {
            Ok(e) => is_page_in_map(e.copy(e.active_slot), PAGE_SIZE, len),
            Err(_) => true,
        }
    }

    /// Test whether a writer can be had for a protected page: whether one of its two
    /// copies is the active one, if the handle names a protected page.
    pub fn ready_to_write(&self, id: ProtectedPageId<PAGE_SIZE>) -> (r: bool)
        requires
            self.wf(),
        ensures
            r == (self@.protected_refusal(id.0, PAGE_SIZE) is None ==> self@.state.entry(
                id.0,
                PAGE_SIZE,
            )->0.active_slot <= 1),
    {
        if !self.available {
            return true;
        }
        match self.state.protected_entry(id.0, PAGE_SIZE) {
            Ok(e) => e.active_slot <= 1,
            Err(_) => true,
        }
    }
}

impl<const PARENT_SIZE: usize, const SUB_SIZE: usize> SubPageAllocator<PARENT_SIZE, SUB_SIZE> {
    /// Test whether [`allocate`](Self::allocate) may be called: whether one more
    /// big page can be represented, if it is needed.
    pub fn ready_to_allocate(&self) -> (r: bool)
        requires
            self.wf(),
        ensures
            r == (self@.open_from(0, Self::per_page()) is None ==> {
                &&& self@.slots.len() < u32::MAX
                &&& self@.pager.can_alloc(PARENT_SIZE)
            }),
    {
        self.find_open().is_some() || ((self.slots.len() as u64) < u32::MAX as u64
            && self.pager.ready_to_allocate())
    }

    /// Test whether [`free`](Self::free) may be called: whether the pager's
    /// counters can take a big page, if one is given back.
    pub fn ready_to_free(&self, id: SubPageId<PARENT_SIZE, SUB_SIZE>) -> (r: bool)
        requires
            self.wf(),
        ensures
            r == Self::free_fits(self@, id),
    {
        if self.find_refusal(id).is_some() {
            return true;
        }
        proof {
            Self::lemma_sizes();
        }
        match self.slots[id.slot_index as usize] {
            Some(slot) => {
                let used: u64 = slot.used & !(1u64 << (id.sub_index as u64));
                used != 0 || self.pager.ready_to_free(slot.id)
            },
            None => true,
        }
    }

    /// Test whether [`release`](Self::release) may be called: whether the page is not
    /// checked out, and the pager's counters can take it.
    pub fn ready_to_release(&self, id: PageId<PARENT_SIZE>) -> (r: bool)
        requires
            self.wf(),
        ensures
            r == (!self@.has_out(id.0) && self@.pager.can_free(id.0)),
    {
        let mut i: usize = 0;
        while i < self.slots.len()
            invariant
                i <= self.slots@.len(),
                forall|j: int|
                    0 <= j < i ==> !((#[trigger] self@.slots[j]) matches Some(slot) && slot.id.0
                        == id.0),
            decreases self.slots.len() - i,
        {
            if let Some(slot) = self.slots[i] {
                if slot.id.0 == id.0 {
                    assert(self@.slots[i as int] == Some(slot));
                    return false;
                }
            }
            i += 1;
        }
        self.pager.ready_to_free(id)
    }

    /// Test whether the big page behind a handle lies inside a map of this length,
    /// if there is one.
    pub fn sub_page_in_map(&self, id: SubPageId<PARENT_SIZE, SUB_SIZE>, len: usize) -> (r: bool)
        requires
            self.wf(),
        ensures
            r == (id.get_refusal(self@) is None ==> page_in_map(
                id.big(self@),
                PARENT_SIZE,
                len as int,
            )),
    {
        match id.find_big(self) {
            Ok(big) => is_page_in_map(big, PARENT_SIZE, len),
            Err(_) => true,
        }
    }
}

} // verus!
