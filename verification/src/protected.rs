//! Protected pages: crash-consistent copy-on-write pages backed by two physical
//! pages.

use vstd::prelude::*;

use crate::bulk::{BulkAlloc, BulkFree, BulkFreeStep, BulkStep, free_step, start_step};
use crate::bytes::page_of;
use crate::checksum::{crc32, crc32_of};
use crate::directory::{
    DirBlockRef, DirEntry, DirPage, DirView, dir_entries_per_page, max_dir_blocks,
    spec_dir_entries_per_page, spec_max_dir_blocks,
};
use crate::error::MappedPageError;
use crate::growth::lemma_take_frame;
use crate::image::{State, StateView, valid_page_size};
use crate::meta::MetaSelector;
use crate::page::{MappedPage, page_in_map, page_slice, page_slice_mut, with_page};
use crate::pager::{Pager, PagerView, has_duplicates};
use crate::plan::{Step, StepView, steps_of};
use crate::task::{
    IoEvent, Request, RequestView, ReserveTask, ReserveTaskView, ReserveTurn, ReserveTurnView, Turn,
};

verus! {

/// Opaque handle to a protected (crash-consistent) page.
///
/// The `u64` is a 0-based logical slot index into the protected-page directory.
/// It is stable across reopens as long as the page is not freed.
#[derive(Clone, Copy, Debug, PartialEq, Eq, PartialOrd, Ord, Hash)]
pub struct ProtectedPageId<const PAGE_SIZE: usize>(pub u64);

// ── The directory ─────────────────────────────────────────────────────────────

/// The directory's counts fit the 32-bit fields that hold them in the file.  So
/// they do for every page size up to 64 GiB.
pub open spec fn addressable(page_size: usize) -> bool {
    &&& spec_dir_entries_per_page(page_size) <= u32::MAX
    &&& spec_max_dir_blocks(page_size) <= u32::MAX
}

impl StateView {
    /// The directory block of handle `id`.
    pub open spec fn block_of(id: u64, page_size: usize) -> int {
        id as int / spec_dir_entries_per_page(page_size) as int
    }

    /// The slot of handle `id` in its block.
    pub open spec fn slot_of(id: u64, page_size: usize) -> int {
        id as int % spec_dir_entries_per_page(page_size) as int
    }

    /// Block `block` exists and has a slot `slot`.
    pub open spec fn has_slot(self, block: int, slot: int) -> bool {
        &&& 0 <= block < self.dirs.len()
        &&& 0 <= slot < self.dirs[block].entries.len()
    }

    /// The directory entry of handle `id`, in use or not.
    pub open spec fn entry(self, id: u64, page_size: usize) -> Option<DirEntry> {
        let block = Self::block_of(id, page_size);
        let slot = Self::slot_of(id, page_size);
        if self.has_slot(block, slot) {
            Some(self.dirs[block].entries[slot])
        } else {
            None
        }
    }

    /// The directory with one entry replaced.
    pub open spec fn with_entry(self, block: int, slot: int, entry: DirEntry) -> StateView {
        StateView {
            dirs: self.dirs.update(block, self.dirs[block].with_entry(slot, entry)),
            ..self
        }
    }

    /// The first block from `from` on that has a free slot, and its lowest one.
    pub open spec fn open_slot_from(self, from: int) -> Option<(int, int)>
        decreases self.dirs.len() - from,
    {
        if from >= self.dirs.len() {
            None
        } else {
            match self.dirs[from].free_slot() {
                Some(slot) => Some((from, slot)),
                None => self.open_slot_from(from + 1),
            }
        }
    }

    /// Why handle `id` names no protected page, if it names none.
    pub open spec fn protected_refusal(self, id: u64, page_size: usize) -> Option<
        MappedPageError,
    > {
        match self.entry(id, page_size) {
            Some(e) if e.in_use => None,
            _ => Some(MappedPageError::OutOfBounds),
        }
    }
}

/// Where a new protected page is entered.
#[derive(Clone, Copy, Debug)]
pub enum Place {
    /// In a free slot of an existing directory block.
    Slot { block: usize, slot: usize },
    /// In the first slot of a new directory block.
    NewBlock,
}

impl Place {
    /// How many pages a protected page needs here: two copies of it, and two of
    /// the directory page if that is new.
    pub open spec fn spec_pages(self) -> usize {
        match self {
            Place::Slot { .. } => 2,
            Place::NewBlock => 4,
        }
    }

    #[verifier::when_used_as_spec(spec_pages)]
    pub fn pages(self) -> (r: usize)
        ensures
            r == self.spec_pages(),
    {
        match self {
            Place::Slot { .. } => 2,
            Place::NewBlock => 4,
        }
    }

    /// The place exists in this state.
    pub open spec fn exists_in(self, s: StateView, page_size: usize) -> bool {
        match self {
            Place::Slot { block, slot } => s.has_slot(block as int, slot as int),
            Place::NewBlock => s.blocks.len() < spec_max_dir_blocks(page_size),
        }
    }

    /// The directory block of the place.
    pub open spec fn block(self, s: StateView) -> int {
        match self {
            Place::Slot { block, .. } => block as int,
            Place::NewBlock => s.blocks.len() as int,
        }
    }

    /// The handle of the place.
    pub open spec fn id(self, s: StateView, page_size: usize) -> u64 {
        let epp = spec_dir_entries_per_page(page_size);
        match self {
            Place::Slot { block, slot } => (block * epp + slot) as u64,
            Place::NewBlock => (s.blocks.len() * epp) as u64,
        }
    }
}

/// The entry of a new protected page with these copies, of which the first is
/// active and has this checksum.
pub open spec fn new_entry(page_a: u64, page_b: u64, checksum: u32) -> DirEntry {
    DirEntry { in_use: true, page_a, page_b, active_slot: 0, generation: 0, checksum }
}

impl StateView {
    /// Where the next protected page is entered, or why it cannot be.
    pub open spec fn place(self, page_size: usize) -> Result<Place, MappedPageError> {
        match self.open_slot_from(0) {
            Some((block, slot)) => Ok(
                Place::Slot { block: block as usize, slot: slot as usize },
            ),
            None => if self.blocks.len() >= spec_max_dir_blocks(page_size) {
                Err(MappedPageError::DirectoryFull)
            } else {
                Ok(Place::NewBlock)
            },
        }
    }

    /// The state with a new protected page entered at `place`, backed by `pages`.
    /// The file `f` holds what is in its active copy.
    pub open spec fn entered(
        self,
        place: Place,
        pages: Seq<u64>,
        f: Seq<u8>,
        page_size: usize,
    ) -> StateView {
        let data = pages[pages.len() - 2];
        let checksum = crc32_of(page_of(f, data as int, page_size as int));
        self.entered_with(place, pages, checksum, page_size)
    }

    /// The state with a new protected page entered at `place`, backed by `pages`,
    /// whose active copy has this checksum.
    pub open spec fn entered_with(
        self,
        place: Place,
        pages: Seq<u64>,
        checksum: u32,
        page_size: usize,
    ) -> StateView {
        let n = pages.len();
        let entry = new_entry(pages[n - 2], pages[n - 1], checksum);
        match place {
            Place::Slot { block, slot } => self.with_entry(block as int, slot as int, entry),
            Place::NewBlock => StateView {
                blocks: self.blocks.push(
                    DirBlockRef { page_a: pages[0], page_b: pages[1], active: MetaSelector::A },
                ),
                dirs: self.dirs.push(DirView::empty(page_size).with_entry(0, entry)),
                ..self
            },
        }
    }
}

pub proof fn lemma_open_slot(s: StateView, from: int)
    requires
        0 <= from,
    ensures
        match s.open_slot_from(from) {
            Some((block, slot)) => from <= block && s.has_slot(block, slot)
                && !s.dirs[block].entries[slot].in_use,
            None => true,
        },
    decreases s.dirs.len() - from,
{
    if from < s.dirs.len() {
        lemma_free_slot(s.dirs[from], 0);
        if s.dirs[from].free_slot() is None {
            lemma_open_slot(s, from + 1);
        }
    }
}

proof fn lemma_free_slot(d: DirView, from: int)
    requires
        0 <= from,
    ensures
        match d.free_slot_from(from) {
            Some(slot) => from <= slot < d.entries.len() && !d.entries[slot].in_use,
            None => true,
        },
    decreases d.entries.len() - from,
{
    if from < d.entries.len() && d.entries[from].in_use {
        lemma_free_slot(d, from + 1);
    }
}

impl State {
    /// The directory block and slot of handle `id`, if they exist.
    pub fn locate(&self, id: u64, page_size: usize) -> (r: Option<(usize, usize)>)
        requires
            valid_page_size(page_size),
        ensures
            match r {
                Some((block, slot)) => {
                    &&& block == StateView::block_of(id, page_size)
                    &&& slot == StateView::slot_of(id, page_size)
                    &&& self@.has_slot(block as int, slot as int)
                },
                None => self@.entry(id, page_size) is None,
            },
    {
        let epp: usize = dir_entries_per_page(page_size);
        let block: u64 = id / epp as u64;
        let slot: u64 = id % epp as u64;
        if block >= self.dir_pages.len() as u64 {
            return None;
        }
        let block_idx = block as usize;
        let slot_idx = slot as usize;
        assert(self@.dirs[block as int] == self.dir_pages@[block as int]@);
        if slot_idx >= self.dir_pages[block_idx].entries.len() {
            return None;
        }
        Some((block_idx, slot_idx))
    }

    /// The entry in slot `slot` of block `block`.
    pub fn entry_at(&self, block: usize, slot: usize) -> (r: DirEntry)
        requires
            self@.has_slot(block as int, slot as int),
        ensures
            r == self@.dirs[block as int].entries[slot as int],
    {
        assert(self@.dirs[block as int] == self.dir_pages@[block as int]@);
        self.dir_pages[block].entries[slot]
    }

    /// Replace the entry in slot `slot` of block `block`.
    pub fn set_entry(&mut self, block: usize, slot: usize, entry: DirEntry)
        requires
            old(self)@.has_slot(block as int, slot as int),
        ensures
            final(self)@ == old(self)@.with_entry(block as int, slot as int, entry),
    {
        assert(self@.dirs[block as int] == self.dir_pages@[block as int]@);
        self.dir_pages[block].entries[slot] = entry;
        assert(self@.dirs =~= old(self)@.with_entry(block as int, slot as int, entry).dirs);
        assert(self@ =~= old(self)@.with_entry(block as int, slot as int, entry));
    }

    /// The entry of handle `id`, if it names a protected page.
    pub fn protected_entry(&self, id: u64, page_size: usize) -> (r: Result<
        DirEntry,
        MappedPageError,
    >)
        requires
            valid_page_size(page_size),
        ensures
            match r {
                Ok(e) => self@.entry(id, page_size) == Some(e) && e.in_use,
                Err(e) => self@.protected_refusal(id, page_size) == Some(e),
            },
    {
        match self.locate(id, page_size) {
            Some((block, slot)) => {
                let e = self.entry_at(block, slot);
                if e.in_use {
                    Ok(e)
                } else {
                    Err(MappedPageError::OutOfBounds)
                }
            },
            None => Err(MappedPageError::OutOfBounds),
        }
    }

    /// Where the next protected page is entered, or why it cannot be.
    pub fn find_place(&self, page_size: usize) -> (r: Result<Place, MappedPageError>)
        requires
            self@.wf(page_size),
        ensures
            r == self@.place(page_size),
            r matches Ok(place) ==> place.exists_in(self@, page_size),
    {
        let n: usize = self.dir_pages.len();
        let mut block: usize = 0;
        while block < n
            invariant
                n == self.dir_pages.len(),
                block <= n,
                self@.open_slot_from(0) == self@.open_slot_from(block as int),
            decreases n - block,
        {
            assert(self@.dirs[block as int] == self.dir_pages@[block as int]@);
            if let Some(slot) = self.dir_pages[block].find_free_slot() {
                proof {
                    lemma_open_slot(self@, block as int);
                }
                return Ok(Place::Slot { block, slot });
            }
            block += 1;
        }
        if self.dir_blocks.len() >= max_dir_blocks(page_size) {
            return Err(MappedPageError::DirectoryFull);
        }
        Ok(Place::NewBlock)
    }
}

// ── Directory commits ─────────────────────────────────────────────────────────

impl PagerView {
    /// The request that makes directory page `idx` durable.
    pub open spec fn dir_request(self, idx: int, f: Seq<u8>, page_size: usize) -> RequestView {
        RequestView::Apply(self.state.dir_plan(idx, f, page_size))
    }

    /// How a directory commit ends.  From the moment the new copy is flushed, it
    /// is the active one.
    pub open spec fn dir_done(self, idx: int, event: IoEvent) -> (
        PagerView,
        Result<(), MappedPageError>,
    ) {
        match event {
            IoEvent::Done => (self.with_state(self.state.dir_committed(idx)), Ok(())),
            IoEvent::Failed { completed, error } => (
                if completed >= 2 {
                    self.with_state(self.state.dir_committed(idx))
                } else {
                    self
                },
                Err(MappedPageError::Io(error)),
            ),
        }
    }
}

impl<const PAGE_SIZE: usize> Pager<PAGE_SIZE> {
    /// Begin a crash-safe commit of directory block `idx`: its page goes to the
    /// *inactive* copy, and page 0 then points to that copy.
    pub(crate) fn commit_dir_block(&self, idx: usize, map: &[u8]) -> (r: Request)
        requires
            self.wf(),
            idx < self@.state.blocks.len(),
            self@.state.dir_plan_in_map(idx as int, map.len() as int, PAGE_SIZE),
        ensures
            r@ == self@.dir_request(idx as int, map@, PAGE_SIZE),
    {
        Request::Apply(self.state.dir_plan(idx, map, PAGE_SIZE))
    }

    /// End a directory commit.
    pub(crate) fn commit_dir_block_done(&mut self, idx: usize, event: IoEvent) -> (r: Result<
        (),
        MappedPageError,
    >)
        requires
            old(self).wf(),
            idx < old(self)@.state.blocks.len(),
        ensures
            final(self).wf(),
            (final(self)@, r) == old(self)@.dir_done(idx as int, event),
    {
        match event {
            IoEvent::Done => {
                self.flip_dir_block(idx);
                Ok(())
            },
            IoEvent::Failed { completed, error } => {
                if completed >= 2 {
                    self.flip_dir_block(idx);
                }
                Err(MappedPageError::Io(error))
            },
        }
    }

    fn flip_dir_block(&mut self, idx: usize)
        requires
            old(self).wf(),
            idx < old(self)@.state.blocks.len(),
        ensures
            final(self).wf(),
            final(self)@ == old(self)@.with_state(old(self)@.state.dir_committed(idx as int)),
    {
        let block = self.state.dir_blocks[idx];
        self.state.dir_blocks[idx] = block.flipped();
        assert(self@ =~= old(self)@.with_state(old(self)@.state.dir_committed(idx as int)));
    }
}

// ── Allocation ────────────────────────────────────────────────────────────────

/// An allocation of a protected page that is under way.
#[derive(Debug)]
pub enum AllocProtectedTask {
    /// There were not enough free pages; the file is being doubled.
    Grow { place: Place, reserve: ReserveTask },
    /// The pages are reserved, and the metadata are being committed.
    Commit { place: Place, pages: Vec<u64> },
    /// The entry is being committed.
    Directory { block: usize, id: u64 },
}

#[verifier::ext_equal]
pub enum AllocProtectedTaskView {
    Grow { place: Place, reserve: ReserveTaskView },
    Commit { place: Place, pages: Seq<u64> },
    Directory { block: usize, id: u64 },
}

impl View for AllocProtectedTask {
    type V = AllocProtectedTaskView;

    open spec fn view(&self) -> AllocProtectedTaskView {
        match self {
            AllocProtectedTask::Grow { place, reserve } => AllocProtectedTaskView::Grow {
                place: *place,
                reserve: reserve@,
            },
            AllocProtectedTask::Commit { place, pages } => AllocProtectedTaskView::Commit {
                place: *place,
                pages: pages@,
            },
            AllocProtectedTask::Directory { block, id } => AllocProtectedTaskView::Directory {
                block: *block,
                id: *id,
            },
        }
    }
}

impl AllocProtectedTask {
    /// The allocation belongs to a pager in this state.
    pub open spec fn belongs_to(self, v: PagerView, page_size: usize) -> bool {
        match self {
            AllocProtectedTask::Grow { place, reserve } => {
                &&& place.exists_in(v.state, page_size)
                &&& reserve.belongs_to(v, page_size)
                &&& reserve.want == place.pages()
                &&& v.state.meta.generation < u64::MAX
                &&& addressable(page_size)
            },
            AllocProtectedTask::Commit { place, pages } => {
                &&& place.exists_in(v.state, page_size)
                &&& pages@.len() == place.pages()
                &&& addressable(page_size)
            },
            AllocProtectedTask::Directory { block, .. } => block < v.state.blocks.len(),
        }
    }

    /// The pages that the next step reads or writes lie inside a map of `len`
    /// bytes, if the request was carried out.
    pub open spec fn in_map(self, v: PagerView, event: IoEvent, len: int, page_size: usize) -> bool {
        match self {
            AllocProtectedTask::Commit { place, pages } => event is Done ==> {
                let block = place.block(v.state);
                let n = pages@.len();
                let target = match place {
                    Place::Slot { .. } => v.state.blocks[block].copy(
                        v.state.blocks[block].active.other(),
                    ),
                    Place::NewBlock => pages@[1],
                };
                &&& page_in_map(pages@[n - 2], page_size, len)
                &&& page_in_map(target, page_size, len)
                &&& page_in_map(v.state.active.other().page_id(), page_size, len)
            },
            _ => true,
        }
    }
}

impl PagerView {
    /// How the allocation of a protected page goes on once `reserved` says how the
    /// reservation of its pages does.
    pub open spec fn alloc_protected_next<const PAGE_SIZE: usize>(
        self,
        place: Place,
        reserved: ReserveTurnView,
        after: PagerView,
        turn: Turn<ProtectedPageId<PAGE_SIZE>, AllocProtectedTask>,
    ) -> bool {
        match reserved {
            ReserveTurnView::Reserved(ids) => {
                &&& after == self.bumped()
                &&& turn matches Turn::Ask(request, task)
                &&& request@ == after.commit_request(PAGE_SIZE)
                &&& task@ == (AllocProtectedTaskView::Commit { place, pages: ids })
            },
            ReserveTurnView::Failed(_, e) => {
                &&& after == self
                &&& turn == Turn::<ProtectedPageId<PAGE_SIZE>, AllocProtectedTask>::Done(Err(e))
            },
            ReserveTurnView::Ask(request, reserve) => {
                &&& after == self
                &&& turn matches Turn::Ask(asked, task)
                &&& asked == request
                &&& task@ == (AllocProtectedTaskView::Grow { place, reserve })
            },
        }
    }

    /// A pager without a map that was asked for a protected page: as many pages are
    /// reserved as are wanted and free, but they cannot be committed.  If they are
    /// all there, that makes a new generation.
    pub open spec fn reserved_unmapped(self, page_size: usize) -> PagerView {
        match self.state.place(page_size) {
            Err(_) => self,
            Ok(place) => {
                let (m, ids) = self.state.meta.take(place.pages() as nat);
                if ids.len() == place.pages() {
                    self.with_meta(m).bumped()
                } else {
                    self.with_meta(m)
                }
            },
        }
    }

    /// If there is a place for a protected page, the file can grow, if it has to,
    /// and there is a next generation, if one is made.
    pub open spec fn can_alloc_protected(self, page_size: usize) -> bool {
        self.state.place(page_size) matches Ok(place) ==> if self.available {
            &&& self.state.meta.can_take(place.pages() as nat, page_size)
            &&& self.state.meta.generation < u64::MAX
        } else {
            self.state.meta.take(place.pages() as nat).1.len() == place.pages()
                ==> self.state.meta.generation < u64::MAX
        }
    }

    /// How the allocation of a protected page begins: it is refused, or its pages
    /// are reserved.
    pub open spec fn alloc_protected_begun<const PAGE_SIZE: usize>(
        self,
        after: PagerView,
        turn: Turn<ProtectedPageId<PAGE_SIZE>, AllocProtectedTask>,
    ) -> bool {
        if !self.available {
            &&& after == self.reserved_unmapped(PAGE_SIZE)
            &&& turn == Turn::<ProtectedPageId<PAGE_SIZE>, AllocProtectedTask>::Done(
                Err(MappedPageError::Unavailable),
            )
        } else {
            match self.state.place(PAGE_SIZE) {
                Err(e) => {
                    &&& after == self
                    &&& turn == Turn::<ProtectedPageId<PAGE_SIZE>, AllocProtectedTask>::Done(
                        Err(e),
                    )
                },
                Ok(place) => {
                    let (v, reserved) = self.reserve_next(
                        Seq::empty(),
                        place.pages(),
                        PAGE_SIZE,
                    );
                    v.alloc_protected_next(place, reserved, after, turn)
                },
            }
        }
    }

    /// How the allocation of a protected page goes on after `event`.
    pub open spec fn alloc_protected_resumed<const PAGE_SIZE: usize>(
        self,
        task: AllocProtectedTaskView,
        event: IoEvent,
        f: Seq<u8>,
        after: PagerView,
        turn: Turn<ProtectedPageId<PAGE_SIZE>, AllocProtectedTask>,
    ) -> bool {
        match task {
            AllocProtectedTaskView::Grow { place, reserve } => {
                let (v, reserved) = self.reserve_resumed(reserve, event, PAGE_SIZE);
                v.alloc_protected_next(place, reserved, after, turn)
            },
            AllocProtectedTaskView::Commit { place, pages } => match event {
                IoEvent::Done => self.committed().enter_next(place, pages, f, after, turn),
                IoEvent::Failed { error, .. } => {
                    &&& after == self
                    &&& turn == Turn::<ProtectedPageId<PAGE_SIZE>, AllocProtectedTask>::Done(
                        Err(MappedPageError::Io(error)),
                    )
                },
            },
            AllocProtectedTaskView::Directory { block, id } => {
                let (v, result) = self.dir_done(block as int, event);
                &&& after == v
                &&& turn == Turn::<ProtectedPageId<PAGE_SIZE>, AllocProtectedTask>::Done(
                    match result {
                        Ok(_) => Ok(ProtectedPageId(id)),
                        Err(e) => Err(e),
                    },
                )
            },
        }
    }

    /// How the allocation of a protected page goes on once its pages are
    /// committed: its entry is made and committed.
    pub open spec fn enter_next<const PAGE_SIZE: usize>(
        self,
        place: Place,
        pages: Seq<u64>,
        f: Seq<u8>,
        after: PagerView,
        turn: Turn<ProtectedPageId<PAGE_SIZE>, AllocProtectedTask>,
    ) -> bool {
        let block = place.block(self.state);
        &&& after == self.with_state(self.state.entered(place, pages, f, PAGE_SIZE))
        &&& turn matches Turn::Ask(request, task)
        &&& request@ == after.dir_request(block, f, PAGE_SIZE)
        &&& task@ == (AllocProtectedTaskView::Directory {
            block: block as usize,
            id: place.id(self.state, PAGE_SIZE),
        })
    }
}

impl<const PAGE_SIZE: usize> Pager<PAGE_SIZE> {
    /// Allocate a protected (crash-consistent copy-on-write) page.
    ///
    /// On the first call, two physical pages are reserved as the A/B directory
    /// block; their locations are recorded in page 0.  If all existing directory
    /// blocks are full, another pair is allocated.  Two additional physical pages
    /// are always allocated as the backing copies for the new protected page.
    pub fn alloc_protected(&mut self) -> (r: Turn<ProtectedPageId<PAGE_SIZE>, AllocProtectedTask>)
        requires
            old(self).wf(),
            addressable(PAGE_SIZE),
            old(self)@.can_alloc_protected(PAGE_SIZE),
        ensures
            final(self).wf(),
            old(self)@.alloc_protected_begun(final(self)@, r),
            r matches Turn::Ask(_, task) ==> task.belongs_to(final(self)@, PAGE_SIZE),
    {
        let place = match self.state.find_place(PAGE_SIZE) {
            Ok(place) => place,
            Err(e) => {
                return Turn::Done(
                    Err(
                        if self.available {
                            e
                        } else {
                            MappedPageError::Unavailable
                        },
                    ),
                );
            },
        };
        let none: Vec<u64> = Vec::new();
        assert(none@ =~= Seq::empty());
        proof {
            lemma_take_frame(self@.state.meta, place.pages() as nat);
        }
        if !self.available {
            let mut pages = none;
            self.state.meta.take_into(&mut pages, place.pages());
            assert(pages@ =~= old(self)@.state.meta.take(place.pages() as nat).1);
            assert(self@ =~= old(self)@.with_meta(self@.state.meta));
            if pages.len() == place.pages() {
                self.bump();
            }
            return Turn::Done(Err(MappedPageError::Unavailable));
        }
        let reserved = self.reserve(none, place.pages());
        self.alloc_protected_reserved(place, reserved)
    }

    fn alloc_protected_reserved(&mut self, place: Place, reserved: ReserveTurn) -> (r: Turn<
        ProtectedPageId<PAGE_SIZE>,
        AllocProtectedTask,
    >)
        requires
            old(self).wf(),
            addressable(PAGE_SIZE),
            place.exists_in(old(self)@.state, PAGE_SIZE),
            old(self)@.state.meta.generation < u64::MAX,
            reserved matches ReserveTurn::Ask(_, task) ==> task.belongs_to(
                old(self)@,
                PAGE_SIZE,
            ) && task.want == place.pages(),
            reserved matches ReserveTurn::Reserved(ids) ==> ids@.len() == place.pages(),
        ensures
            final(self).wf(),
            old(self)@.alloc_protected_next(place, reserved@, final(self)@, r),
            r matches Turn::Ask(_, task) ==> task.belongs_to(final(self)@, PAGE_SIZE),
    {
        match reserved {
            ReserveTurn::Reserved(pages) => {
                let request = self.commit();
                Turn::Ask(request, AllocProtectedTask::Commit { place, pages })
            },
            ReserveTurn::Failed(_, e) => Turn::Done(Err(e)),
            ReserveTurn::Ask(request, reserve) => Turn::Ask(
                request,
                AllocProtectedTask::Grow { place, reserve },
            ),
        }
    }

    /// Go on with an allocation of a protected page.
    pub fn resume_alloc_protected(
        &mut self,
        task: AllocProtectedTask,
        event: IoEvent,
        map: &[u8],
    ) -> (r: Turn<ProtectedPageId<PAGE_SIZE>, AllocProtectedTask>)
        requires
            old(self).wf(),
            task.belongs_to(old(self)@, PAGE_SIZE),
            task.in_map(old(self)@, event, map.len() as int, PAGE_SIZE),
        ensures
            final(self).wf(),
            old(self)@.alloc_protected_resumed(task@, event, map@, final(self)@, r),
            r matches Turn::Ask(_, next) ==> next.belongs_to(final(self)@, PAGE_SIZE),
    {
        match task {
            AllocProtectedTask::Grow { place, reserve } => {
                proof {
                    let m = self@.state.meta;
                    lemma_take_frame(m.doubled(), (reserve.want - reserve.got@.len()) as nat);
                }
                let reserved = self.reserve_resume(reserve, event);
                self.alloc_protected_reserved(place, reserved)
            },
            AllocProtectedTask::Commit { place, pages } => match self.commit_done(event) {
                Ok(()) => {
                    let checksum = crc32(page_slice(map, pages[pages.len() - 2], PAGE_SIZE));
                    let (block, id) = self.state.enter(place, &pages, checksum, PAGE_SIZE);
                    let request = self.commit_dir_block(block, map);
                    Turn::Ask(request, AllocProtectedTask::Directory { block, id })
                },
                Err(e) => Turn::Done(Err(e)),
            },
            AllocProtectedTask::Directory { block, id } => match self.commit_dir_block_done(
                block,
                event,
            ) {
                Ok(()) => Turn::Done(Ok(ProtectedPageId(id))),
                Err(e) => Turn::Done(Err(e)),
            },
        }
    }
}

impl State {
    /// Enter a new protected page into the directory, whose active copy has this
    /// checksum.  The result is its directory block and its handle.
    pub fn enter(
        &mut self,
        place: Place,
        pages: &Vec<u64>,
        checksum: u32,
        page_size: usize,
    ) -> (r: (usize, u64))
        requires
            valid_page_size(page_size),
            addressable(page_size),
            old(self)@.wf(page_size),
            place.exists_in(old(self)@, page_size),
            pages@.len() == place.pages(),
        ensures
            final(self)@.wf(page_size),
            final(self)@ == old(self)@.entered_with(place, pages@, checksum, page_size),
            r.0 == place.block(old(self)@),
            r.1 == place.id(old(self)@, page_size),
            r.0 < final(self)@.blocks.len(),
    {
        let epp: usize = dir_entries_per_page(page_size);
        let n: usize = pages.len();
        let entry = DirEntry {
            in_use: true,
            page_a: pages[n - 2],
            page_b: pages[n - 1],
            active_slot: 0,
            generation: 0,
            checksum,
        };
        match place {
            Place::Slot { block, slot } => {
                self.set_entry(block, slot, entry);
                proof {
                    lemma_id_fits(block as int, slot as int, epp as int);
                }
                (block, block as u64 * epp as u64 + slot as u64)
            },
            Place::NewBlock => {
                let block: usize = self.dir_blocks.len();
                let mut dir_page = DirPage::new_empty(page_size);
                dir_page.entries[0] = entry;
                self.dir_blocks.push(
                    DirBlockRef { page_a: pages[0], page_b: pages[1], active: MetaSelector::A },
                );
                let ghost view = dir_page@;
                self.dir_pages.push(dir_page);
                proof {
                    lemma_id_fits(block as int, 0, epp as int);
                    assert(view =~= DirView::empty(page_size).with_entry(0, entry));
                    assert(self@.dirs =~= old(self)@.dirs.push(view));
                    assert(self@ =~= old(self)@.entered_with(place, pages@, checksum, page_size));
                }
                (block, block as u64 * epp as u64)
            },
        }
    }

    /// Record that slot `slot` of handle `id` is the active copy, with this
    /// checksum.  The result is the directory block of the handle.
    pub fn record_write(&mut self, id: u64, slot: u8, checksum: u32, page_size: usize) -> (r: usize)
        requires
            valid_page_size(page_size),
            old(self)@.wf(page_size),
            old(self)@.entry(id, page_size) matches Some(e) && e.generation < u64::MAX,
        ensures
            final(self)@.wf(page_size),
            final(self)@ == old(self)@.written_with(id, slot, checksum, page_size),
            r == StateView::block_of(id, page_size),
            r < final(self)@.blocks.len(),
    {
        match self.locate(id, page_size) {
            Some((block, entry_slot)) => {
                let entry = self.entry_at(block, entry_slot);
                let written = DirEntry {
                    in_use: entry.in_use,
                    page_a: entry.page_a,
                    page_b: entry.page_b,
                    active_slot: slot,
                    generation: entry.generation + 1,
                    checksum,
                };
                self.set_entry(block, entry_slot, written);
                block
            },
            None => 0,
        }
    }
}

/// The handles of an addressable directory are 64-bit numbers.
proof fn lemma_id_fits(block: int, slot: int, epp: int)
    requires
        0 <= block <= u32::MAX,
        0 <= slot <= u32::MAX,
        0 <= epp <= u32::MAX,
    ensures
        0 <= block * epp,
        block * epp + slot <= u64::MAX,
{
    assert(0 <= block * epp <= 0xffff_ffff * 0xffff_ffff) by (nonlinear_arith)
        requires
            0 <= block <= 0xffff_ffff,
            0 <= epp <= 0xffff_ffff,
    ;
}

// ── Release ───────────────────────────────────────────────────────────────────

/// The release of a protected page that is under way.
#[derive(Debug)]
pub enum FreeProtectedTask {
    /// The entry is being committed as free; then the copies are released.
    Directory { block: usize, page_a: u64, page_b: u64 },
    /// The metadata are being committed.
    Commit,
}

impl FreeProtectedTask {
    /// The release belongs to a pager in this state.
    pub open spec fn belongs_to(self, v: PagerView) -> bool {
        match self {
            FreeProtectedTask::Directory { block, .. } => {
                &&& block < v.state.blocks.len()
                &&& v.state.meta.free_count + 2 <= u64::MAX
                &&& v.state.meta.generation < u64::MAX
            },
            FreeProtectedTask::Commit => true,
        }
    }
}

impl StateView {
    /// Why handle `id` names no protected page that could be freed, if it names
    /// none.
    pub open spec fn free_protected_refusal(self, id: u64, page_size: usize) -> Option<
        MappedPageError,
    > {
        match self.entry(id, page_size) {
            None => Some(MappedPageError::OutOfBounds),
            Some(e) => if e.in_use {
                None
            } else {
                Some(MappedPageError::DoubleFree)
            },
        }
    }
}

impl State {
    /// Why handle `id` names no protected page that could be freed, if it names
    /// none.
    pub(crate) fn release_protected_refusal(&self, id: u64, page_size: usize) -> (r: Option<
        MappedPageError,
    >)
        requires
            valid_page_size(page_size),
        ensures
            r == self@.free_protected_refusal(id, page_size),
    {
        match self.locate(id, page_size) {
            Some((block, slot)) => if self.entry_at(block, slot).in_use {
                None
            } else {
                Some(MappedPageError::DoubleFree)
            },
            None => Some(MappedPageError::OutOfBounds),
        }
    }
}

impl PagerView {
    /// Why handle `id` cannot be freed, if it cannot.
    pub open spec fn free_protected_refusal(self, id: u64, page_size: usize) -> Option<
        MappedPageError,
    > {
        if !self.available {
            Some(MappedPageError::Unavailable)
        } else {
            self.state.free_protected_refusal(id, page_size)
        }
    }

    /// The pager with the entry of handle `id` free.
    pub open spec fn entry_freed(self, id: u64, page_size: usize) -> PagerView {
        let e = self.state.entry(id, page_size)->0;
        self.with_state(
            self.state.with_entry(
                StateView::block_of(id, page_size),
                StateView::slot_of(id, page_size),
                DirEntry { in_use: false, ..e },
            ),
        )
    }

    /// The pager with both copies of a protected page released.
    pub open spec fn copies_freed(self, page_a: u64, page_b: u64) -> PagerView {
        self.with_meta(self.state.meta.freed(page_a).freed(page_b))
    }

    /// The pages that the release of handle `id` writes lie inside a map of `len`
    /// bytes.
    pub open spec fn free_protected_in_map(self, id: u64, len: int, page_size: usize) -> bool {
        self.state.dir_plan_in_map(StateView::block_of(id, page_size), len, page_size)
    }

    /// How the release of handle `id` begins: it is refused, or its entry is
    /// committed as free.  Without a map the entry is marked as free all the same,
    /// but that cannot be committed.
    pub open spec fn free_protected_begun(
        self,
        id: u64,
        f: Seq<u8>,
        page_size: usize,
        after: PagerView,
        turn: Turn<(), FreeProtectedTask>,
    ) -> bool {
        match self.free_protected_refusal(id, page_size) {
            Some(e) => {
                &&& after == match self.state.free_protected_refusal(id, page_size) {
                    Some(_) => self,
                    None => self.entry_freed(id, page_size),
                }
                &&& turn == Turn::<(), FreeProtectedTask>::Done(Err(e))
            },
            None => self.free_protected_next(id, f, page_size, after, turn),
        }
    }

    /// How the release of handle `id` goes on that is not refused: its entry is
    /// committed as free.
    pub open spec fn free_protected_next(
        self,
        id: u64,
        f: Seq<u8>,
        page_size: usize,
        after: PagerView,
        turn: Turn<(), FreeProtectedTask>,
    ) -> bool {
        let e = self.state.entry(id, page_size)->0;
        let block = StateView::block_of(id, page_size);
        &&& after == self.entry_freed(id, page_size)
        &&& turn matches Turn::Ask(request, task)
        &&& request@ == after.dir_request(block, f, page_size)
        &&& task == (FreeProtectedTask::Directory {
            block: block as usize,
            page_a: e.page_a,
            page_b: e.page_b,
        })
    }
}

impl PagerView {
    /// How the release of a protected page goes on after `event`.
    pub open spec fn free_protected_resumed(
        self,
        task: FreeProtectedTask,
        event: IoEvent,
        page_size: usize,
        after: PagerView,
        turn: Turn<(), FreeProtectedTask>,
    ) -> bool {
        match task {
            FreeProtectedTask::Directory { block, page_a, page_b } => {
                let (v, result) = self.dir_done(block as int, event);
                match result {
                    Ok(_) => {
                        &&& after == v.copies_freed(page_a, page_b).bumped()
                        &&& turn matches Turn::Ask(request, FreeProtectedTask::Commit)
                        &&& request@ == after.commit_request(page_size)
                    },
                    Err(e) => {
                        &&& after == v
                        &&& turn == Turn::<(), FreeProtectedTask>::Done(Err(e))
                    },
                }
            },
            FreeProtectedTask::Commit => match event {
                IoEvent::Done => {
                    &&& after == self.committed()
                    &&& turn == Turn::<(), FreeProtectedTask>::Done(Ok(()))
                },
                IoEvent::Failed { error, .. } => {
                    &&& after == self
                    &&& turn == Turn::<(), FreeProtectedTask>::Done(
                        Err(MappedPageError::Io(error)),
                    )
                },
            },
        }
    }
}

impl<const PAGE_SIZE: usize> Pager<PAGE_SIZE> {
    /// Free a protected page, releasing both its backing physical pages.
    ///
    /// Returns `DoubleFree` if the slot is already free, `OutOfBounds` if the
    /// id is out of range.
    pub fn free_protected(&mut self, id: ProtectedPageId<PAGE_SIZE>, map: &[u8]) -> (r: Turn<
        (),
        FreeProtectedTask,
    >)
        requires
            old(self).wf(),
            old(self)@.free_protected_refusal(id.0, PAGE_SIZE) is None ==> {
                &&& old(self)@.free_protected_in_map(id.0, map.len() as int, PAGE_SIZE)
                &&& old(self)@.state.meta.free_count + 2 <= u64::MAX
                &&& old(self)@.state.meta.generation < u64::MAX
            },
        ensures
            final(self).wf(),
            old(self)@.free_protected_begun(id.0, map@, PAGE_SIZE, final(self)@, r),
            r matches Turn::Ask(_, task) ==> task.belongs_to(final(self)@),
    {
        if let Some(e) = self.state.release_protected_refusal(id.0, PAGE_SIZE) {
            return Turn::Done(
                Err(
                    if self.available {
                        e
                    } else {
                        MappedPageError::Unavailable
                    },
                ),
            );
        }
        let (block, slot) = match self.state.locate(id.0, PAGE_SIZE) {
            Some(found) => found,
            None => {
                return Turn::Done(Err(MappedPageError::OutOfBounds));
            },
        };
        let entry = self.state.entry_at(block, slot);
        // Mark the slot as free in the directory first (crash-safe order).
        let freed = DirEntry {
            in_use: false,
            page_a: entry.page_a,
            page_b: entry.page_b,
            active_slot: entry.active_slot,
            generation: entry.generation,
            checksum: entry.checksum,
        };
        self.state.set_entry(block, slot, freed);
        assert(self@ =~= old(self)@.entry_freed(id.0, PAGE_SIZE));
        if !self.available {
            return Turn::Done(Err(MappedPageError::Unavailable));
        }
        let request = self.commit_dir_block(block, map);
        Turn::Ask(
            request,
            FreeProtectedTask::Directory { block, page_a: entry.page_a, page_b: entry.page_b },
        )
    }

    /// Go on with the release of a protected page.
    pub fn resume_free_protected(&mut self, task: FreeProtectedTask, event: IoEvent) -> (r: Turn<
        (),
        FreeProtectedTask,
    >)
        requires
            old(self).wf(),
            task.belongs_to(old(self)@),
        ensures
            final(self).wf(),
            old(self)@.free_protected_resumed(task, event, PAGE_SIZE, final(self)@, r),
            r matches Turn::Ask(_, next) ==> next.belongs_to(final(self)@),
    {
        match task {
            FreeProtectedTask::Directory { block, page_a, page_b } => {
                match self.commit_dir_block_done(block, event) {
                    Ok(()) => {
                        // Then release the backing pages in the metadata.
                        let ghost v = self@;
                        let _ = self.state.meta.free_page(page_a);
                        let _ = self.state.meta.free_page(page_b);
                        assert(self@ =~= v.copies_freed(page_a, page_b));
                        let request = self.commit();
                        Turn::Ask(request, FreeProtectedTask::Commit)
                    },
                    Err(e) => Turn::Done(Err(e)),
                }
            },
            FreeProtectedTask::Commit => Turn::Done(self.commit_done(event)),
        }
    }
}

// ── Reading and writing ───────────────────────────────────────────────────────

impl PagerView {
    /// Why handle `id` cannot be borrowed, if it cannot.
    pub open spec fn protected_refusal(self, id: u64, page_size: usize) -> Option<
        MappedPageError,
    > {
        if !self.available {
            Some(MappedPageError::Unavailable)
        } else {
            self.state.protected_refusal(id, page_size)
        }
    }
}

impl StateView {
    /// The page of the active copy of handle `id`.
    pub open spec fn active_copy(self, id: u64, page_size: usize) -> u64 {
        let e = self.entry(id, page_size)->0;
        e.copy(e.active_slot)
    }

    /// The slot of the copy of handle `id` that is not active.
    pub open spec fn inactive_slot(self, id: u64, page_size: usize) -> u8 {
        (1 - self.entry(id, page_size)->0.active_slot) as u8
    }

    /// The page of the copy of handle `id` that is not active.
    pub open spec fn inactive_copy(self, id: u64, page_size: usize) -> u64 {
        self.entry(id, page_size)->0.copy(self.inactive_slot(id, page_size))
    }

    /// The state with slot `slot` of handle `id` active, which holds `page`.
    pub open spec fn written(self, id: u64, slot: u8, page: Seq<u8>, page_size: usize) -> StateView {
        self.written_with(id, slot, crc32_of(page), page_size)
    }

    /// The state with slot `slot` of handle `id` active, whose page has this
    /// checksum.
    pub open spec fn written_with(
        self,
        id: u64,
        slot: u8,
        checksum: u32,
        page_size: usize,
    ) -> StateView {
        let e = self.entry(id, page_size)->0;
        self.with_entry(
            Self::block_of(id, page_size),
            Self::slot_of(id, page_size),
            DirEntry {
                active_slot: slot,
                generation: (e.generation + 1) as u64,
                checksum,
                ..e
            },
        )
    }
}

/// An in-progress write to a protected page.
///
/// Obtain one via [`ProtectedPageId::get_mut`].  Call [`commit`](Self::commit)
/// to make the write durable and crash-consistent.  Dropping without committing
/// discards the write (the inactive physical page may contain partial data, but
/// the active page — visible to readers — is unchanged until commit).
pub struct ProtectedPageWriter<'a, const PAGE_SIZE: usize> {
    pub pager: &'a mut Pager<PAGE_SIZE>,
    pub map: &'a mut [u8],
    pub id: ProtectedPageId<PAGE_SIZE>,
    /// Physical page number of the slot we are writing into (the inactive copy).
    pub inactive_phys_page: u64,
    /// Slot index (0 or 1) of the inactive copy, which becomes active after commit.
    pub inactive_slot: u8,
}

/// The commit of a protected page that is under way.
#[derive(Debug)]
pub enum WriteTask<const PAGE_SIZE: usize> {
    /// The written copy is being flushed.
    Data { id: ProtectedPageId<PAGE_SIZE>, phys: u64, slot: u8 },
    /// The entry is being committed.
    Directory { block: usize },
}

impl<const PAGE_SIZE: usize> WriteTask<PAGE_SIZE> {
    /// The commit belongs to a pager in this state.
    pub open spec fn belongs_to(self, v: PagerView) -> bool {
        match self {
            WriteTask::Data { id, .. } => v.state.entry(id.0, PAGE_SIZE) matches Some(e)
                && e.generation < u64::MAX,
            WriteTask::Directory { block } => block < v.state.blocks.len(),
        }
    }

    /// The pages that the next step reads or writes lie inside a map of `len`
    /// bytes, if the request was carried out.
    pub open spec fn in_map(self, v: PagerView, event: IoEvent, len: int) -> bool {
        match self {
            WriteTask::Data { id, phys, .. } => event is Done ==> {
                &&& page_in_map(phys, PAGE_SIZE, len)
                &&& v.state.dir_plan_in_map(StateView::block_of(id.0, PAGE_SIZE), len, PAGE_SIZE)
            },
            WriteTask::Directory { .. } => true,
        }
    }
}

impl PagerView {
    /// How the commit of a protected page goes on after `event`: once the written
    /// copy is flushed, its entry is changed and committed.
    pub open spec fn write_resumed<const PAGE_SIZE: usize>(
        self,
        task: WriteTask<PAGE_SIZE>,
        event: IoEvent,
        f: Seq<u8>,
        after: PagerView,
        turn: Turn<(), WriteTask<PAGE_SIZE>>,
    ) -> bool {
        match task {
            WriteTask::Data { id, phys, slot } => match event {
                IoEvent::Done => {
                    let block = StateView::block_of(id.0, PAGE_SIZE);
                    let page = page_of(f, phys as int, PAGE_SIZE as int);
                    &&& after == self.with_state(self.state.written(id.0, slot, page, PAGE_SIZE))
                    &&& turn matches Turn::Ask(request, next)
                    &&& request@ == after.dir_request(block, f, PAGE_SIZE)
                    &&& next == (WriteTask::<PAGE_SIZE>::Directory { block: block as usize })
                },
                IoEvent::Failed { error, .. } => {
                    &&& after == self
                    &&& turn == Turn::<(), WriteTask<PAGE_SIZE>>::Done(
                        Err(MappedPageError::Io(error)),
                    )
                },
            },
            WriteTask::Directory { block } => {
                let (v, result) = self.dir_done(block as int, event);
                &&& after == v
                &&& turn == Turn::<(), WriteTask<PAGE_SIZE>>::Done(result)
            },
        }
    }
}

/// The request that flushes page `phys`.
pub open spec fn flush_request(phys: u64, page_size: usize) -> RequestView {
    RequestView::Apply(
        seq![StepView::Flush { offset: phys * page_size, len: page_size as int }],
    )
}

impl<'a, const PAGE_SIZE: usize> ProtectedPageWriter<'a, PAGE_SIZE> {
    /// Mutable view of the page being written.
    ///
    /// Changes are not visible to readers until [`commit`](Self::commit) is called.
    pub fn page_mut(&mut self) -> (r: MappedPage<&mut [u8]>)
        requires
            0 < PAGE_SIZE,
            page_in_map(old(self).inactive_phys_page, PAGE_SIZE, old(self).map.len() as int),
        ensures
            r@ == page_of(old(self).map@, old(self).inactive_phys_page as int, PAGE_SIZE as int),
            final(self).map@ == with_page(
                old(self).map@,
                old(self).inactive_phys_page as int,
                PAGE_SIZE as int,
                final(r.bytes)@,
            ),
            final(self).pager == old(self).pager,
            final(self).id == old(self).id,
            final(self).inactive_phys_page == old(self).inactive_phys_page,
            final(self).inactive_slot == old(self).inactive_slot,
            final(final(self).map)@ == final(old(self).map)@,
    {
        MappedPage::from_slice_mut(page_slice_mut(self.map, self.inactive_phys_page, PAGE_SIZE))
    }

    /// Flush the written page and atomically flip the active-copy pointer.
    ///
    /// Once the task is [`Turn::Done`] with `Ok(())`, the written data is the new
    /// active copy and will survive a crash.
    pub fn commit(self) -> (r: Turn<(), WriteTask<PAGE_SIZE>>)
        requires
            0 < PAGE_SIZE,
            page_in_map(self.inactive_phys_page, PAGE_SIZE, self.map.len() as int),
        ensures
            r matches Turn::Ask(request, task) && request@ == flush_request(
                self.inactive_phys_page,
                PAGE_SIZE,
            ) && task == (WriteTask::Data {
                id: self.id,
                phys: self.inactive_phys_page,
                slot: self.inactive_slot,
            }),
            *final(self.pager) == *old(self.pager),
            final(self.map)@ == old(self.map)@,
    {
        proof {
            crate::page::lemma_page_in_map(
                self.inactive_phys_page,
                PAGE_SIZE,
                self.map.len() as int,
            );
        }
        let offset: usize = self.inactive_phys_page as usize * PAGE_SIZE;
        let mut steps: Vec<Step> = Vec::new();
        steps.push(Step::Flush { offset, len: PAGE_SIZE });
        let request = Request::Apply(steps);
        assert(steps_of(steps@) =~= seq![
            StepView::Flush {
                offset: self.inactive_phys_page * PAGE_SIZE,
                len: PAGE_SIZE as int,
            },
        ]);
        Turn::Ask(
            request,
            WriteTask::Data {
                id: self.id,
                phys: self.inactive_phys_page,
                slot: self.inactive_slot,
            },
        )
    }
}

impl<const PAGE_SIZE: usize> ProtectedPageId<PAGE_SIZE> {
    /// Read the currently active copy of this protected page.
    pub fn get<'a>(&self, pager: &Pager<PAGE_SIZE>, map: &'a [u8]) -> (r: Result<
        MappedPage<&'a [u8]>,
        MappedPageError,
    >)
        requires
            pager.wf(),
            pager@.protected_refusal(self.0, PAGE_SIZE) is None ==> page_in_map(
                pager@.state.active_copy(self.0, PAGE_SIZE),
                PAGE_SIZE,
                map.len() as int,
            ),
        ensures
            match r {
                Ok(page) => {
                    &&& pager@.protected_refusal(self.0, PAGE_SIZE) is None
                    &&& page@ == page_of(
                        map@,
                        pager@.state.active_copy(self.0, PAGE_SIZE) as int,
                        PAGE_SIZE as int,
                    )
                },
                Err(e) => pager@.protected_refusal(self.0, PAGE_SIZE) == Some(e),
            },
    {
        pager.get_protected_page(*self, map)
    }

    /// Obtain a writer for this protected page.
    ///
    /// The returned [`ProtectedPageWriter`] holds an exclusive borrow on the
    /// pager.  Writes are not visible to readers until
    /// [`ProtectedPageWriter::commit`] is carried out.
    pub fn get_mut<'a>(&self, pager: &'a mut Pager<PAGE_SIZE>, map: &'a mut [u8]) -> (r: Result<
        ProtectedPageWriter<'a, PAGE_SIZE>,
        MappedPageError,
    >)
        requires
            old(pager).wf(),
            old(pager)@.protected_refusal(self.0, PAGE_SIZE) is None ==> old(pager)@.state.entry(
                self.0,
                PAGE_SIZE,
            )->0.active_slot <= 1,
        ensures
            match r {
                Ok(w) => {
                    &&& old(pager)@.protected_refusal(self.0, PAGE_SIZE) is None
                    &&& *w.pager == *old(pager)
                    &&& *final(pager) == *final(w.pager)
                    &&& w.map@ == old(map)@
                    &&& final(map)@ == final(w.map)@
                    &&& w.id == *self
                    &&& w.inactive_slot == old(pager)@.state.inactive_slot(self.0, PAGE_SIZE)
                    &&& w.inactive_phys_page == old(pager)@.state.inactive_copy(
                        self.0,
                        PAGE_SIZE,
                    )
                },
                Err(e) => {
                    &&& old(pager)@.protected_refusal(self.0, PAGE_SIZE) == Some(e)
                    &&& *final(pager) == *old(pager)
                    &&& final(map)@ == old(map)@
                },
            },
    {
        pager.get_protected_page_mut(*self, map)
    }
}

impl<const PAGE_SIZE: usize> Pager<PAGE_SIZE> {
    /// Read the currently active copy of a protected page.
    pub fn get_protected_page<'a>(&self, id: ProtectedPageId<PAGE_SIZE>, map: &'a [u8]) -> (r:
        Result<MappedPage<&'a [u8]>, MappedPageError>)
        requires
            self.wf(),
            self@.protected_refusal(id.0, PAGE_SIZE) is None ==> page_in_map(
                self@.state.active_copy(id.0, PAGE_SIZE),
                PAGE_SIZE,
                map.len() as int,
            ),
        ensures
            match r {
                Ok(page) => {
                    &&& self@.protected_refusal(id.0, PAGE_SIZE) is None
                    &&& page@ == page_of(
                        map@,
                        self@.state.active_copy(id.0, PAGE_SIZE) as int,
                        PAGE_SIZE as int,
                    )
                },
                Err(e) => self@.protected_refusal(id.0, PAGE_SIZE) == Some(e),
            },
    {
        if !self.available {
            return Err(MappedPageError::Unavailable);
        }
        match self.state.protected_entry(id.0, PAGE_SIZE) {
            Ok(entry) => {
                let phys = entry.copy(entry.active_slot);
                Ok(MappedPage::from_slice(page_slice(map, phys, PAGE_SIZE)))
            },
            Err(e) => Err(e),
        }
    }

    /// Obtain a writer for a protected page.
    pub fn get_protected_page_mut<'a>(
        &'a mut self,
        id: ProtectedPageId<PAGE_SIZE>,
        map: &'a mut [u8],
    ) -> (r: Result<ProtectedPageWriter<'a, PAGE_SIZE>, MappedPageError>)
        requires
            old(self).wf(),
            old(self)@.protected_refusal(id.0, PAGE_SIZE) is None ==> old(self)@.state.entry(
                id.0,
                PAGE_SIZE,
            )->0.active_slot <= 1,
        ensures
            match r {
                Ok(w) => {
                    &&& old(self)@.protected_refusal(id.0, PAGE_SIZE) is None
                    &&& *w.pager == *old(self)
                    &&& *final(self) == *final(w.pager)
                    &&& w.map@ == old(map)@
                    &&& final(map)@ == final(w.map)@
                    &&& w.id == id
                    &&& w.inactive_slot == old(self)@.state.inactive_slot(id.0, PAGE_SIZE)
                    &&& w.inactive_phys_page == old(self)@.state.inactive_copy(id.0, PAGE_SIZE)
                },
                Err(e) => {
                    &&& old(self)@.protected_refusal(id.0, PAGE_SIZE) == Some(e)
                    &&& *final(self) == *old(self)
                    &&& final(map)@ == old(map)@
                },
            },
    {
        if !self.available {
            return Err(MappedPageError::Unavailable);
        }
        match self.state.protected_entry(id.0, PAGE_SIZE) {
            Ok(entry) => {
                let inactive_slot: u8 = 1 - entry.active_slot;
                let inactive_phys_page = entry.copy(inactive_slot);
                Ok(ProtectedPageWriter { pager: self, map, id, inactive_phys_page, inactive_slot })
            },
            Err(e) => Err(e),
        }
    }

    /// Go on with the commit of a protected page.
    pub fn resume_write(&mut self, task: WriteTask<PAGE_SIZE>, event: IoEvent, map: &[u8]) -> (r:
        Turn<(), WriteTask<PAGE_SIZE>>)
        requires
            old(self).wf(),
            task.belongs_to(old(self)@),
            task.in_map(old(self)@, event, map.len() as int),
        ensures
            final(self).wf(),
            old(self)@.write_resumed(task, event, map@, final(self)@, r),
            r matches Turn::Ask(_, next) ==> next.belongs_to(final(self)@),
    {
        match task {
            WriteTask::Data { id, phys, slot } => match event {
                IoEvent::Done => {
                    let checksum = crc32(page_slice(map, phys, PAGE_SIZE));
                    let block = self.state.record_write(id.0, slot, checksum, PAGE_SIZE);
                    let request = self.commit_dir_block(block, map);
                    Turn::Ask(request, WriteTask::Directory { block })
                },
                IoEvent::Failed { error, .. } => Turn::Done(Err(MappedPageError::Io(error))),
            },
            WriteTask::Directory { block } => Turn::Done(self.commit_dir_block_done(block, event)),
        }
    }

    // ── Introspection ─────────────────────────────────────────────────────────

    /// The pages of both copies of one directory block, and which is active.
    pub fn dir_block_pages(&self, block_idx: usize) -> (r: (u64, u64, MetaSelector))
        requires
            block_idx < self@.state.blocks.len(),
        ensures
            r.0 == self@.state.blocks[block_idx as int].page_a,
            r.1 == self@.state.blocks[block_idx as int].page_b,
            r.2 == self@.state.blocks[block_idx as int].active,
    {
        let b = self.state.dir_blocks[block_idx];
        (b.page_a, b.page_b, b.active)
    }

    /// Which slot (0 = page_a, 1 = page_b) is the active copy of a protected page.
    pub fn protected_active_slot(&self, id: ProtectedPageId<PAGE_SIZE>) -> (r: u8)
        requires
            self.wf(),
            self@.state.entry(id.0, PAGE_SIZE) is Some,
        ensures
            r == self@.state.entry(id.0, PAGE_SIZE)->0.active_slot,
    {
        match self.state.locate(id.0, PAGE_SIZE) {
            Some((block, slot)) => self.state.entry_at(block, slot).active_slot,
            None => 0,
        }
    }

    /// Physical page numbers (page_a, page_b) backing a protected page.
    pub fn protected_backing_pages(&self, id: ProtectedPageId<PAGE_SIZE>) -> (r: (u64, u64))
        requires
            self.wf(),
            self@.state.entry(id.0, PAGE_SIZE) is Some,
        ensures
            r.0 == self@.state.entry(id.0, PAGE_SIZE)->0.page_a,
            r.1 == self@.state.entry(id.0, PAGE_SIZE)->0.page_b,
    {
        match self.state.locate(id.0, PAGE_SIZE) {
            Some((block, slot)) => {
                let e = self.state.entry_at(block, slot);
                (e.page_a, e.page_b)
            },
            None => (0, 0),
        }
    }
}

// ── Batches ───────────────────────────────────────────────────────────────────

/// The numbers of the handles `ids`.
pub open spec fn protected_numbers<const PAGE_SIZE: usize>(
    ids: Seq<ProtectedPageId<PAGE_SIZE>>,
) -> Seq<u64> {
    Seq::new(ids.len(), |i: int| ids[i].0)
}

impl PagerView {
    /// Why the handles `ids` cannot be freed together, if they cannot: a handle
    /// that is named twice, or else the first that cannot be freed.
    pub open spec fn free_protected_bulk_refusal(self, ids: Seq<u64>, page_size: usize) -> Option<
        MappedPageError,
    > {
        if !self.available {
            Some(MappedPageError::Unavailable)
        } else if !ids.no_duplicates() {
            Some(MappedPageError::DoubleFree)
        } else {
            self.first_protected_refusal(ids, page_size)
        }
    }

    /// How the allocation of `count` protected pages begins.
    pub open spec fn alloc_protected_bulk_begun<const PAGE_SIZE: usize>(
        self,
        count: usize,
        step: BulkStep<ProtectedPageId<PAGE_SIZE>>,
    ) -> bool {
        if self.available {
            start_step(count, step)
        } else {
            step == BulkStep::<ProtectedPageId<PAGE_SIZE>>::Done(
                Err(MappedPageError::Unavailable),
            )
        }
    }

    /// How the release of the handles `ids` begins: it is refused as a whole, or they are
    /// freed one after the other.
    pub open spec fn free_protected_bulk_begun<const PAGE_SIZE: usize>(
        self,
        ids: Seq<ProtectedPageId<PAGE_SIZE>>,
        step: BulkFreeStep<ProtectedPageId<PAGE_SIZE>>,
    ) -> bool {
        match self.free_protected_bulk_refusal(protected_numbers(ids), PAGE_SIZE) {
            Some(e) => step == BulkFreeStep::<ProtectedPageId<PAGE_SIZE>>::Done(Err(e)),
            None => free_step(ids, 0, step),
        }
    }

    /// Why the first of the handles that cannot be freed cannot.
    pub open spec fn first_protected_refusal(self, ids: Seq<u64>, page_size: usize) -> Option<
        MappedPageError,
    >
        decreases ids.len(),
    {
        if ids.len() == 0 {
            None
        } else {
            match self.first_protected_refusal(ids.drop_last(), page_size) {
                Some(e) => Some(e),
                None => self.free_protected_refusal(ids.last(), page_size),
            }
        }
    }
}

proof fn lemma_first_protected_refusal_stays(
    v: PagerView,
    ids: Seq<u64>,
    k: int,
    page_size: usize,
)
    requires
        0 <= k <= ids.len(),
        v.first_protected_refusal(ids.take(k), page_size) is Some,
    ensures
        v.first_protected_refusal(ids, page_size) == v.first_protected_refusal(
            ids.take(k),
            page_size,
        ),
    decreases ids.len() - k,
{
    if k == ids.len() {
        assert(ids.take(k) =~= ids);
    } else {
        assert(ids.take(k + 1).drop_last() =~= ids.take(k));
        lemma_first_protected_refusal_stays(v, ids, k + 1, page_size);
    }
}

impl<const PAGE_SIZE: usize> Pager<PAGE_SIZE> {
    /// Begin to allocate `count` protected pages, one after the other.
    ///
    /// If one cannot be allocated, those allocated before it are freed again.
    pub fn alloc_protected_bulk(&self, count: usize) -> (r: BulkStep<ProtectedPageId<PAGE_SIZE>>)
        ensures
            self@.alloc_protected_bulk_begun(count, r),
    {
        if !self.available {
            return BulkStep::Done(Err(MappedPageError::Unavailable));
        }
        BulkAlloc::start(count)
    }

    /// Begin to free several protected pages, one after the other.
    ///
    /// All ids are validated before any page is freed: a single invalid id, or one
    /// that is named twice, leaves all pages unchanged.
    pub fn free_protected_bulk(&self, ids: Vec<ProtectedPageId<PAGE_SIZE>>) -> (r: BulkFreeStep<
        ProtectedPageId<PAGE_SIZE>,
    >)
        requires
            self.wf(),
        ensures
            self@.free_protected_bulk_begun(ids@, r),
    {
        if !self.available {
            return BulkFreeStep::Done(Err(MappedPageError::Unavailable));
        }
        let mut numbers: Vec<u64> = Vec::new();
        let mut i: usize = 0;
        while i < ids.len()
            invariant
                i <= ids@.len(),
                numbers@ == protected_numbers(ids@).take(i as int),
            decreases ids.len() - i,
        {
            numbers.push(ids[i].0);
            i += 1;
            assert(numbers@ =~= protected_numbers(ids@).take(i as int));
        }
        assert(numbers@ =~= protected_numbers(ids@));
        if has_duplicates(&numbers) {
            return BulkFreeStep::Done(Err(MappedPageError::DoubleFree));
        }
        let mut k: usize = 0;
        assert(numbers@.take(0) =~= Seq::empty());
        while k < numbers.len()
            invariant
                self.wf(),
                self@.available,
                k <= numbers@.len(),
                numbers@ == protected_numbers(ids@),
                numbers@.no_duplicates(),
                self@.first_protected_refusal(numbers@.take(k as int), PAGE_SIZE) is None,
            decreases numbers.len() - k,
        {
            proof {
                assert(numbers@.take(k + 1).drop_last() =~= numbers@.take(k as int));
            }
            if let Some(e) = self.protected_free_refusal(numbers[k]) {
                proof {
                    lemma_first_protected_refusal_stays(self@, numbers@, k + 1, PAGE_SIZE);
                }
                return BulkFreeStep::Done(Err(e));
            }
            k += 1;
        }
        assert(numbers@.take(k as int) =~= numbers@);
        BulkFree::start(ids)
    }

    /// Why handle `id` cannot be freed, if it cannot.
    pub(crate) fn protected_free_refusal(&self, id: u64) -> (r: Option<MappedPageError>)
        requires
            self.wf(),
        ensures
            r == self@.free_protected_refusal(id, PAGE_SIZE),
    {
        if !self.available {
            return Some(MappedPageError::Unavailable);
        }
        self.state.release_protected_refusal(id, PAGE_SIZE)
    }
}

} // verus!
