//! Read-only pager: reads a file that it never writes.
//!
//! [`ReadOnlyPager<PAGE_SIZE>`] opens an existing file without write access.
//! All write operations (allocation, release, page mutation) are absent from this
//! type and therefore compile-time errors for callers.

use vstd::prelude::*;

use crate::bytes::page_of;
use crate::error::MappedPageError;
use crate::image::{State, StateView, recover, valid_page_size};
use crate::iter::{AllocatedPageIter, AllocatedProtectedPageIter, slot_id};
use crate::meta::FIRST_DATA_PAGE;
use crate::page::{MappedPage, PageId, page_in_map, page_slice};
use crate::protected::{ProtectedPageId, addressable};

verus! {

/// A read-only view of a memory-mapped, fixed-size-page file.
///
/// Opened with [`ReadOnlyPager::open`].  Because no write methods exist on this
/// type, callers cannot allocate, free, or mutate pages.
pub struct ReadOnlyPager<const PAGE_SIZE: usize> {
    pub state: State,
}

impl<const PAGE_SIZE: usize> View for ReadOnlyPager<PAGE_SIZE> {
    type V = StateView;

    open spec fn view(&self) -> StateView {
        self.state@
    }
}

impl<const PAGE_SIZE: usize> ReadOnlyPager<PAGE_SIZE> {
    pub open spec fn wf(self) -> bool {
        &&& valid_page_size(PAGE_SIZE)
        &&& self@.wf(PAGE_SIZE)
    }

    /// Open an existing file in read-only mode.
    ///
    /// Validates the superblock and metadata with the same A/B fallback logic
    /// as [`Pager::open`](crate::Pager::open).  Returns
    /// [`MappedPageError::InvalidPageSize`] if the on-disk page size does not
    /// match `PAGE_SIZE`.
    pub fn open(map: &[u8]) -> (r: Result<Self, MappedPageError>)
        requires
            valid_page_size(PAGE_SIZE),
        ensures
            match r {
                Ok(pager) => {
                    &&& pager.wf()
                    &&& recover(map@, PAGE_SIZE) == Ok::<StateView, MappedPageError>(pager@)
                },
                Err(e) => recover(map@, PAGE_SIZE) == Err::<StateView, MappedPageError>(e),
            },
    {
        match State::load(map, PAGE_SIZE) {
            Ok(state) => Ok(ReadOnlyPager { state }),
            Err(e) => Err(e),
        }
    }

    /// The page size this file was created with, in bytes.
    pub fn page_size(&self) -> (r: usize)
        ensures
            r == PAGE_SIZE,
    {
        PAGE_SIZE
    }

    /// Total number of pages in the file, including reserved pages 0–2.
    pub fn page_count(&self) -> (r: u64)
        ensures
            r == self@.meta.total_pages,
    {
        self.state.meta.total_pages
    }

    /// Number of pages available for allocation, as of the last commit visible
    /// when this pager was opened.
    pub fn free_page_count(&self) -> (r: u64)
        ensures
            r == self@.meta.free_count,
    {
        self.state.meta.free_count
    }

    /// Immutably borrow the contents of a regular data page.
    ///
    /// Returns an error if `id` refers to a reserved page (0–2) or is out of range.
    pub fn get_page<'a>(&self, id: PageId<PAGE_SIZE>, map: &'a [u8]) -> (r: Result<
        MappedPage<&'a [u8]>,
        MappedPageError,
    >)
        requires
            self.wf(),
            self@.page_refusal(id.0) is None ==> page_in_map(id.0, PAGE_SIZE, map.len() as int),
        ensures
            match r {
                Ok(page) => {
                    &&& self@.page_refusal(id.0) is None
                    &&& page@ == page_of(map@, id.0 as int, PAGE_SIZE as int)
                },
                Err(e) => self@.page_refusal(id.0) == Some(e),
            },
    {
        match self.state.page_access(id.0) {
            Some(e) => Err(e),
            None => Ok(MappedPage::from_slice(page_slice(map, id.0, PAGE_SIZE))),
        }
    }

    /// Immutably borrow the active copy of a protected page.
    ///
    /// Returns an error if `id` is out of range or not currently allocated.
    pub fn get_protected_page<'a>(&self, id: ProtectedPageId<PAGE_SIZE>, map: &'a [u8]) -> (r:
        Result<MappedPage<&'a [u8]>, MappedPageError>)
        requires
            self.wf(),
            self@.protected_refusal(id.0, PAGE_SIZE) is None ==> page_in_map(
                self@.active_copy(id.0, PAGE_SIZE),
                PAGE_SIZE,
                map.len() as int,
            ),
        ensures
            match r {
                Ok(page) => {
                    &&& self@.protected_refusal(id.0, PAGE_SIZE) is None
                    &&& page@ == page_of(
                        map@,
                        self@.active_copy(id.0, PAGE_SIZE) as int,
                        PAGE_SIZE as int,
                    )
                },
                Err(e) => self@.protected_refusal(id.0, PAGE_SIZE) == Some(e),
            },
    {
        match self.state.protected_entry(id.0, PAGE_SIZE) {
            Ok(entry) => {
                let phys = entry.copy(entry.active_slot);
                Ok(MappedPage::from_slice(page_slice(map, phys, PAGE_SIZE)))
            },
            Err(e) => Err(e),
        }
    }

    /// Return an iterator over all currently allocated regular data pages.
    ///
    /// Internal protected-page resources and reserved pages 0–2 are excluded.
    pub fn iter_allocated_pages<'a>(&'a self) -> (r: ReadOnlyAllocatedPageIter<'a, PAGE_SIZE>)
        requires
            self.wf(),
        ensures
            r.wf(),
            r.rest() == self@.regular_pages(FIRST_DATA_PAGE as int),
    {
        ReadOnlyAllocatedPageIter {
            pages: AllocatedPageIter { state: &self.state, current: FIRST_DATA_PAGE },
        }
    }

    /// Return an iterator over all currently allocated protected pages.
    ///
    /// Regular data pages and internal directory-block pages are excluded.
    pub fn iter_allocated_protected_pages<'a>(&'a self) -> (r: ReadOnlyAllocatedProtectedPageIter<
        'a,
        PAGE_SIZE,
    >)
        requires
            self.wf(),
            addressable(PAGE_SIZE),
        ensures
            r.wf(),
            r.rest() == self@.slots_in_use(0, 0),
    {
        ReadOnlyAllocatedProtectedPageIter {
            pages: AllocatedProtectedPageIter { state: &self.state, block_idx: 0, slot_idx: 0 },
        }
    }
}

/// An iterator over all currently allocated data pages in a [`ReadOnlyPager`].
///
/// Yielded by [`ReadOnlyPager::iter_allocated_pages`].  Reserved pages 0–2 and
/// internal protected-page resources are never included.
pub struct ReadOnlyAllocatedPageIter<'a, const PAGE_SIZE: usize> {
    pub pages: AllocatedPageIter<'a, PAGE_SIZE>,
}

impl<'a, const PAGE_SIZE: usize> ReadOnlyAllocatedPageIter<'a, PAGE_SIZE> {
    pub open spec fn wf(self) -> bool {
        self.pages.wf()
    }

    /// The pages still to come.
    pub open spec fn rest(self) -> Seq<u64> {
        self.pages.rest()
    }

    /// The next page, and on to those behind it.
    pub fn next(&mut self) -> (r: Option<PageId<PAGE_SIZE>>)
        requires
            old(self).wf(),
        ensures
            final(self).wf(),
            match r {
                Some(id) => old(self).rest() == seq![id.0] + final(self).rest(),
                None => old(self).rest() == Seq::<u64>::empty() && final(self).rest() == Seq::<
                    u64,
                >::empty(),
            },
    {
        self.pages.next()
    }
}

/// An iterator over all currently allocated protected pages in a
/// [`ReadOnlyPager`].
///
/// Yielded by [`ReadOnlyPager::iter_allocated_protected_pages`].  Regular data
/// pages and internal directory-block pages are never included.
pub struct ReadOnlyAllocatedProtectedPageIter<'a, const PAGE_SIZE: usize> {
    pub pages: AllocatedProtectedPageIter<'a, PAGE_SIZE>,
}

impl<'a, const PAGE_SIZE: usize> ReadOnlyAllocatedProtectedPageIter<'a, PAGE_SIZE> {
    pub open spec fn wf(self) -> bool {
        self.pages.wf()
    }

    /// The slots still to come.
    pub open spec fn rest(self) -> Seq<(int, int)> {
        self.pages.rest()
    }

    /// The next protected page, and on to those behind it.
    pub fn next(&mut self) -> (r: Option<ProtectedPageId<PAGE_SIZE>>)
        requires
            old(self).wf(),
        ensures
            final(self).wf(),
            match r {
                Some(id) => {
                    &&& old(self).rest().len() > 0
                    &&& final(self).rest() == old(self).rest().skip(1)
                    &&& id.0 == slot_id(
                        old(self).rest()[0].0,
                        old(self).rest()[0].1,
                        PAGE_SIZE,
                    )
                },
                None => old(self).rest() == Seq::<(int, int)>::empty() && final(self).rest()
                    == Seq::<(int, int)>::empty(),
            },
    {
        self.pages.next()
    }
}

} // verus!
