//! Page handles and views of single pages.

use vstd::prelude::*;

use crate::bytes::page_of;
use crate::error::MappedPageError;
use crate::pager::Pager;

verus! {

/// Opaque handle to a page.  Page 0-2 are reserved and never returned by `allocate`.
///
/// The const generic `PAGE_SIZE` is the page size in bytes that this handle
/// belongs to.  A `PageId<1024>` cannot be used with a `Pager<4096>` — the
/// compiler rejects the mismatch.
#[derive(Clone, Copy, Debug, PartialEq, Eq, PartialOrd, Ord, Hash)]
pub struct PageId<const PAGE_SIZE: usize>(pub u64);

/// A fixed-size view into one page of the memory map: `MappedPage<&[u8]>` to
/// read it, `MappedPage<&mut [u8]>` to write it.
///
/// The view borrows the map, so it cannot outlive a remap.
pub struct MappedPage<B> {
    pub bytes: B,
}

impl<'a> View for MappedPage<&'a [u8]> {
    type V = Seq<u8>;

    open spec fn view(&self) -> Seq<u8> {
        self.bytes@
    }
}

impl<'a> View for MappedPage<&'a mut [u8]> {
    type V = Seq<u8>;

    open spec fn view(&self) -> Seq<u8> {
        self.bytes@
    }
}

impl<'a> MappedPage<&'a [u8]> {
    /// The page that `s` holds.
    pub fn from_slice(s: &'a [u8]) -> (r: Self)
        ensures
            r@ == s@,
    {
        MappedPage { bytes: s }
    }

    /// View the raw bytes of this page.
    pub fn as_bytes(&self) -> (r: &'a [u8])
        ensures
            r@ == self@,
    {
        self.bytes
    }

    pub fn len(&self) -> (r: usize)
        ensures
            r == self@.len(),
    {
        self.bytes.len()
    }

    pub fn is_empty(&self) -> (r: bool)
        ensures
            r == (self@.len() == 0),
    {
        self.bytes.len() == 0
    }
}

impl<'a> MappedPage<&'a mut [u8]> {
    /// The page that `s` holds; what is written to it is written to `s`.
    pub fn from_slice_mut(s: &'a mut [u8]) -> (r: Self)
        ensures
            r@ == old(s)@,
            final(r.bytes)@ == final(s)@,
    {
        MappedPage { bytes: s }
    }

    /// View the raw bytes of this page.
    pub fn as_bytes(&self) -> (r: &[u8])
        ensures
            r@ == self@,
    {
        &*self.bytes
    }

    /// Mutably view the raw bytes of this page.
    pub fn as_bytes_mut(&mut self) -> (r: &mut [u8])
        ensures
            r@ == old(self)@,
            final(self)@ == final(r)@,
            final(final(self).bytes)@ == final(old(self).bytes)@,
    {
        &mut *self.bytes
    }

    pub fn len(&self) -> (r: usize)
        ensures
            r == self@.len(),
    {
        self.bytes.len()
    }

    pub fn is_empty(&self) -> (r: bool)
        ensures
            r == (self@.len() == 0),
    {
        self.bytes.len() == 0
    }
}

impl<const PAGE_SIZE: usize> PageId<PAGE_SIZE> {
    /// Borrow the page contents immutably.
    pub fn get<'a>(&self, pager: &Pager<PAGE_SIZE>, map: &'a [u8]) -> (r: Result<
        MappedPage<&'a [u8]>,
        MappedPageError,
    >)
        requires
            pager.wf(),
            pager@.page_refusal(self.0) is None ==> page_in_map(
                self.0,
                PAGE_SIZE,
                map.len() as int,
            ),
        ensures
            match r {
                Ok(page) => {
                    &&& pager@.page_refusal(self.0) is None
                    &&& page@ == page_of(map@, self.0 as int, PAGE_SIZE as int)
                },
                Err(e) => pager@.page_refusal(self.0) == Some(e),
            },
    {
        pager.get_page(*self, map)
    }

    /// Borrow the page contents mutably.
    pub fn get_mut<'a>(&self, pager: &Pager<PAGE_SIZE>, map: &'a mut [u8]) -> (r: Result<
        MappedPage<&'a mut [u8]>,
        MappedPageError,
    >)
        requires
            pager.wf(),
            pager@.page_refusal(self.0) is None ==> page_in_map(
                self.0,
                PAGE_SIZE,
                old(map).len() as int,
            ),
        ensures
            match r {
                Ok(page) => {
                    &&& pager@.page_refusal(self.0) is None
                    &&& page@ == page_of(old(map)@, self.0 as int, PAGE_SIZE as int)
                    &&& final(map)@ == with_page(
                        old(map)@,
                        self.0 as int,
                        PAGE_SIZE as int,
                        final(page.bytes)@,
                    )
                },
                Err(e) => pager@.page_refusal(self.0) == Some(e) && final(map)@ == old(map)@,
            },
    {
        pager.get_page_mut(*self, map)
    }
}

/// Whether page `page` lies inside a map of `len` bytes.
pub open spec fn page_in_map(page: u64, page_size: usize, len: int) -> bool {
    (page + 1) * page_size <= len
}

/// The bytes of page `page` of `map`.
pub fn page_slice<'a>(map: &'a [u8], page: u64, page_size: usize) -> (r: &'a [u8])
    requires
        0 < page_size,
        page_in_map(page, page_size, map.len() as int),
    ensures
        r@ == page_of(map@, page as int, page_size as int),
{
    proof {
        lemma_page_in_map(page, page_size, map.len() as int);
    }
    let start: usize = page as usize * page_size;
    vstd::slice::slice_subrange(map, start, start + page_size)
}

/// The file `f` with its page `page` replaced by `new`.
pub open spec fn with_page(f: Seq<u8>, page: int, page_size: int, new: Seq<u8>) -> Seq<u8> {
    f.take(page * page_size) + new + f.skip(page * page_size + page_size)
}

/// The bytes of page `page` of `map`, to be written; the rest of the map stays
/// as it is.
pub fn page_slice_mut<'a>(map: &'a mut [u8], page: u64, page_size: usize) -> (r: &'a mut [u8])
    requires
        0 < page_size,
        page_in_map(page, page_size, old(map).len() as int),
    ensures
        r@ == page_of(old(map)@, page as int, page_size as int),
        final(map)@ == with_page(old(map)@, page as int, page_size as int, final(r)@),
{
    proof {
        lemma_page_in_map(page, page_size, map.len() as int);
    }
    let start: usize = page as usize * page_size;
    let (_, tail) = map.split_at_mut(start);
    let (r, _) = tail.split_at_mut(page_size);
    r
}

pub proof fn lemma_page_in_map(page: u64, page_size: usize, len: int)
    requires
        page_in_map(page, page_size, len),
        len <= usize::MAX,
    ensures
        page * page_size + page_size <= len,
        0 <= page * page_size,
        0 < page_size ==> page <= usize::MAX,
{
    assert(page * page_size + page_size == (page + 1) * page_size) by (nonlinear_arith);
    assert(0 <= page * page_size) by (nonlinear_arith);
    if 0 < page_size {
        assert(page <= page * page_size) by (nonlinear_arith)
            requires
                0 < page_size,
        ;
    }
}

} // verus!
