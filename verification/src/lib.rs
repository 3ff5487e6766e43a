//! A crash-consistent, memory-mapped, file-backed fixed-size page provider.
//!
//! # Overview
//!
//! A [`Pager`] manages a file divided into fixed-size pages.  Pages are addressed
//! by [`PageId`] and accessed as [`MappedPage`] views into the memory map.
//!
//! The library holds no file and performs no I/O.  An operation that needs some
//! returns a request (store these bytes, flush that range, resize, map again) and
//! a task; whoever owns the file carries the request out and hands the task back
//! with the outcome (see [`task`]).  Functions that read or write pages take the
//! mapped bytes as an argument.
//!
//! # File layout
//!
//! ```text
//! Page 0  — Superblock   (magic, version, page size, active metadata selector + its checksum)
//!           and references to the protected-page directory
//! Page 1  — Metadata A   (free bitmap, total pages, generation, checksum)
//! Page 2  — Metadata B   (same layout; alternate buffer for crash-safe commits)
//! Page 3+ — Data pages   (user-visible, returned by allocation)
//! ```
//!
//! [`meta`] and [`directory`] hold the layout of the single parts, [`image`] what
//! a whole file stands for.  [`layout`] states where each field stands, byte by byte,
//! and when a file can be read.
//!
//! # Crash consistency
//!
//! All allocation state changes go through a double-buffered commit:
//!
//! 1. Write updated metadata into the *inactive* metadata page.
//! 2. Flush that page.
//! 3. Flip the active-metadata pointer in the superblock and update its checksum.
//! 4. Flush the superblock.
//!
//! The active metadata page is **never** overwritten in place.  Recovery on open
//! validates checksums and falls back to the alternate page if needed.  Pages of
//! the protected-page directory are committed in the same way.
//!
//! [`plan`] says what a commit writes and what a crash may leave of it,
//! [`durability`] what is then found in the file, and [`soundness`] puts the two
//! together: an invariant of a pager and its file that every operation keeps.
//! [`history`] follows a pager through any run of operations.
//!
//! # What the operations do
//!
//! [`effects`] states which regular pages each operation allocates or frees, when it
//! succeeds and what its failure means, [`slots`] the same for protected pages and
//! [`subslots`] for sub-pages.
//!
//! # Page-size safety
//!
//! [`Pager`], [`PageId`] and [`ProtectedPageId`] are all generic over a const
//! `PAGE_SIZE: usize`.  A `PageId<1024>` cannot be passed to a `Pager<4096>` — the
//! compiler rejects the mismatch.  `PAGE_SIZE` must be a power of two and at least
//! 1024.
//!
//! # Bulk operations
//!
//! [`Pager::alloc_bulk`] and [`Pager::free_bulk`] allocate or free multiple regular
//! pages in a single crash-safe metadata commit.  `free_bulk` validates all ids
//! before touching the bitmap: a single invalid id causes the whole call to fail
//! without modifying any state.
//!
//! [`Pager::alloc_protected_bulk`] and [`Pager::free_protected_bulk`] do the same
//! for protected pages, one page after the other (see [`bulk`]): on failure all
//! already-allocated protected pages are freed, and all ids are validated before
//! any page is freed.  [`live`] says which handles are left.
//!
//! # Page iteration
//!
//! [`Pager::iter_allocated_pages`] yields a [`PageId`] for each allocated regular
//! data page; directory pages, copies of protected pages and the reserved pages 0–2
//! are never included.  [`Pager::iter_allocated_protected_pages`] yields a
//! [`ProtectedPageId`] for each protected page.
//!
//! # Sub-page allocation
//!
//! [`SubPageAllocator`] divides big pages into up to 64 sub-pages each.  Its state
//! is in-memory only: callers reconstruct which sub-pages are in use from their own
//! records after a restart.
//!
//! # Allocator traits
//!
//! [`PageHandle`] is implemented by [`PageId`], [`ProtectedPageId`] and
//! [`SubPageId`], [`PageAllocator`] and [`BulkPageAllocator`] by [`Pager`] for the
//! first two and by [`SubPageAllocator`] for the third.  [`uniform`] states that the
//! traits do what the types themselves do.
//!
//! # Calling from code that is not verified
//!
//! Some functions have preconditions that concern the limits of the file format or
//! the length of the map.  [`guard`] has a test for each of them.

pub mod allocator;
pub mod bitmap;
pub mod bulk;
pub mod bytes;
pub mod checkout;
pub mod checksum;
pub mod concurrent;
pub mod directory;
pub mod durability;
pub mod effects;
pub mod error;
pub mod growth;
pub mod guard;
pub mod history;
pub mod image;
pub mod iter;
pub mod layout;
pub mod live;
pub mod meta;
pub mod ownership;
pub mod page;
pub mod pager;
pub mod plan;
pub mod protected;
pub mod readonly;
pub mod slots;
pub mod soundness;
pub mod sub_allocator;
pub mod subslots;
pub mod task;
pub mod uniform;

pub use allocator::{BulkPageAllocator, PageAllocator, PageHandle};
pub use concurrent::ConcurrentPagerError;
pub use error::MappedPageError;
pub use iter::{AllocatedPageIter, AllocatedProtectedPageIter};
pub use page::{MappedPage, PageId};
pub use pager::Pager;
pub use protected::{ProtectedPageId, ProtectedPageWriter};
pub use readonly::ReadOnlyPager;
pub use sub_allocator::{SubPageAllocator, SubPageId};
