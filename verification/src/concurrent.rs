//! What can go wrong with a pager that several threads share.

use vstd::prelude::*;

verus! {

/// Error returned by the locking operations of a shared pager.
#[derive(Debug)]
pub enum ConcurrentPagerError {
    /// A thread panicked while holding the lock, leaving it poisoned.
    Poisoned,
    /// The lock is currently held; `try_read` / `try_write` would block.
    WouldBlock,
}

impl ConcurrentPagerError {
    /// The fixed text of each error.
    pub open spec fn text(self) -> Seq<char> {
        match self {
            ConcurrentPagerError::Poisoned =>
                "pager lock is poisoned: a thread panicked while holding it"@,
            ConcurrentPagerError::WouldBlock =>
                "pager lock is currently held; try_read/try_write would block"@,
        }
    }

    /// The error in words.
    pub fn message(&self) -> (r: String)
        ensures
            r@ == self.text(),
    {
        match self {
            ConcurrentPagerError::Poisoned =>
                "pager lock is poisoned: a thread panicked while holding it".to_owned(),
            ConcurrentPagerError::WouldBlock =>
                "pager lock is currently held; try_read/try_write would block".to_owned(),
        }
    }
}

} // verus!
