//! The words for what can go wrong.

use mappedpages::error::io_message;
use mappedpages::{ConcurrentPagerError, MappedPageError};

#[test]
fn every_error_has_its_text() {
    let cases = vec![
        (
            MappedPageError::InvalidPageSize,
            "page_size_log2 must be ≥ 10 (1024 bytes)",
        ),
        (
            MappedPageError::CorruptSuperblock,
            "superblock is corrupt or from an incompatible version",
        ),
        (
            MappedPageError::CorruptMetadata,
            "both metadata pages are corrupt; cannot recover",
        ),
        (MappedPageError::OutOfBounds, "page id is out of range"),
        (
            MappedPageError::ReservedPage,
            "page id refers to a reserved page (0–2)",
        ),
        (MappedPageError::DoubleFree, "page is already free"),
        (
            MappedPageError::Unavailable,
            "pager memory mapping unavailable; reopen the file",
        ),
        (
            MappedPageError::CorruptProtectedDirectory,
            "both directory page copies are corrupt; cannot recover",
        ),
        (
            MappedPageError::CorruptDirectoryIndex,
            "directory block index in page 0 is corrupt",
        ),
        (
            MappedPageError::DirectoryFull,
            "page 0 has no room for additional directory block references",
        ),
    ];
    for (error, text) in cases {
        assert_eq!(error.message(), text);
        assert!(error.source().is_none());
    }
}

#[test]
fn io_error_is_carried_through() {
    let io = std::io::Error::new(std::io::ErrorKind::Other, "disk on fire");
    let error = MappedPageError::from(io);
    assert!(matches!(error, MappedPageError::Io(_)));
    assert_eq!(error.message(), "I/O error: disk on fire");
    assert_eq!(error.source().unwrap().to_string(), "disk on fire");
    assert_eq!(io_message("nothing left"), "I/O error: nothing left");
}

#[test]
fn sharing_errors_have_their_text() {
    assert_eq!(
        ConcurrentPagerError::Poisoned.message(),
        "pager lock is poisoned: a thread panicked while holding it"
    );
    assert_eq!(
        ConcurrentPagerError::WouldBlock.message(),
        "pager lock is currently held; try_read/try_write would block"
    );
}
