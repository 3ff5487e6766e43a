//! What can go wrong with a pager.

use vstd::prelude::*;
use vstd::string::{StringExecFns, to_string_from_display_ensures};

verus! {

/// `std::io::Error`: an I/O failure, carried through unopened.  Nothing is
/// claimed of what is inside.
#[verifier::external_type_specification]
#[verifier::external_body]
pub struct ExIoError(std::io::Error);

#[derive(Debug)]
pub enum MappedPageError {
    /// Underlying I/O failure.
    Io(std::io::Error),
    /// The page size recorded in the file is not the one asked for.
    InvalidPageSize,
    /// Page 0 (superblock) has an unrecognised magic, incompatible version, or
    /// the file is too small to contain the minimum four pages.
    CorruptSuperblock,
    /// Both metadata pages (A and B) failed their checksums; the file cannot be
    /// recovered automatically.
    CorruptMetadata,
    /// The `PageId` is ≥ `page_count()`, or the handle names nothing allocated.
    OutOfBounds,
    /// The `PageId` refers to a reserved internal page (0–2).
    ReservedPage,
    /// Attempted to free a page that is already marked free.
    DoubleFree,
    /// The pager's memory mapping is no longer available (failed remap after a
    /// grow error).  The pager cannot be used further; reopen the file.
    Unavailable,
    /// Both A and B copies of a protected-page directory block failed their
    /// checksums; the directory cannot be recovered automatically.
    CorruptProtectedDirectory,
    /// The directory block array in page 0 is corrupt (bad checksum or overflows).
    CorruptDirectoryIndex,
    /// No room remains in page 0 for additional directory block pair references.
    DirectoryFull,
}

impl MappedPageError {
    /// The fixed text of every error but an I/O failure.
    pub open spec fn text(self) -> Seq<char> {
        match self {
            MappedPageError::Io(_) => Seq::empty(),
            MappedPageError::InvalidPageSize => "page_size_log2 must be ≥ 10 (1024 bytes)"@,
            MappedPageError::CorruptSuperblock =>
                "superblock is corrupt or from an incompatible version"@,
            MappedPageError::CorruptMetadata => "both metadata pages are corrupt; cannot recover"@,
            MappedPageError::OutOfBounds => "page id is out of range"@,
            MappedPageError::ReservedPage => "page id refers to a reserved page (0–2)"@,
            MappedPageError::DoubleFree => "page is already free"@,
            MappedPageError::Unavailable => "pager memory mapping unavailable; reopen the file"@,
            MappedPageError::CorruptProtectedDirectory =>
                "both directory page copies are corrupt; cannot recover"@,
            MappedPageError::CorruptDirectoryIndex => "directory block index in page 0 is corrupt"@,
            MappedPageError::DirectoryFull =>
                "page 0 has no room for additional directory block references"@,
        }
    }

    /// The error in words.  For an I/O failure, what that failure's own `Display`
    /// says of it follows a fixed prefix; which words those are is up to the system.
    pub fn message(&self) -> (r: String)
        ensures
            match *self {
                MappedPageError::Io(e) => exists|said: String|
                    #[trigger] to_string_from_display_ensures::<std::io::Error>(&e, said) && r@
                        == io_text(said@),
                _ => r@ == self.text(),
            },
    {
        match self {
            MappedPageError::Io(e) => {
                let said = e.to_string();
                io_message(said.as_str())
            },
            MappedPageError::InvalidPageSize => "page_size_log2 must be ≥ 10 (1024 bytes)".to_owned(),
            MappedPageError::CorruptSuperblock =>
                "superblock is corrupt or from an incompatible version".to_owned(),
            MappedPageError::CorruptMetadata =>
                "both metadata pages are corrupt; cannot recover".to_owned(),
            MappedPageError::OutOfBounds => "page id is out of range".to_owned(),
            MappedPageError::ReservedPage => "page id refers to a reserved page (0–2)".to_owned(),
            MappedPageError::DoubleFree => "page is already free".to_owned(),
            MappedPageError::Unavailable =>
                "pager memory mapping unavailable; reopen the file".to_owned(),
            MappedPageError::CorruptProtectedDirectory =>
                "both directory page copies are corrupt; cannot recover".to_owned(),
            MappedPageError::CorruptDirectoryIndex =>
                "directory block index in page 0 is corrupt".to_owned(),
            MappedPageError::DirectoryFull =>
                "page 0 has no room for additional directory block references".to_owned(),
        }
    }

    /// The I/O failure behind this error, if that is what it is.
    pub fn source(&self) -> (r: Option<&std::io::Error>)
        ensures
            match *self {
                MappedPageError::Io(e) => r == Some(&e),
                _ => r is None,
            },
    {
        match self {
            MappedPageError::Io(e) => Some(e),
            _ => None,
        }
    }
}

/// The text of an I/O failure of which the system says `said`.
pub open spec fn io_text(said: Seq<char>) -> Seq<char> {
    "I/O error: "@ + said
}

/// The words for an I/O failure of which the system says `said`.
pub fn io_message(said: &str) -> (r: String)
    ensures
        r@ == io_text(said@),
{
    "I/O error: ".to_owned().concat(said)
}

impl vstd::std_specs::convert::FromSpecImpl<std::io::Error> for MappedPageError {
    open spec fn obeys_from_spec() -> bool {
        true
    }

    open spec fn from_spec(e: std::io::Error) -> Self {
        MappedPageError::Io(e)
    }
}

impl From<std::io::Error> for MappedPageError {
    fn from(e: std::io::Error) -> (r: Self) {
        MappedPageError::Io(e)
    }
}

} // verus!
