//! Typed failures of the archive operations.

use vstd::prelude::*;

verus! {

/// Failure to open an archive: the message says which step went wrong.
#[derive(Debug)]
pub struct ReadError {
    msg: String,
}

impl View for ReadError {
    type V = Seq<char>;

    closed spec fn view(&self) -> Seq<char> {
        self.msg@
    }
}

impl ReadError {
    pub fn new(msg: &str) -> (e: ReadError)
        ensures
            e@ == msg@,
    {
        ReadError { msg: msg.to_owned() }
    }

    /// The message this error was made with.
    pub fn message(&self) -> (s: String)
        ensures
            s@ == self@,
    {
        self.msg.clone()
    }
}

/// Failure to retrieve a file's content.
#[derive(Debug, PartialEq, Eq)]
pub enum FileReadError {
    /// The path resolves to a directory.
    NotAFile,
    /// The path does not resolve.
    NotFound,
    /// The decoder rejected the stored bytes.
    CompressionError,
    /// The stored bytes hash to the first value, the entry records the second.
    Checksum(u32, u32),
    /// The archive ends before the entry's stored bytes do.
    Other(String),
}

/// Model of a [`FileReadError`].
pub enum FileReadErrorView {
    NotAFile,
    NotFound,
    CompressionError,
    Checksum(u32, u32),
    Other(Seq<char>),
}

impl View for FileReadError {
    type V = FileReadErrorView;

    open spec fn view(&self) -> FileReadErrorView {
        match self {
            FileReadError::NotAFile => FileReadErrorView::NotAFile,
            FileReadError::NotFound => FileReadErrorView::NotFound,
            FileReadError::CompressionError => FileReadErrorView::CompressionError,
            FileReadError::Checksum(actual, expected) => FileReadErrorView::Checksum(
                *actual,
                *expected,
            ),
            FileReadError::Other(msg) => FileReadErrorView::Other(msg@),
        }
    }
}

/// Failure to resolve a path to an entry.
#[derive(Debug, PartialEq, Eq)]
pub enum EntryError {
    /// A directory on the way has no child of the asked name.
    NothingFound,
    /// A component of the path is not a plain name.
    PathError,
    /// The path is not rooted, or it continues below a file.
    Other(String),
}

/// Model of an [`EntryError`].
pub enum EntryErrorView {
    NothingFound,
    PathError,
    Other(Seq<char>),
}

impl View for EntryError {
    type V = EntryErrorView;

    open spec fn view(&self) -> EntryErrorView {
        match self {
            EntryError::NothingFound => EntryErrorView::NothingFound,
            EntryError::PathError => EntryErrorView::PathError,
            EntryError::Other(msg) => EntryErrorView::Other(msg@),
        }
    }
}

/// Failure to list a directory.
#[derive(Debug, PartialEq, Eq)]
pub enum ListingError {
    /// The path resolves to a file.
    IsFile,
    /// A directory on the way has no child of the asked name.
    NothingFound,
    /// A component of the path is not a plain name.
    PathError,
    /// The path is not rooted, or it continues below a file.
    Other(String),
}

/// Model of a [`ListingError`].
pub enum ListingErrorView {
    IsFile,
    NothingFound,
    PathError,
    Other(Seq<char>),
}

impl View for ListingError {
    type V = ListingErrorView;

    open spec fn view(&self) -> ListingErrorView {
        match self {
            ListingError::IsFile => ListingErrorView::IsFile,
            ListingError::NothingFound => ListingErrorView::NothingFound,
            ListingError::PathError => ListingErrorView::PathError,
            ListingError::Other(msg) => ListingErrorView::Other(msg@),
        }
    }
}

/// The listing failure that a failed resolution turns into.
pub open spec fn listing_failure(e: EntryErrorView) -> ListingErrorView {
    match e {
        EntryErrorView::NothingFound => ListingErrorView::NothingFound,
        EntryErrorView::PathError => ListingErrorView::PathError,
        EntryErrorView::Other(msg) => ListingErrorView::Other(msg),
    }
}

impl ListingError {
    /// Carries a failed resolution over into a listing failure.
    pub fn from_entry_error(e: EntryError) -> (r: ListingError)
        ensures
            r@ == listing_failure(e@),
    {
        match e {
            EntryError::NothingFound => ListingError::NothingFound,
            EntryError::PathError => ListingError::PathError,
            EntryError::Other(msg) => ListingError::Other(msg),
        }
    }
}

} // verus!
