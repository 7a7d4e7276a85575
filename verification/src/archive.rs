//! The archive handle: path resolution, listing and retrieval.

use crate::codec::{checksum, crc32, decode, decoded};
use crate::entry::{nodes, FileMeta, QZEntry, QZFile};
use crate::errors::{
    EntryError, EntryErrorView, FileReadError, FileReadErrorView, ListingError, ListingErrorView,
    ReadError,
};
use crate::path::{is_plain_name, plain_name, split_path, starts_at_root, texts};
use crate::tree::{first_match, listing, lookup, names, resolve, Node};
use vstd::prelude::*;
use vstd::slice::slice_subrange;

verus! {

/// What an archive says of itself, with the tree of its entries.
#[derive(Debug, PartialEq, Eq)]
pub struct QZArchiveHeader {
    pub name: String,
    pub info: String,
    pub version: String,
    pub root: QZEntry,
}

/// Model of a [`QZArchiveHeader`].
pub struct HeaderView {
    pub name: Seq<char>,
    pub info: Seq<char>,
    pub version: Seq<char>,
    pub root: Node<FileMeta>,
}

impl View for QZArchiveHeader {
    type V = HeaderView;

    open spec fn view(&self) -> HeaderView {
        HeaderView {
            name: self.name@,
            info: self.info@,
            version: self.version@,
            root: self.root@,
        }
    }
}

/// An opened archive: where its file is, how long its compressed header is,
/// and the header.
#[derive(Debug, PartialEq, Eq)]
pub struct QZArchive {
    pub archive_file: String,
    pub header_size: u64,
    pub header: QZArchiveHeader,
}

/// Model of a [`QZArchive`].
pub struct ArchiveView {
    pub archive_file: Seq<char>,
    pub header_size: u64,
    pub header: HeaderView,
}

impl View for QZArchive {
    type V = ArchiveView;

    open spec fn view(&self) -> ArchiveView {
        ArchiveView {
            archive_file: self.archive_file@,
            header_size: self.header_size,
            header: self.header@,
        }
    }
}

/// The message of the failure on a header whose root is no directory.
pub open spec fn bad_root() -> Seq<char> {
    "failed to decode header"@
}

/// The message of the failure on an archive that ends before a file's stored
/// bytes do.
pub open spec fn short_read() -> Seq<char> {
    "failed to fill whole buffer"@
}

/// The `size` bytes of `archive` from `start` on, where the archive holds them.
pub open spec fn stored_region(archive: Seq<u8>, start: int, size: int) -> Option<Seq<u8>> {
    if 0 <= start && 0 <= size && start + size <= archive.len() {
        Some(archive.subrange(start, start + size))
    } else {
        None
    }
}

/// What reading makes of a file's stored bytes that hash to `actual`: a
/// checksum other than the recorded one is reported before anything is
/// decoded.
pub open spec fn opened(meta: FileMeta, stored: Seq<u8>, actual: u32) -> Result<
    Seq<u8>,
    FileReadErrorView,
> {
    if actual != meta.checksum {
        Err(FileReadErrorView::Checksum(actual, meta.checksum))
    } else {
        match decoded(meta.compression, stored) {
            Some(plain) => Ok(plain),
            None => Err(FileReadErrorView::CompressionError),
        }
    }
}

/// What reading a file returns when the content region begins at `offset` in
/// `archive`.
pub open spec fn read_at(meta: FileMeta, archive: Seq<u8>, offset: int) -> Result<
    Seq<u8>,
    FileReadErrorView,
> {
    match stored_region(archive, offset + meta.index_start, meta.index_size as int) {
        Some(stored) => opened(meta, stored, crc32(stored)),
        None => Err(FileReadErrorView::Other(short_read())),
    }
}

/// Where the content region begins in the file of an archive whose compressed
/// header has `header_size` bytes.
pub open spec fn content_offset(header_size: u64) -> int {
    8 + header_size
}

/// What reading the file at `path` returns.
pub open spec fn read_path(
    root: Node<FileMeta>,
    header_size: u64,
    path: Seq<char>,
    archive: Seq<u8>,
) -> Result<Seq<u8>, FileReadErrorView> {
    match lookup(root, path) {
        Ok(Node::File { meta, .. }) => read_at(meta, archive, content_offset(header_size)),
        Ok(Node::Dir { .. }) => Err(FileReadErrorView::NotAFile),
        Err(_) => Err(FileReadErrorView::NotFound),
    }
}

/// The outcome of a check: that of the read, without the content.
pub open spec fn checked(read: Result<Seq<u8>, FileReadErrorView>) -> Result<(), FileReadErrorView> {
    match read {
        Ok(_) => Ok(()),
        Err(e) => Err(e),
    }
}

impl QZFile {
    /// What the reader returns for this file's stored bytes, given the
    /// checksum they hash to.
    pub fn open_stored(&self, stored: &[u8], actual: u32) -> (outcome: Result<
        Vec<u8>,
        FileReadError,
    >)
        ensures
            match outcome {
                Ok(plain) => opened(self.meta(), stored@, actual) == Ok::<_, FileReadErrorView>(
                    plain@,
                ),
                Err(e) => opened(self.meta(), stored@, actual) == Err::<Seq<u8>, _>(e@),
            },
    {
        if actual != self.checksum {
            return Err(FileReadError::Checksum(actual, self.checksum));
        }
        decode(stored, self.compression)
    }

    /// Reads this file from `archive`, the bytes of the archive file, in
    /// which the content region begins at `offset`.
    pub fn read_file(&self, archive: &[u8], offset: u64) -> (outcome: Result<Vec<u8>, FileReadError>)
        ensures
            match outcome {
                Ok(plain) => read_at(self.meta(), archive@, offset as int) == Ok::<
                    _,
                    FileReadErrorView,
                >(plain@),
                Err(e) => read_at(self.meta(), archive@, offset as int) == Err::<Seq<u8>, _>(e@),
            },
    {
        let len = archive.len() as u64;
        let start = match offset.checked_add(self.index_start) {
            Some(start) => start,
            None => {
                return Err(FileReadError::Other("failed to fill whole buffer".to_owned()));
            },
        };
        if start > len || self.index_size > len - start {
            return Err(FileReadError::Other("failed to fill whole buffer".to_owned()));
        }
        let stored = slice_subrange(archive, start as usize, (start + self.index_size) as usize);
        let actual = checksum(stored);
        self.open_stored(stored, actual)
    }

    /// Checks this file as `read_file` reads it, and drops the content.
    pub fn is_valid(&self, archive: &[u8], offset: u64) -> (outcome: Result<(), FileReadError>)
        ensures
            match outcome {
                Ok(()) => checked(read_at(self.meta(), archive@, offset as int)) == Ok::<
                    _,
                    FileReadErrorView,
                >(()),
                Err(e) => checked(read_at(self.meta(), archive@, offset as int)) == Err::<(), _>(
                    e@,
                ),
            },
    {
        match self.read_file(archive, offset) {
            Ok(_) => Ok(()),
            Err(e) => Err(e),
        }
    }
}

impl QZArchive {
    /// The handle of an opened archive. A header whose root is no directory
    /// is refused.
    pub fn new(archive_file: &str, header_size: u64, header: QZArchiveHeader) -> (outcome: Result<
        QZArchive,
        ReadError,
    >)
        ensures
            match outcome {
                Ok(archive) => {
                    &&& header@.root is Dir
                    &&& archive@.archive_file == archive_file@
                    &&& archive@.header_size == header_size
                    &&& archive@.header == header@
                },
                Err(e) => header@.root is File && e@ == bad_root(),
            },
    {
        match &header.root {
            QZEntry::Dir(_) => Ok(
                QZArchive { archive_file: archive_file.to_owned(), header_size, header },
            ),
            QZEntry::File(_) => Err(ReadError::new("failed to decode header")),
        }
    }

    /// Walks the components from `idx` on, starting at `current`.
    fn _get_entry<'a>(components: &Vec<String>, idx: usize, current: &'a QZEntry) -> (outcome:
        Result<&'a QZEntry, EntryError>)
        requires
            idx <= components.len(),
        ensures
            match outcome {
                Ok(entry) => resolve(current@, texts(components@).skip(idx as int)) == Ok::<
                    _,
                    EntryErrorView,
                >(entry@),
                Err(e) => resolve(current@, texts(components@).skip(idx as int)) == Err::<
                    Node<FileMeta>,
                    _,
                >(e@),
            },
        decreases components.len() - idx,
    {
        let ghost rest = texts(components@).skip(idx as int);
        if idx >= components.len() {
            return Ok(current);
        }
        assert(rest[0] == components[idx as int]@);
        assert(rest.drop_first() =~= texts(components@).skip(idx + 1));
        match current {
            QZEntry::File(_) => Err(EntryError::Other("File is not a Directory".to_owned())),
            QZEntry::Dir(current_dir) => {
                let wanted = &components[idx];
                if !plain_name(wanted.as_str()) {
                    return Err(EntryError::PathError);
                }
                let ghost children = nodes(current_dir.content@);
                let mut i: usize = 0;
                while i < current_dir.content.len()
                    invariant
                        i <= current_dir.content.len(),
                        idx < components.len(),
                        wanted@ == rest[0],
                        is_plain_name(rest[0]),
                        rest == texts(components@).skip(idx as int),
                        rest.drop_first() == texts(components@).skip(idx + 1),
                        current@ == (Node::Dir { name: current_dir.name@, content: children }),
                        children == nodes(current_dir.content@),
                        first_match(children, wanted@, 0) == first_match(children, wanted@, i as int),
                    decreases current_dir.content.len() - i,
                {
                    assert(children[i as int] == current_dir.content[i as int]@);
                    if *current_dir.content[i].name() == *wanted {
                        return Self::_get_entry(components, idx + 1, &current_dir.content[i]);
                    }
                    i = i + 1;
                }
                Err(EntryError::NothingFound)
            },
        }
    }

    /// The entry at `path`, by reference.
    fn locate(&self, path: &str) -> (outcome: Result<&QZEntry, EntryError>)
        ensures
            match outcome {
                Ok(entry) => lookup(self@.header.root, path@) == Ok::<_, EntryErrorView>(entry@),
                Err(e) => lookup(self@.header.root, path@) == Err::<Node<FileMeta>, _>(e@),
            },
    {
        if !starts_at_root(path) {
            return Err(EntryError::Other("not rooted".to_owned()));
        }
        let parts = split_path(path);
        assert(texts(parts@).skip(0) =~= texts(parts@));
        Self::_get_entry(&parts, 0, &self.header.root)
    }

    /// The entry at `path`.
    pub fn get_entry(&self, path: &str) -> (outcome: Result<QZEntry, EntryError>)
        ensures
            match outcome {
                Ok(entry) => lookup(self@.header.root, path@) == Ok::<_, EntryErrorView>(entry@),
                Err(e) => lookup(self@.header.root, path@) == Err::<Node<FileMeta>, _>(e@),
            },
    {
        match self.locate(path) {
            Ok(entry) => Ok(entry.clone()),
            Err(e) => Err(e),
        }
    }

    /// The names of the children of the directory at `path`, in order.
    pub fn ls(&self, path: &str) -> (outcome: Result<Vec<String>, ListingError>)
        ensures
            match outcome {
                Ok(content) => listing(self@.header.root, path@) == Ok::<_, ListingErrorView>(
                    texts(content@),
                ),
                Err(e) => listing(self@.header.root, path@) == Err::<Seq<Seq<char>>, _>(e@),
            },
            lookup(self@.header.root, path@) is Ok && lookup(self@.header.root, path@)->Ok_0 is File
                ==> outcome == Err::<Vec<String>, _>(ListingError::IsFile),
            lookup(self@.header.root, path@) == Err::<Node<FileMeta>, _>(
                EntryErrorView::NothingFound,
            ) ==> outcome == Err::<Vec<String>, _>(ListingError::NothingFound),
    {
        match self.locate(path) {
            Ok(QZEntry::Dir(d)) => {
                let ghost children = nodes(d.content@);
                let mut content: Vec<String> = Vec::new();
                let mut i: usize = 0;
                while i < d.content.len()
                    invariant
                        i <= d.content.len(),
                        content.len() == i,
                        children == nodes(d.content@),
                        forall|j: int| 0 <= j < i ==> content[j]@ == children[j].name(),
                    decreases d.content.len() - i,
                {
                    assert(children[i as int] == d.content[i as int]@);
                    content.push(d.content[i].name().clone());
                    i = i + 1;
                }
                assert(texts(content@) =~= names(children));
                Ok(content)
            },
            Ok(QZEntry::File(_)) => Err(ListingError::IsFile),
            Err(e) => Err(ListingError::from_entry_error(e)),
        }
    }

    /// The content of the file at `path`, read from `archive`, the bytes of
    /// the archive file: the stored bytes are checked against the recorded
    /// checksum, then decoded.
    pub fn read_file(&self, path: &str, archive: &[u8]) -> (outcome: Result<Vec<u8>, FileReadError>)
        ensures
            match outcome {
                Ok(plain) => read_path(self@.header.root, self@.header_size, path@, archive@)
                    == Ok::<_, FileReadErrorView>(plain@),
                Err(e) => read_path(self@.header.root, self@.header_size, path@, archive@) == Err::<
                    Seq<u8>,
                    _,
                >(e@),
            },
            lookup(self@.header.root, path@) is Ok && lookup(self@.header.root, path@)->Ok_0 is Dir
                ==> outcome == Err::<Vec<u8>, _>(FileReadError::NotAFile),
            lookup(self@.header.root, path@) is Err ==> outcome == Err::<Vec<u8>, _>(
                FileReadError::NotFound,
            ),
    {
        match self.locate(path) {
            Ok(QZEntry::File(f)) => match self.header_size.checked_add(8) {
                Some(offset) => f.read_file(archive, offset),
                None => {
                    let len = archive.len();
                    Err(FileReadError::Other("failed to fill whole buffer".to_owned()))
                },
            },
            Ok(QZEntry::Dir(_)) => Err(FileReadError::NotAFile),
            Err(_) => Err(FileReadError::NotFound),
        }
    }

    /// Checks the file at `path` as `read_file` reads it, and drops the
    /// content.
    pub fn check_file(&self, path: &str, archive: &[u8]) -> (outcome: Result<(), FileReadError>)
        ensures
            match outcome {
                Ok(()) => checked(
                    read_path(self@.header.root, self@.header_size, path@, archive@),
                ) == Ok::<_, FileReadErrorView>(()),
                Err(e) => checked(
                    read_path(self@.header.root, self@.header_size, path@, archive@),
                ) == Err::<(), _>(e@),
            },
            lookup(self@.header.root, path@) is Ok && lookup(self@.header.root, path@)->Ok_0 is Dir
                ==> outcome == Err::<(), _>(FileReadError::NotAFile),
            lookup(self@.header.root, path@) is Err ==> outcome == Err::<(), _>(
                FileReadError::NotFound,
            ),
    {
        match self.read_file(path, archive) {
            Ok(_) => Ok(()),
            Err(e) => Err(e),
        }
    }
}

} // verus!
