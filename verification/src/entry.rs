//! The entries of an archive's tree.

use crate::codec::CompressionAlgo;
use crate::tree::Node;
use vstd::prelude::*;

verus! {

/// Where and how a file's bytes are stored in the content region.
pub struct FileMeta {
    pub compression: CompressionAlgo,
    /// CRC-32 of the stored bytes.
    pub checksum: u32,
    /// Offset of the stored bytes from the start of the content region.
    pub index_start: u64,
    /// Number of stored bytes.
    pub index_size: u64,
}

/// A file of the archive.
#[derive(Debug, PartialEq, Eq)]
pub struct QZFile {
    pub name: String,
    pub compression: CompressionAlgo,
    pub checksum: u32,
    pub index_start: u64,
    pub index_size: u64,
}

/// A directory of the archive, with its children in the order of the scan.
#[derive(Debug, PartialEq, Eq)]
pub struct QZDir {
    pub name: String,
    pub content: Vec<QZEntry>,
}

/// A node of the archive's tree.
#[derive(Debug, PartialEq, Eq)]
pub enum QZEntry {
    Dir(QZDir),
    File(QZFile),
}

/// The nodes that a sequence of entries stands for.
pub open spec fn nodes(entries: Seq<QZEntry>) -> Seq<Node<FileMeta>>
    decreases entries,
{
    Seq::new(
        entries.len(),
        |i: int|
            if 0 <= i < entries.len() {
                entries[i]@
            } else {
                arbitrary()
            },
    )
}

impl QZFile {
    /// The file's storage metadata.
    pub open spec fn meta(&self) -> FileMeta {
        FileMeta {
            compression: self.compression,
            checksum: self.checksum,
            index_start: self.index_start,
            index_size: self.index_size,
        }
    }
}

impl View for QZFile {
    type V = Node<FileMeta>;

    open spec fn view(&self) -> Node<FileMeta> {
        Node::File { name: self.name@, meta: self.meta() }
    }
}

impl View for QZDir {
    type V = Node<FileMeta>;

    open spec fn view(&self) -> Node<FileMeta>
        decreases self,
    {
        Node::Dir { name: self.name@, content: nodes(self.content@) }
    }
}

impl View for QZEntry {
    type V = Node<FileMeta>;

    open spec fn view(&self) -> Node<FileMeta>
        decreases self,
    {
        match self {
            QZEntry::Dir(d) => d@,
            QZEntry::File(f) => f@,
        }
    }
}

impl Clone for QZFile {
    fn clone(&self) -> (copy: QZFile)
        ensures
            copy@ == self@,
    {
        QZFile {
            name: self.name.clone(),
            compression: self.compression,
            checksum: self.checksum,
            index_start: self.index_start,
            index_size: self.index_size,
        }
    }
}

impl Clone for QZDir {
    fn clone(&self) -> (copy: QZDir)
        ensures
            copy@ == self@,
        decreases self,
    {
        let mut content: Vec<QZEntry> = Vec::new();
        let mut i: usize = 0;
        while i < self.content.len()
            invariant
                i <= self.content.len(),
                content.len() == i,
                forall|j: int| 0 <= j < i ==> content[j]@ == self.content[j]@,
            decreases self.content.len() - i,
        {
            content.push(self.content[i].clone());
            i = i + 1;
        }
        assert(nodes(content@) =~= nodes(self.content@));
        QZDir { name: self.name.clone(), content }
    }
}

impl Clone for QZEntry {
    fn clone(&self) -> (copy: QZEntry)
        ensures
            copy@ == self@,
        decreases self,
    {
        match self {
            QZEntry::Dir(d) => QZEntry::Dir(d.clone()),
            QZEntry::File(f) => QZEntry::File(f.clone()),
        }
    }
}

impl QZEntry {
    /// The entry's own name.
    pub fn name(&self) -> (name: &String)
        ensures
            name@ == self@.name(),
    {
        match self {
            QZEntry::Dir(d) => &d.name,
            QZEntry::File(f) => &f.name,
        }
    }
}

} // verus!
