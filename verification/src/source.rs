//! A directory tree to be packed, with the content of its files.

use crate::tree::Node;
use vstd::prelude::*;

verus! {

/// A file to be packed.
#[derive(Debug, PartialEq, Eq)]
pub struct SourceFile {
    pub name: String,
    pub data: Vec<u8>,
}

/// A directory to be packed, with its children in the order of the scan.
#[derive(Debug, PartialEq, Eq)]
pub struct SourceDir {
    pub name: String,
    pub content: Vec<SourceEntry>,
}

/// A node of the tree to be packed.
#[derive(Debug, PartialEq, Eq)]
pub enum SourceEntry {
    Dir(SourceDir),
    File(SourceFile),
}

/// The nodes that a sequence of source entries stands for.
pub open spec fn source_nodes(entries: Seq<SourceEntry>) -> Seq<Node<Seq<u8>>>
    decreases entries,
{
    Seq::new(
        entries.len(),
        |i: int|
            if 0 <= i < entries.len() {
                entries[i]@
            } else {
                arbitrary()
            },
    )
}

impl View for SourceFile {
    type V = Node<Seq<u8>>;

    open spec fn view(&self) -> Node<Seq<u8>> {
        Node::File { name: self.name@, meta: self.data@ }
    }
}

impl View for SourceDir {
    type V = Node<Seq<u8>>;

    open spec fn view(&self) -> Node<Seq<u8>>
        decreases self,
    {
        Node::Dir { name: self.name@, content: source_nodes(self.content@) }
    }
}

impl View for SourceEntry {
    type V = Node<Seq<u8>>;

    open spec fn view(&self) -> Node<Seq<u8>>
        decreases self,
    {
        match self {
            SourceEntry::Dir(d) => d@,
            SourceEntry::File(f) => f@,
        }
    }
}

} // verus!
