//! The mathematical model of a directory tree and of path resolution in it.

use crate::errors::{listing_failure, EntryErrorView, ListingErrorView};
use crate::path::{components, is_plain_name, is_rooted};
use vstd::prelude::*;

verus! {

/// A named tree: a directory holds an ordered sequence of nodes, a file holds a
/// payload of type `T`.
pub enum Node<T> {
    Dir { name: Seq<char>, content: Seq<Node<T>> },
    File { name: Seq<char>, meta: T },
}

impl<T> Node<T> {
    /// The node's own name.
    pub open spec fn name(self) -> Seq<char> {
        match self {
            Node::Dir { name, .. } => name,
            Node::File { name, .. } => name,
        }
    }
}

/// The names of `content`, in order.
pub open spec fn names<T>(content: Seq<Node<T>>) -> Seq<Seq<char>> {
    Seq::new(content.len(), |i: int| content[i].name())
}

/// The message of the failure on a path that does not begin at the root.
pub open spec fn not_rooted() -> Seq<char> {
    "not rooted"@
}

/// The message of the failure on a path that continues below a file.
pub open spec fn not_a_directory() -> Seq<char> {
    "File is not a Directory"@
}

/// Two trees have the same shape and the same names.
pub open spec fn mirrors<T, U>(a: Node<T>, b: Node<U>) -> bool
    decreases a,
{
    match (a, b) {
        (Node::File { name: x, .. }, Node::File { name: y, .. }) => x == y,
        (Node::Dir { name: x, content: xs }, Node::Dir { name: y, content: ys }) => {
            &&& x == y
            &&& xs.len() == ys.len()
            &&& forall|i: int| 0 <= i < xs.len() ==> mirrors(#[trigger] xs[i], ys[i])
        },
        _ => false,
    }
}

/// The index of the first node at or after `from` that is called `name`.
pub open spec fn first_match<T>(content: Seq<Node<T>>, name: Seq<char>, from: int) -> Option<int>
    decreases content.len() - from,
{
    if from < 0 || from >= content.len() {
        None
    } else if content[from].name() == name {
        Some(from)
    } else {
        first_match(content, name, from + 1)
    }
}

/// The node that `components` lead to from `node`. With no component left it is
/// `node` itself; otherwise `node` has to be a directory, the next component a
/// plain name, and the walk goes on in the first child of that name.
pub open spec fn resolve<T>(node: Node<T>, components: Seq<Seq<char>>) -> Result<
    Node<T>,
    EntryErrorView,
>
    decreases components.len(),
{
    if components.len() == 0 {
        Ok(node)
    } else {
        match node {
            Node::File { .. } => Err(EntryErrorView::Other(not_a_directory())),
            Node::Dir { content, .. } => {
                if !is_plain_name(components[0]) {
                    Err(EntryErrorView::PathError)
                } else {
                    match first_match(content, components[0], 0) {
                        None => Err(EntryErrorView::NothingFound),
                        Some(i) => resolve(content[i], components.drop_first()),
                    }
                }
            },
        }
    }
}

/// The node at `path` below `root`: the path has to begin with a slash, and
/// its components are resolved from `root`.
pub open spec fn lookup<T>(root: Node<T>, path: Seq<char>) -> Result<Node<T>, EntryErrorView> {
    if is_rooted(path) {
        resolve(root, components(path))
    } else {
        Err(EntryErrorView::Other(not_rooted()))
    }
}

/// The names of the children of the directory at `path` below `root`, in order.
pub open spec fn listing<T>(root: Node<T>, path: Seq<char>) -> Result<
    Seq<Seq<char>>,
    ListingErrorView,
> {
    match lookup(root, path) {
        Ok(Node::Dir { content, .. }) => Ok(names(content)),
        Ok(Node::File { .. }) => Err(ListingErrorView::IsFile),
        Err(e) => Err(listing_failure(e)),
    }
}

} // verus!
