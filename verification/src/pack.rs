//! Packing a source tree: the entry tree and the content region.

use crate::archive::QZArchiveHeader;
use crate::codec::{checksum, crc32, decoded, encode, CompressionAlgo};
use crate::entry::{nodes, FileMeta, QZDir, QZEntry, QZFile};
use crate::errors::{FileReadError, FileReadErrorView};
use crate::source::{source_nodes, SourceDir, SourceEntry};
use crate::tree::{mirrors, Node};
use vstd::prelude::*;

verus! {

/// The format version that new archives carry.
pub const VERSION: &'static str = "0.1.0";

/// The metadata of a file that is not stored yet.
pub open spec fn unstored(compression: CompressionAlgo) -> FileMeta {
    FileMeta { compression, checksum: 0, index_start: 0, index_size: 0 }
}

/// The tree of `source` before anything is stored: the same names in the same
/// order, every file with the chosen compression and no storage yet.
pub open spec fn placeholder(source: Node<Seq<u8>>, compression: CompressionAlgo) -> Node<FileMeta>
    decreases source,
{
    match source {
        Node::File { name, .. } => Node::File { name, meta: unstored(compression) },
        Node::Dir { name, content } => Node::Dir {
            name,
            content: Seq::new(
                content.len(),
                |i: int|
                    if 0 <= i < content.len() {
                        placeholder(content[i], compression)
                    } else {
                        arbitrary()
                    },
            ),
        },
    }
}

/// Two entry trees have the same shape and names, and their files the same
/// compression.
pub open spec fn same_settings(a: Node<FileMeta>, b: Node<FileMeta>) -> bool
    decreases a,
{
    match (a, b) {
        (Node::File { name: x, meta: m }, Node::File { name: y, meta: n }) => x == y
            && m.compression == n.compression,
        (Node::Dir { name: x, content: xs }, Node::Dir { name: y, content: ys }) => {
            &&& x == y
            &&& xs.len() == ys.len()
            &&& forall|i: int| 0 <= i < xs.len() ==> same_settings(#[trigger] xs[i], ys[i])
        },
        _ => false,
    }
}

/// Some file below `node` is compressed with `algo`.
pub open spec fn uses(node: Node<FileMeta>, algo: CompressionAlgo) -> bool
    decreases node,
{
    match node {
        Node::File { meta, .. } => meta.compression == algo,
        Node::Dir { content, .. } => exists|i: int|
            0 <= i < content.len() && uses(#[trigger] content[i], algo),
    }
}

/// Some file below `node` is compressed, so that storing it can fail.
pub open spec fn compresses(node: Node<FileMeta>) -> bool {
    uses(node, CompressionAlgo::ZSTD) || uses(node, CompressionAlgo::LZ4)
}

/// The number of stored bytes of all files below `node`.
pub open spec fn stored_size(node: Node<FileMeta>) -> nat
    decreases node,
{
    match node {
        Node::File { meta, .. } => meta.index_size as nat,
        Node::Dir { content, .. } => stored_sizes(content, content.len() as int),
    }
}

/// The number of stored bytes of all files below the first `n` of `content`.
pub open spec fn stored_sizes(content: Seq<Node<FileMeta>>, n: int) -> nat
    decreases content, n,
{
    if n <= 0 || n > content.len() {
        0
    } else {
        stored_sizes(content, n - 1) + stored_size(content[n - 1])
    }
}

/// Where the stored bytes of child `i` begin, when those of the first begin at
/// `base`: children are stored one after the other.
pub open spec fn child_base(content: Seq<Node<FileMeta>>, base: int, i: int) -> int {
    base + stored_sizes(content, i)
}

/// `entry` stores `source` in `region`, from offset `base` on. A file's stored
/// bytes begin at `base`, lie within the region, hash to the recorded checksum
/// and stand for the source file's content. A directory's children are stored
/// one after the other, in order.
pub open spec fn stores(
    entry: Node<FileMeta>,
    source: Node<Seq<u8>>,
    region: Seq<u8>,
    base: int,
) -> bool
    decreases entry,
{
    match (entry, source) {
        (Node::File { name, meta }, Node::File { name: source_name, meta: data }) => {
            let stored = region.subrange(base, base + meta.index_size);
            &&& name == source_name
            &&& meta.index_start == base
            &&& base + meta.index_size <= region.len()
            &&& meta.checksum == crc32(stored)
            &&& decoded(meta.compression, stored) == Some(data)
        },
        (Node::Dir { name, content }, Node::Dir { name: source_name, content: sources }) => {
            &&& name == source_name
            &&& content.len() == sources.len()
            &&& forall|i: int|
                0 <= i < content.len() ==> stores(
                    #[trigger] content[i],
                    sources[i],
                    region,
                    child_base(content, base, i),
                )
        },
        _ => false,
    }
}

/// First pass: the entry tree of `source`, every file with the chosen
/// compression and nothing stored yet.
pub fn pack_dir(source: &SourceDir, compression: CompressionAlgo) -> (root: QZEntry)
    ensures
        root@ == placeholder(source@, compression),
    decreases source,
{
    let mut content: Vec<QZEntry> = Vec::new();
    let mut i: usize = 0;
    while i < source.content.len()
        invariant
            i <= source.content.len(),
            content.len() == i,
            forall|j: int|
                0 <= j < i ==> content[j]@ == placeholder(source.content[j]@, compression),
        decreases source.content.len() - i,
    {
        let entry = match &source.content[i] {
            SourceEntry::File(f) => QZEntry::File(
                QZFile {
                    name: f.name.clone(),
                    compression,
                    checksum: 0,
                    index_start: 0,
                    index_size: 0,
                },
            ),
            SourceEntry::Dir(d) => pack_dir(d, compression),
        };
        content.push(entry);
        i = i + 1;
    }
    let root = QZEntry::Dir(QZDir { name: source.name.clone(), content });
    proof {
        let sources = source_nodes(source.content@);
        let expected = placeholder(source@, compression);
        assert(source@ == Node::Dir { name: source.name@, content: sources });
        assert(expected->content.len() == sources.len());
        assert forall|j: int| 0 <= j < sources.len() implies root@->content[j]
            == expected->content[j] by {
            assert(sources[j] == source.content[j]@);
        }
        assert(root@->content =~= expected->content);
    }
    root
}

/// Records in `f` where and how `stored` is kept, and appends it to the
/// content region.
pub fn store_file(f: &mut QZFile, stored: &[u8], f_content: &mut Vec<u8>)
    ensures
        final(f).name == old(f).name,
        final(f).compression == old(f).compression,
        final(f).index_start == old(f_content)@.len(),
        final(f).checksum == crc32(stored@),
        final(f).index_size == stored@.len(),
        final(f_content)@ == old(f_content)@ + stored@,
{
    f.index_start = f_content.len() as u64;
    f.checksum = checksum(stored);
    f.index_size = stored.len() as u64;
    f_content.extend_from_slice(stored);
}

/// The stored bytes of the first `n` children depend on those children alone.
proof fn lemma_stored_sizes_agree(a: Seq<Node<FileMeta>>, b: Seq<Node<FileMeta>>, n: int)
    requires
        0 <= n <= a.len(),
        n <= b.len(),
        forall|j: int| 0 <= j < n ==> a[j] == b[j],
    ensures
        stored_sizes(a, n) == stored_sizes(b, n),
    decreases n,
{
    if n > 0 {
        lemma_stored_sizes_agree(a, b, n - 1);
    }
}

/// What a region stores, it still stores after bytes are appended to it.
pub proof fn lemma_stores_extends(
    entry: Node<FileMeta>,
    source: Node<Seq<u8>>,
    region: Seq<u8>,
    longer: Seq<u8>,
    base: int,
)
    requires
        stores(entry, source, region, base),
        0 <= base,
        region.len() <= longer.len(),
        longer.subrange(0, region.len() as int) == region,
    ensures
        stores(entry, source, longer, base),
    decreases entry,
{
    match (entry, source) {
        (Node::File { name, meta }, Node::File { .. }) => {
            assert forall|p: int| 0 <= p < region.len() implies #[trigger] longer[p]
                == region[p] by {
                assert(longer.subrange(0, region.len() as int)[p] == longer[p]);
            }
            assert(longer.subrange(base, base + meta.index_size) =~= region.subrange(
                base,
                base + meta.index_size,
            ));
        },
        (Node::Dir { name, content }, Node::Dir { name: source_name, content: sources }) => {
            assert forall|i: int| 0 <= i < content.len() implies stores(
                #[trigger] content[i],
                sources[i],
                longer,
                child_base(content, base, i),
            ) by {
                lemma_stores_extends(
                    content[i],
                    sources[i],
                    region,
                    longer,
                    child_base(content, base, i),
                );
            }
        },
        _ => {},
    }
}

/// The placeholder tree of a source has the source's shape and names.
proof fn lemma_placeholder_mirrors(source: Node<Seq<u8>>, compression: CompressionAlgo)
    ensures
        mirrors(placeholder(source, compression), source),
    decreases source,
{
    match source {
        Node::File { .. } => {},
        Node::Dir { content, .. } => {
            let made = placeholder(source, compression)->content;
            assert forall|i: int| 0 <= i < made.len() implies mirrors(
                #[trigger] made[i],
                content[i],
            ) by {
                lemma_placeholder_mirrors(content[i], compression);
            }
        },
    }
}

/// Stores one entry at the end of the content region: a file's content
/// encoded with the file's compression, a directory's children in order.
fn store_entry(entry: &mut QZEntry, source: &SourceEntry, f_content: &mut Vec<u8>) -> (outcome:
    Result<(), FileReadError>)
    requires
        mirrors(old(entry)@, source@),
    ensures
        outcome is Ok ==> {
            &&& stores(final(entry)@, source@, final(f_content)@, old(f_content)@.len() as int)
            &&& final(f_content)@.len() == old(f_content)@.len() + stored_size(final(entry)@)
            &&& final(f_content)@.subrange(0, old(f_content)@.len() as int) == old(f_content)@
            &&& same_settings(final(entry)@, old(entry)@)
        },
        outcome matches Err(e) ==> e@ == FileReadErrorView::CompressionError && compresses(
            old(entry)@,
        ),
    decreases *old(entry),
{
    let ghost filled = f_content@;
    match entry {
        QZEntry::Dir(d) => match source {
            SourceEntry::Dir(below) => write_files_dir(d, below, f_content),
            SourceEntry::File(_) => Ok(()),
        },
        QZEntry::File(f) => match source {
            SourceEntry::File(plain) => match encode(plain.data.as_slice(), f.compression) {
                Ok(stored) => {
                    store_file(f, stored.as_slice(), f_content);
                    assert(f_content@.subrange(
                        filled.len() as int,
                        (filled.len() + stored@.len()) as int,
                    ) =~= stored@);
                    assert(f_content@.subrange(0, filled.len() as int) =~= filled);
                    Ok(())
                },
                Err(e) => Err(e),
            },
            SourceEntry::Dir(_) => Ok(()),
        },
    }
}

/// The first `i` children of `now` are stored in `region` from `base` on, one
/// after the other up to the region's end, with the settings of `initial`.
#[verifier::opaque]
spec fn children_stored(
    now: Seq<Node<FileMeta>>,
    initial: Seq<Node<FileMeta>>,
    sources: Seq<Node<Seq<u8>>>,
    region: Seq<u8>,
    base: int,
    i: int,
) -> bool {
    &&& forall|j: int|
        0 <= j < i ==> stores(#[trigger] now[j], sources[j], region, child_base(now, base, j))
    &&& forall|j: int| 0 <= j < i ==> same_settings(#[trigger] now[j], initial[j])
    &&& region.len() == child_base(now, base, i)
}

/// Storing child `i` at the end of the region leaves the children before it
/// stored as they were.
proof fn lemma_child_stored(
    was: Seq<Node<FileMeta>>,
    now: Seq<Node<FileMeta>>,
    initial: Seq<Node<FileMeta>>,
    sources: Seq<Node<Seq<u8>>>,
    filled: Seq<u8>,
    longer: Seq<u8>,
    base: int,
    i: int,
)
    requires
        0 <= base,
        0 <= i < was.len(),
        was.len() == now.len(),
        children_stored(was, initial, sources, filled, base, i),
        forall|j: int| 0 <= j < i ==> now[j] == was[j],
        stores(now[i], sources[i], longer, filled.len() as int),
        same_settings(now[i], initial[i]),
        longer.len() == filled.len() + stored_size(now[i]),
        longer.subrange(0, filled.len() as int) == filled,
    ensures
        children_stored(now, initial, sources, longer, base, i + 1),
{
    reveal(children_stored);
    lemma_stored_sizes_agree(now, was, i);
    assert forall|j: int| 0 <= j < i + 1 implies stores(
        #[trigger] now[j],
        sources[j],
        longer,
        child_base(now, base, j),
    ) by {
        if j < i {
            lemma_stored_sizes_agree(now, was, j);
            assert(stores(was[j], sources[j], filled, child_base(was, base, j)));
            lemma_stores_extends(was[j], sources[j], filled, longer, child_base(was, base, j));
        }
    }
}

/// Second pass: stores every file below `d`, in order, at the end of the
/// content region, and records in the tree where and how.
fn write_files_dir(d: &mut QZDir, source: &SourceDir, f_content: &mut Vec<u8>) -> (outcome:
    Result<(), FileReadError>)
    requires
        mirrors(old(d)@, source@),
    ensures
        outcome is Ok ==> {
            &&& stores(final(d)@, source@, final(f_content)@, old(f_content)@.len() as int)
            &&& final(f_content)@.len() == old(f_content)@.len() + stored_size(final(d)@)
            &&& final(f_content)@.subrange(0, old(f_content)@.len() as int) == old(f_content)@
            &&& same_settings(final(d)@, old(d)@)
        },
        outcome matches Err(e) ==> e@ == FileReadErrorView::CompressionError && compresses(
            old(d)@,
        ),
    decreases *old(d),
{
    let n = d.content.len();
    let ghost before = *d;
    let ghost initial = nodes(d.content@);
    let ghost region = f_content@;
    let ghost base = f_content@.len() as int;
    let ghost sources = source_nodes(source.content@);
    let mut i: usize = 0;
    assert(before@ == Node::Dir { name: before.name@, content: initial });
    assert(source@ == Node::Dir { name: source.name@, content: sources });
    assert(children_stored(initial, initial, sources, region, base, 0)) by {
        reveal(children_stored);
    }
    while i < n
        invariant
            i <= n,
            n == d.content.len(),
            n == before.content.len(),
            n == source.content.len(),
            d.name == before.name,
            before == *old(d),
            old(d)@ == (Node::Dir { name: before.name@, content: initial }),
            initial == nodes(before.content@),
            sources == source_nodes(source.content@),
            base == region.len(),
            base <= f_content@.len(),
            forall|j: int| i <= j < n ==> d.content[j] == before.content[j],
            forall|j: int| 0 <= j < n ==> mirrors(#[trigger] initial[j], sources[j]),
            children_stored(nodes(d.content@), initial, sources, f_content@, base, i as int),
            f_content@.subrange(0, base) == region,
        decreases n - i,
    {
        let ghost was = nodes(d.content@);
        let ghost filled = f_content@;
        assert(mirrors(initial[i as int], sources[i as int]));
        assert(sources[i as int] == source.content[i as int]@);
        assert(initial[i as int] == d.content[i as int]@);
        match store_entry(&mut d.content[i], &source.content[i], f_content) {
            Ok(()) => {},
            Err(e) => {
                assert(compresses(old(d)@)) by {
                    let failed = old(d)@->content[i as int];
                    if uses(failed, CompressionAlgo::ZSTD) {
                        assert(uses(old(d)@, CompressionAlgo::ZSTD));
                    } else {
                        assert(uses(failed, CompressionAlgo::LZ4));
                        assert(uses(old(d)@, CompressionAlgo::LZ4));
                    }
                }
                return Err(e);
            },
        }
        proof {
            let now = nodes(d.content@);
            assert(now[i as int] == d.content[i as int]@);
            assert(filled.len() == child_base(was, base, i as int)) by {
                reveal(children_stored);
            }
            assert(f_content@.subrange(0, base) =~= region);
            assert forall|j: int| 0 <= j < i implies now[j] == was[j] by {}
            lemma_child_stored(
                was,
                now,
                initial,
                sources,
                filled,
                f_content@,
                base,
                i as int,
            );
        }
        i = i + 1;
    }
    proof {
        reveal(children_stored);
        assert(d@ == Node::Dir { name: d.name@, content: nodes(d.content@) });
    }
    Ok(())
}

/// A placeholder tree uses no compression but the chosen one.
proof fn lemma_placeholder_uses(
    source: Node<Seq<u8>>,
    compression: CompressionAlgo,
    algo: CompressionAlgo,
)
    requires
        uses(placeholder(source, compression), algo),
    ensures
        algo == compression,
    decreases source,
{
    match source {
        Node::File { .. } => {},
        Node::Dir { content, .. } => {
            let made = placeholder(source, compression)->content;
            let i = choose|i: int| 0 <= i < made.len() && uses(#[trigger] made[i], algo);
            lemma_placeholder_uses(content[i], compression, algo);
        },
    }
}

/// Packs `source`: builds the entry tree, stores every file with the chosen
/// compression, and returns the header with the content region. Every file
/// is stored where the tree says, one after the other in the order of the
/// tree, and its stored bytes stand for its content. It fails only where a
/// file is to be compressed.
pub fn create_archive(
    source: &SourceDir,
    name: &str,
    description: &str,
    compression: CompressionAlgo,
) -> (outcome: Result<(QZArchiveHeader, Vec<u8>), FileReadError>)
    ensures
        outcome matches Ok((header, files_content)) ==> {
            &&& header@.name == name@
            &&& header@.info == description@
            &&& header@.version == VERSION@
            &&& same_settings(header@.root, placeholder(source@, compression))
            &&& stores(header@.root, source@, files_content@, 0)
            &&& files_content@.len() == stored_size(header@.root)
        },
        outcome matches Err(e) ==> e@ == FileReadErrorView::CompressionError,
        outcome is Err ==> compresses(placeholder(source@, compression)),
        compression == CompressionAlgo::NONE ==> outcome is Ok,
{
    let mut root = pack_dir(source, compression);
    let mut files_content: Vec<u8> = Vec::new();
    proof {
        lemma_placeholder_mirrors(source@, compression);
        if uses(root@, CompressionAlgo::ZSTD) {
            lemma_placeholder_uses(source@, compression, CompressionAlgo::ZSTD);
        }
        if uses(root@, CompressionAlgo::LZ4) {
            lemma_placeholder_uses(source@, compression, CompressionAlgo::LZ4);
        }
    }
    let stored = match &mut root {
        QZEntry::Dir(d) => write_files_dir(d, source, &mut files_content),
        QZEntry::File(_) => Ok(()),
    };
    match stored {
        Ok(()) => Ok(
            (
                QZArchiveHeader {
                    name: name.to_owned(),
                    info: description.to_owned(),
                    version: VERSION.to_owned(),
                    root,
                },
                files_content,
            ),
        ),
        Err(e) => Err(e),
    }
}

} // verus!
