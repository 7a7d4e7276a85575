//! What holds of packing, opening and reading together.

use crate::archive::{checked, content_offset, read_path, stored_region};
use crate::codec::{crc32, lemma_crc32_tells_one_byte, zstd_decoded};
use crate::entry::FileMeta;
use crate::errors::FileReadErrorView;
use crate::format::{header_of, layout, lemma_size_round_trip, size_bytes, ByteOrder};
use crate::pack::{child_base, stored_size, stored_sizes, stores};
use crate::path::components;
use crate::tree::{first_match, listing, lookup, mirrors, names, resolve, Node};
use vstd::prelude::*;

verus! {

/// What is stored for a source has the source's shape and names.
pub proof fn lemma_stores_mirrors(
    entry: Node<FileMeta>,
    source: Node<Seq<u8>>,
    region: Seq<u8>,
    base: int,
)
    requires
        stores(entry, source, region, base),
    ensures
        mirrors(entry, source),
    decreases entry,
{
    match (entry, source) {
        (Node::Dir { content, .. }, Node::Dir { content: sources, .. }) => {
            assert forall|i: int| 0 <= i < content.len() implies mirrors(
                #[trigger] content[i],
                sources[i],
            ) by {
                lemma_stores_mirrors(content[i], sources[i], region, child_base(content, base, i));
            }
        },
        _ => {},
    }
}

/// In two sequences of nodes with the same names, the same child is the first
/// of a given name.
pub proof fn lemma_first_match_mirrors<T, U>(
    xs: Seq<Node<T>>,
    ys: Seq<Node<U>>,
    name: Seq<char>,
    from: int,
)
    requires
        xs.len() == ys.len(),
        forall|i: int| 0 <= i < xs.len() ==> mirrors(#[trigger] xs[i], ys[i]),
    ensures
        first_match(xs, name, from) == first_match(ys, name, from),
    decreases xs.len() - from,
{
    if 0 <= from < xs.len() {
        assert(mirrors(xs[from], ys[from]));
        if xs[from].name() != name {
            lemma_first_match_mirrors(xs, ys, name, from + 1);
        }
    }
}

/// Resolution in two trees of the same shape and names goes the same way: it
/// fails alike, or it ends in nodes of the same shape and names.
pub proof fn lemma_resolve_mirrors<T, U>(a: Node<T>, b: Node<U>, components: Seq<Seq<char>>)
    requires
        mirrors(a, b),
    ensures
        match (resolve(a, components), resolve(b, components)) {
            (Ok(x), Ok(y)) => mirrors(x, y),
            (Err(e), Err(f)) => e == f,
            _ => false,
        },
    decreases components.len(),
{
    if components.len() > 0 {
        match (a, b) {
            (Node::Dir { content: xs, .. }, Node::Dir { content: ys, .. }) => {
                lemma_first_match_mirrors(xs, ys, components[0], 0);
                match first_match(xs, components[0], 0) {
                    Some(i) => {
                        lemma_first_match_within(xs, components[0], 0);
                        assert(mirrors(xs[i], ys[i]));
                        lemma_resolve_mirrors(xs[i], ys[i], components.drop_first());
                    },
                    None => {},
                }
            },
            _ => {},
        }
    }
}

/// The first match, where there is one, is a child of the asked name.
pub proof fn lemma_first_match_within<T>(content: Seq<Node<T>>, name: Seq<char>, from: int)
    requires
        0 <= from,
    ensures
        first_match(content, name, from) matches Some(i) ==> from <= i < content.len()
            && content[i].name() == name,
    decreases content.len() - from,
{
    if from < content.len() && content[from].name() != name {
        lemma_first_match_within(content, name, from + 1);
    }
}

/// Listing completeness. Whatever path is listed, the packed tree gives what
/// the source tree gives: the names of the directory's children in the
/// source's order, or the same failure.
pub proof fn lemma_listing_complete(
    root: Node<FileMeta>,
    source: Node<Seq<u8>>,
    files_content: Seq<u8>,
    path: Seq<char>,
)
    requires
        stores(root, source, files_content, 0),
    ensures
        listing(root, path) == listing(source, path),
{
    lemma_stores_mirrors(root, source, files_content, 0);
    lemma_resolve_mirrors(root, source, components(path));
    match (lookup(root, path), lookup(source, path)) {
        (Ok(Node::Dir { content: xs, .. }), Ok(Node::Dir { content: ys, .. })) => {
            assert forall|i: int| 0 <= i < xs.len() implies xs[i].name() == ys[i].name() by {
                assert(mirrors(xs[i], ys[i]));
            }
            assert(names(xs) =~= names(ys));
        },
        _ => {},
    }
}

/// Where resolution in the source succeeds, it succeeds in what is stored for
/// the source, and ends in what is stored for the node it ends in there. The
/// result is the offset at which that node's stored bytes begin.
pub proof fn lemma_resolve_stores(
    entry: Node<FileMeta>,
    source: Node<Seq<u8>>,
    region: Seq<u8>,
    base: int,
    components: Seq<Seq<char>>,
) -> (at: int)
    requires
        stores(entry, source, region, base),
        resolve(source, components) is Ok,
    ensures
        resolve(entry, components) is Ok,
        stores(resolve(entry, components)->Ok_0, resolve(source, components)->Ok_0, region, at),
    decreases components.len(),
{
    if components.len() == 0 {
        base
    } else {
        match (entry, source) {
            (Node::Dir { content, .. }, Node::Dir { content: sources, .. }) => {
                assert forall|i: int| 0 <= i < content.len() implies mirrors(
                    #[trigger] content[i],
                    sources[i],
                ) by {
                    lemma_stores_mirrors(
                        content[i],
                        sources[i],
                        region,
                        child_base(content, base, i),
                    );
                }
                lemma_first_match_mirrors(content, sources, components[0], 0);
                lemma_first_match_within(content, components[0], 0);
                let i = first_match(content, components[0], 0)->Some_0;
                assert(stores(content[i], sources[i], region, child_base(content, base, i)));
                lemma_resolve_stores(
                    content[i],
                    sources[i],
                    region,
                    child_base(content, base, i),
                    components.drop_first(),
                )
            },
            _ => base,
        }
    }
}

/// In an archive file the content region begins behind the size prefix and
/// the compressed header.
pub proof fn lemma_region_in_layout(
    compressed: Seq<u8>,
    files_content: Seq<u8>,
    order: ByteOrder,
    start: int,
    size: int,
)
    requires
        compressed.len() <= u64::MAX,
        0 <= start,
        0 <= size,
        start + size <= files_content.len(),
    ensures
        stored_region(
            layout(compressed, files_content, order),
            content_offset(compressed.len() as u64) + start,
            size,
        ) == Some(files_content.subrange(start, start + size)),
{
    lemma_size_round_trip(compressed.len() as u64, order);
    let archive = layout(compressed, files_content, order);
    let offset = content_offset(compressed.len() as u64);
    assert(archive.subrange(offset + start, offset + start + size) =~= files_content.subrange(
        start,
        start + size,
    ));
}

/// Round trip. Of an archive file laid out from a packed tree and its
/// content region, reading at any path that leads to a file in the source
/// returns that file's content, byte for byte.
pub proof fn lemma_round_trip(
    root: Node<FileMeta>,
    source: Node<Seq<u8>>,
    compressed: Seq<u8>,
    files_content: Seq<u8>,
    order: ByteOrder,
    path: Seq<char>,
)
    requires
        stores(root, source, files_content, 0),
        compressed.len() <= u64::MAX,
        lookup(source, path) is Ok,
        lookup(source, path)->Ok_0 is File,
    ensures
        read_path(
            root,
            compressed.len() as u64,
            path,
            layout(compressed, files_content, order),
        ) == Ok::<_, FileReadErrorView>(lookup(source, path)->Ok_0->meta),
{
    let at = lemma_resolve_stores(root, source, files_content, 0, components(path));
    let meta = lookup(root, path)->Ok_0->meta;
    lemma_region_in_layout(
        compressed,
        files_content,
        order,
        meta.index_start as int,
        meta.index_size as int,
    );
}

/// Opening what was written. The start of an archive file laid out with a
/// compressed header gives back the header's compressed length and, where the
/// compressed header stands for `header`, the header.
pub proof fn lemma_open_after_write(
    header: Seq<u8>,
    compressed: Seq<u8>,
    files_content: Seq<u8>,
    order: ByteOrder,
)
    requires
        compressed.len() <= u64::MAX,
        zstd_decoded(compressed) == Some(header),
    ensures
        header_of(layout(compressed, files_content, order), order) == Ok::<_, Seq<char>>(
            (compressed.len() as u64, header),
        ),
{
    lemma_size_round_trip(compressed.len() as u64, order);
    let archive = layout(compressed, files_content, order);
    assert(archive.subrange(0, 8) =~= size_bytes(compressed.len() as u64, order));
    assert(archive.subrange(8, 8 + compressed.len() as int) =~= compressed);
}

/// Damage is reported. Where the bytes found in a packed file's stored
/// region hash to another value than the bytes stored there at pack time,
/// reading and checking fail with the checksum found and the checksum
/// recorded at pack time, whatever the bytes decode to.
pub proof fn lemma_damage_reported(
    root: Node<FileMeta>,
    source: Node<Seq<u8>>,
    compressed: Seq<u8>,
    files_content: Seq<u8>,
    damaged_content: Seq<u8>,
    order: ByteOrder,
    path: Seq<char>,
)
    requires
        stores(root, source, files_content, 0),
        compressed.len() <= u64::MAX,
        lookup(source, path) is Ok,
        lookup(source, path)->Ok_0 is File,
        damaged_content.len() == files_content.len(),
        ({
            let meta = lookup(root, path)->Ok_0->meta;
            crc32(damaged_content.subrange(meta.index_start as int, meta.index_start + meta.index_size))
                != crc32(
                files_content.subrange(meta.index_start as int, meta.index_start + meta.index_size),
            )
        }),
    ensures
        ({
            let meta = lookup(root, path)->Ok_0->meta;
            let found = crc32(
                damaged_content.subrange(meta.index_start as int, meta.index_start + meta.index_size),
            );
            let recorded = crc32(
                files_content.subrange(meta.index_start as int, meta.index_start + meta.index_size),
            );
            let read = read_path(
                root,
                compressed.len() as u64,
                path,
                layout(compressed, damaged_content, order),
            );
            &&& meta.checksum == recorded
            &&& read == Err::<Seq<u8>, _>(FileReadErrorView::Checksum(found, recorded))
            &&& checked(read) == Err::<(), _>(FileReadErrorView::Checksum(found, recorded))
        }),
{
    let at = lemma_resolve_stores(root, source, files_content, 0, components(path));
    let meta = lookup(root, path)->Ok_0->meta;
    lemma_region_in_layout(
        compressed,
        damaged_content,
        order,
        meta.index_start as int,
        meta.index_size as int,
    );
}

/// Checksum detection. Where one byte within a packed file's stored bytes is
/// changed, reading and checking the file fail with the checksum found and
/// the checksum recorded at pack time, and the two differ; whatever else of
/// the archive is changed besides.
pub proof fn lemma_changed_byte_reported(
    root: Node<FileMeta>,
    source: Node<Seq<u8>>,
    compressed: Seq<u8>,
    files_content: Seq<u8>,
    damaged_content: Seq<u8>,
    order: ByteOrder,
    path: Seq<char>,
    at: int,
)
    requires
        stores(root, source, files_content, 0),
        compressed.len() <= u64::MAX,
        lookup(source, path) is Ok,
        lookup(source, path)->Ok_0 is File,
        damaged_content.len() == files_content.len(),
        ({
            let meta = lookup(root, path)->Ok_0->meta;
            &&& meta.index_start <= at < meta.index_start + meta.index_size
            &&& damaged_content[at] != files_content[at]
            &&& forall|k: int|
                meta.index_start <= k < meta.index_start + meta.index_size && k != at
                    ==> damaged_content[k] == files_content[k]
        }),
    ensures
        ({
            let meta = lookup(root, path)->Ok_0->meta;
            let found = crc32(
                damaged_content.subrange(meta.index_start as int, meta.index_start + meta.index_size),
            );
            let read = read_path(
                root,
                compressed.len() as u64,
                path,
                layout(compressed, damaged_content, order),
            );
            &&& found != meta.checksum
            &&& read == Err::<Seq<u8>, _>(FileReadErrorView::Checksum(found, meta.checksum))
            &&& checked(read) == Err::<(), _>(FileReadErrorView::Checksum(found, meta.checksum))
        }),
{
    let place = lemma_resolve_stores(root, source, files_content, 0, components(path));
    let meta = lookup(root, path)->Ok_0->meta;
    let start = meta.index_start as int;
    let end = meta.index_start + meta.index_size;
    lemma_crc32_tells_one_byte(
        files_content.subrange(start, end),
        damaged_content.subrange(start, end),
        at - start,
    );
    lemma_damage_reported(root, source, compressed, files_content, damaged_content, order, path);
}

/// Children are stored one after the other: a later child begins where an
/// earlier one has ended, or behind.
pub proof fn lemma_children_in_a_row(content: Seq<Node<FileMeta>>, i: int, j: int)
    requires
        0 <= i <= j <= content.len(),
    ensures
        stored_sizes(content, i) <= stored_sizes(content, j),
    decreases j - i,
{
    if i < j {
        lemma_children_in_a_row(content, i, j - 1);
    }
}

/// A file below a stored entry is stored within the bytes of that entry.
pub proof fn lemma_stored_within(
    entry: Node<FileMeta>,
    source: Node<Seq<u8>>,
    region: Seq<u8>,
    base: int,
    components: Seq<Seq<char>>,
)
    requires
        stores(entry, source, region, base),
        resolve(entry, components) is Ok,
        resolve(entry, components)->Ok_0 is File,
    ensures
        ({
            let meta = resolve(entry, components)->Ok_0->meta;
            &&& base <= meta.index_start
            &&& meta.index_start + meta.index_size <= base + stored_size(entry)
        }),
    decreases components.len(),
{
    if components.len() > 0 {
        match (entry, source) {
            (Node::Dir { content, .. }, Node::Dir { content: sources, .. }) => {
                lemma_first_match_within(content, components[0], 0);
                let i = first_match(content, components[0], 0)->Some_0;
                assert(stores(content[i], sources[i], region, child_base(content, base, i)));
                lemma_stored_within(
                    content[i],
                    sources[i],
                    region,
                    child_base(content, base, i),
                    components.drop_first(),
                );
                lemma_children_in_a_row(content, i + 1, content.len() as int);
            },
            _ => {},
        }
    }
}

/// Files do not overlap. Two different ways into a packed tree that both end
/// at a file end at files whose stored bytes lie apart.
pub proof fn lemma_files_apart(
    entry: Node<FileMeta>,
    source: Node<Seq<u8>>,
    region: Seq<u8>,
    base: int,
    first: Seq<Seq<char>>,
    second: Seq<Seq<char>>,
)
    requires
        stores(entry, source, region, base),
        resolve(entry, first) is Ok,
        resolve(entry, first)->Ok_0 is File,
        resolve(entry, second) is Ok,
        resolve(entry, second)->Ok_0 is File,
        first != second,
    ensures
        ({
            let a = resolve(entry, first)->Ok_0->meta;
            let b = resolve(entry, second)->Ok_0->meta;
            a.index_start + a.index_size <= b.index_start || b.index_start + b.index_size
                <= a.index_start
        }),
    decreases first.len(),
{
    if first.len() == 0 || second.len() == 0 {
        assert(first.len() == 0 && second.len() == 0);
        assert(first =~= second);
    } else {
        match (entry, source) {
            (Node::Dir { content, .. }, Node::Dir { content: sources, .. }) => {
                lemma_first_match_within(content, first[0], 0);
                lemma_first_match_within(content, second[0], 0);
                let i = first_match(content, first[0], 0)->Some_0;
                let j = first_match(content, second[0], 0)->Some_0;
                assert(stores(content[i], sources[i], region, child_base(content, base, i)));
                assert(stores(content[j], sources[j], region, child_base(content, base, j)));
                if i == j {
                    assert(first.drop_first() != second.drop_first()) by {
                        if first.drop_first() == second.drop_first() {
                            assert(first =~= seq![first[0]] + first.drop_first());
                            assert(second =~= seq![second[0]] + second.drop_first());
                        }
                    }
                    lemma_files_apart(
                        content[i],
                        sources[i],
                        region,
                        child_base(content, base, i),
                        first.drop_first(),
                        second.drop_first(),
                    );
                } else {
                    lemma_stored_within(
                        content[i],
                        sources[i],
                        region,
                        child_base(content, base, i),
                        first.drop_first(),
                    );
                    lemma_stored_within(
                        content[j],
                        sources[j],
                        region,
                        child_base(content, base, j),
                        second.drop_first(),
                    );
                    if i < j {
                        lemma_children_in_a_row(content, i + 1, j);
                    } else {
                        lemma_children_in_a_row(content, j + 1, i);
                    }
                }
            },
            _ => {},
        }
    }
}

/// Damage stays local. Where two content regions differ only within the
/// stored bytes of the file at one path, reading at any other path that leads
/// to a file returns the same from both.
pub proof fn lemma_damage_is_local(
    root: Node<FileMeta>,
    source: Node<Seq<u8>>,
    compressed: Seq<u8>,
    files_content: Seq<u8>,
    damaged_content: Seq<u8>,
    order: ByteOrder,
    damaged_path: Seq<char>,
    path: Seq<char>,
)
    requires
        stores(root, source, files_content, 0),
        compressed.len() <= u64::MAX,
        lookup(source, damaged_path) is Ok,
        lookup(source, damaged_path)->Ok_0 is File,
        lookup(source, path) is Ok,
        lookup(source, path)->Ok_0 is File,
        components(path) != components(damaged_path),
        damaged_content.len() == files_content.len(),
        ({
            let hit = lookup(root, damaged_path)->Ok_0->meta;
            forall|k: int|
                0 <= k < files_content.len() && !(hit.index_start <= k < hit.index_start
                    + hit.index_size) ==> damaged_content[k] == files_content[k]
        }),
    ensures
        read_path(
            root,
            compressed.len() as u64,
            path,
            layout(compressed, damaged_content, order),
        ) == Ok::<_, FileReadErrorView>(lookup(source, path)->Ok_0->meta),
{
    let parts = components(path);
    let hit_parts = components(damaged_path);
    let at = lemma_resolve_stores(root, source, files_content, 0, parts);
    let hit_at = lemma_resolve_stores(root, source, files_content, 0, hit_parts);
    lemma_files_apart(root, source, files_content, 0, parts, hit_parts);
    lemma_stored_within(root, source, files_content, 0, parts);
    lemma_round_trip(root, source, compressed, files_content, order, path);
    let meta = lookup(root, path)->Ok_0->meta;
    let start = meta.index_start as int;
    let size = meta.index_size as int;
    lemma_region_in_layout(compressed, files_content, order, start, size);
    lemma_region_in_layout(compressed, damaged_content, order, start, size);
    assert(damaged_content.subrange(start, start + size) =~= files_content.subrange(
        start,
        start + size,
    ));
}

/// Reading a file looks at nothing but the file's stored region. Two archive
/// files that agree there are read alike at the file's path.
pub proof fn lemma_read_looks_at_region(
    root: Node<FileMeta>,
    header_size: u64,
    path: Seq<char>,
    archive: Seq<u8>,
    other: Seq<u8>,
)
    requires
        lookup(root, path) is Ok,
        lookup(root, path)->Ok_0 is File,
        ({
            let meta = lookup(root, path)->Ok_0->meta;
            stored_region(archive, content_offset(header_size) + meta.index_start, meta.index_size as int)
                == stored_region(
                other,
                content_offset(header_size) + meta.index_start,
                meta.index_size as int,
            )
        }),
    ensures
        read_path(root, header_size, path, archive) == read_path(root, header_size, path, other),
{
}

} // verus!
