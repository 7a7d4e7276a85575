//! The layout of an archive file: size prefix, compressed header, content
//! region.

use crate::codec::{decode, encode, zstd_decoded, CompressionAlgo};
use crate::errors::{FileReadError, FileReadErrorView, ReadError};
use vstd::bytes::{
    lemma_auto_spec_u64_to_from_le_bytes, spec_u64_from_le_bytes, spec_u64_to_le_bytes,
    u64_from_le_bytes, u64_to_le_bytes,
};
use vstd::prelude::*;
use vstd::slice::slice_subrange;

verus! {

/// The width of the size prefix, in bytes.
pub const PREFIX_WIDTH: usize = 8;

/// The order in which the bytes of the size prefix stand.
#[derive(Clone, Copy, Debug, PartialEq, Eq, Structural)]
pub enum ByteOrder {
    LittleEndian,
    BigEndian,
}

/// The eight bytes that stand for `n` in the given order.
pub open spec fn size_bytes(n: u64, order: ByteOrder) -> Seq<u8> {
    match order {
        ByteOrder::LittleEndian => spec_u64_to_le_bytes(n),
        ByteOrder::BigEndian => spec_u64_to_le_bytes(n).reverse(),
    }
}

/// The number that eight bytes stand for in the given order.
pub open spec fn size_value(bytes: Seq<u8>, order: ByteOrder) -> u64 {
    match order {
        ByteOrder::LittleEndian => spec_u64_from_le_bytes(bytes),
        ByteOrder::BigEndian => spec_u64_from_le_bytes(bytes.reverse()),
    }
}

/// An archive file: the length of the compressed header, the compressed
/// header, the content region.
pub open spec fn layout(header: Seq<u8>, content: Seq<u8>, order: ByteOrder) -> Seq<u8> {
    size_bytes(header.len() as u64, order) + header + content
}

/// The message of the failure on a file too short for the size prefix.
pub open spec fn no_header_size() -> Seq<char> {
    "failed to read header size"@
}

/// The message of the failure on a file that ends within the header.
pub open spec fn no_header() -> Seq<char> {
    "failed to read header"@
}

/// The message of the failure on a header that does not decompress.
pub open spec fn bad_header() -> Seq<char> {
    "failed to decompress header"@
}

/// What opening finds at the start of an archive file: the length of the
/// compressed header and the header itself, decompressed.
pub open spec fn header_of(archive: Seq<u8>, order: ByteOrder) -> Result<(u64, Seq<u8>), Seq<char>> {
    if archive.len() < 8 {
        Err(no_header_size())
    } else {
        let size = size_value(archive.subrange(0, 8), order);
        if 8 + size > archive.len() {
            Err(no_header())
        } else {
            match zstd_decoded(archive.subrange(8, 8 + size)) {
                Some(header) => Ok((size, header)),
                None => Err(bad_header()),
            }
        }
    }
}

/// Calls `u16::to_ne_bytes`. Trusted: the result holds the low and the high
/// byte of `n`, in the order in which this machine keeps them.
#[verifier::external_body]
fn native_bytes(n: u16) -> (bytes: [u8; 2])
    ensures
        bytes@ == seq![(n % 256) as u8, (n / 256) as u8] || bytes@ == seq![
            (n / 256) as u8,
            (n % 256) as u8,
        ],
{
    n.to_ne_bytes()
}

/// `bytes` in reverse order.
pub fn reversed(bytes: &[u8]) -> (back: Vec<u8>)
    ensures
        back@ == bytes@.reverse(),
{
    let n = bytes.len();
    let mut back: Vec<u8> = Vec::new();
    let mut i: usize = 0;
    while i < n
        invariant
            i <= n,
            n == bytes@.len(),
            back@.len() == i,
            forall|j: int| 0 <= j < i ==> back@[j] == bytes@[n - 1 - j],
        decreases n - i,
    {
        back.push(bytes[n - 1 - i]);
        i = i + 1;
    }
    assert(back@ =~= bytes@.reverse());
    back
}

impl ByteOrder {
    /// The byte order of the machine that runs this, shown by its bytes for one.
    pub fn native() -> ByteOrder {
        ByteOrder::shown_by(native_bytes(1))
    }

    /// The byte order that `probe` shows, the two bytes that a machine keeps
    /// for the number one: the low byte first, or the high byte first.
    pub fn shown_by(probe: [u8; 2]) -> (order: ByteOrder)
        ensures
            order == order_shown(probe@),
    {
        if probe[0] == 1 {
            ByteOrder::LittleEndian
        } else {
            ByteOrder::BigEndian
        }
    }
}

/// The byte order that the two bytes kept for the number one show: little
/// endian where the one stands first.
pub open spec fn order_shown(probe: Seq<u8>) -> ByteOrder {
    if probe[0] == 1 {
        ByteOrder::LittleEndian
    } else {
        ByteOrder::BigEndian
    }
}

/// The size prefix for a compressed header of `n` bytes.
pub fn size_prefix(n: u64, order: ByteOrder) -> (prefix: Vec<u8>)
    ensures
        prefix@ == size_bytes(n, order),
        prefix@.len() == 8,
{
    proof {
        lemma_auto_spec_u64_to_from_le_bytes();
    }
    let little = u64_to_le_bytes(n);
    match order {
        ByteOrder::LittleEndian => little,
        ByteOrder::BigEndian => reversed(little.as_slice()),
    }
}

/// The number that a size prefix stands for.
fn prefix_value(prefix: &[u8], order: ByteOrder) -> (n: u64)
    requires
        prefix@.len() == 8,
    ensures
        n == size_value(prefix@, order),
{
    match order {
        ByteOrder::LittleEndian => u64_from_le_bytes(prefix),
        ByteOrder::BigEndian => {
            let little = reversed(prefix);
            u64_from_le_bytes(little.as_slice())
        },
    }
}

/// A size prefix stands for the number it was made from.
pub proof fn lemma_size_round_trip(n: u64, order: ByteOrder)
    ensures
        size_bytes(n, order).len() == 8,
        size_value(size_bytes(n, order), order) == n,
{
    lemma_auto_spec_u64_to_from_le_bytes();
    let little = spec_u64_to_le_bytes(n);
    assert(little.reverse().reverse() =~= little);
}

/// Lays an archive file out: size prefix, compressed header, content region.
pub fn assemble(header: &[u8], files_content: &[u8], order: ByteOrder) -> (archive: Vec<u8>)
    ensures
        archive@ == layout(header@, files_content@, order),
{
    let mut archive = size_prefix(header.len() as u64, order);
    archive.extend_from_slice(header);
    archive.extend_from_slice(files_content);
    archive
}

/// Compresses the serialised header and lays the archive file out. The file
/// ends with the content region; before it stands a compressed header that
/// decompresses to `header`, and before that the header's compressed length.
pub fn write_archive(header: &[u8], files_content: &[u8], order: ByteOrder) -> (outcome: Result<
    Vec<u8>,
    FileReadError,
>)
    ensures
        outcome matches Ok(archive) ==> {
            let compressed = archive@.subrange(8, archive@.len() - files_content@.len());
            &&& archive@.len() >= 8 + files_content@.len()
            &&& archive@ == layout(compressed, files_content@, order)
            &&& zstd_decoded(compressed) == Some(header@)
        },
        outcome matches Err(e) ==> e@ == FileReadErrorView::CompressionError,
{
    match encode(header, CompressionAlgo::ZSTD) {
        Ok(compressed) => {
            let archive = assemble(compressed.as_slice(), files_content, order);
            proof {
                lemma_size_round_trip(compressed@.len() as u64, order);
                assert(archive@.subrange(8, archive@.len() - files_content@.len())
                    =~= compressed@);
            }
            Ok(archive)
        },
        Err(e) => Err(e),
    }
}

/// Reads the start of an archive file: the length of the compressed header,
/// and the header, decompressed.
pub fn read_header(archive: &[u8], order: ByteOrder) -> (outcome: Result<(u64, Vec<u8>), ReadError>)
    ensures
        match outcome {
            Ok((size, header)) => header_of(archive@, order) == Ok::<_, Seq<char>>((size, header@)),
            Err(e) => header_of(archive@, order) == Err::<(u64, Seq<u8>), _>(e@),
        },
{
    if archive.len() < PREFIX_WIDTH {
        return Err(ReadError::new("failed to read header size"));
    }
    let size = prefix_value(slice_subrange(archive, 0, PREFIX_WIDTH), order);
    if size > (archive.len() - PREFIX_WIDTH) as u64 {
        return Err(ReadError::new("failed to read header"));
    }
    let end = PREFIX_WIDTH + size as usize;
    match decode(slice_subrange(archive, PREFIX_WIDTH, end), CompressionAlgo::ZSTD) {
        Ok(header) => Ok((size, header)),
        Err(_) => Err(ReadError::new("failed to decompress header")),
    }
}

} // verus!
