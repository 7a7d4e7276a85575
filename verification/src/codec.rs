//! Compression of stored bytes and the checksum over them.

use crate::errors::{FileReadError, FileReadErrorView};
use vstd::prelude::*;

verus! {

/// Compression applied to one file's stored bytes.
#[derive(Clone, Copy, Debug, PartialEq, Eq, Structural)]
pub enum CompressionAlgo {
    ZSTD,
    LZ4,
    NONE,
}

/// The level at which Zstandard compresses, for files and for the header.
pub const ZSTD_LEVEL: i32 = 5;

/// One step of the CRC-32 shift register: the state moves one bit down, and
/// the reflected polynomial is folded in where the bit moved out was set.
pub open spec fn crc_shift(state: u32) -> u32 {
    if state & 1 == 1 {
        (state >> 1) ^ 0xEDB8_8320u32
    } else {
        state >> 1
    }
}

/// The state of the register after one more byte: the byte is folded into the
/// low end, then the register moves eight times.
pub open spec fn crc_byte(state: u32, byte: u8) -> u32 {
    crc_shift(
        crc_shift(
            crc_shift(
                crc_shift(crc_shift(crc_shift(crc_shift(crc_shift(state ^ (byte as u32)))))),
            ),
        ),
    )
}

/// The state of the register after all of `data`, begun with every bit set.
pub open spec fn crc_state(data: Seq<u8>) -> u32
    decreases data.len(),
{
    if data.len() == 0 {
        0xFFFF_FFFFu32
    } else {
        crc_byte(crc_state(data.drop_last()), data.last())
    }
}

/// The CRC-32 (IEEE) checksum of `data`: the final state, every bit turned.
pub open spec fn crc32(data: Seq<u8>) -> u32 {
    crc_state(data) ^ 0xFFFF_FFFFu32
}

/// The longest input that is handed to the LZ4 decoder. The decoder adds up
/// length bytes of its input and adds such a sum to a place in its output;
/// within this length neither sum leaves the range of `usize`.
pub open spec fn lz4_limit() -> int {
    (usize::MAX / 2 - 19) / 255
}

/// What `zstd::stream::decode_all` makes of `data`: the concatenated content of
/// its Zstandard frames, or `None` where it rejects the input.
pub uninterp spec fn zstd_decoded(data: Seq<u8>) -> Option<Seq<u8>>;

/// What `lz4_compression::decompress::decompress` makes of `data`: the decoded
/// blocks, or `None` where it rejects the input.
pub uninterp spec fn lz4_decompressed(data: Seq<u8>) -> Option<Seq<u8>>;

#[verifier::external_type_specification]
#[verifier::external_body]
pub struct ExIoError(std::io::Error);

#[verifier::external_type_specification]
#[verifier::external_body]
pub struct ExLz4Error(lz4_compression::decompress::Error);

/// Calls `crc32fast::hash`. Trusted: the result is the CRC-32 (IEEE) of the
/// bytes, whichever of the crate's implementations the processor selects.
#[verifier::external_body]
fn crc32_hash(data: &[u8]) -> (sum: u32)
    ensures
        sum == crc32(data@),
{
    crc32fast::hash(data)
}

/// Calls `zstd::stream::encode_all`. Trusted: Zstandard is lossless, so where
/// the call succeeds, `zstd::stream::decode_all` gives the input back from its
/// result. The compressed bytes themselves may differ between machines and are
/// not stated; nor is success.
#[verifier::external_body]
fn zstd_encode_all(data: &[u8], level: i32) -> (outcome: Result<Vec<u8>, std::io::Error>)
    ensures
        outcome matches Ok(stored) ==> zstd_decoded(stored@) == Some(data@),
{
    zstd::stream::encode_all(data, level)
}

/// Calls `zstd::stream::decode_all`. Trusted: whether it succeeds, and what it
/// returns, depends on the input bytes alone.
#[verifier::external_body]
fn zstd_decode_all(data: &[u8]) -> (outcome: Result<Vec<u8>, std::io::Error>)
    ensures
        match outcome {
            Ok(plain) => zstd_decoded(data@) == Some(plain@),
            Err(_) => zstd_decoded(data@) is None,
        },
{
    zstd::stream::decode_all(data)
}

/// Calls `lz4_compression::compress::compress`. Trusted: its result
/// decompresses to the input, as the crate's own tests check. The compressed
/// bytes depend on the machine's byte order and are not stated.
#[verifier::external_body]
fn lz4_compress(data: &[u8]) -> (stored: Vec<u8>)
    ensures
        lz4_decompressed(stored@) == Some(data@),
{
    lz4_compression::compress::compress(data)
}

/// Calls `lz4_compression::decompress::decompress`. Trusted: on an input
/// within the limit, whether it succeeds and what it returns depends on the
/// input bytes alone; a length that reaches beyond the input, or an offset
/// that reaches before the output, ends in an error. Longer inputs are left
/// out: on them the decoder's sums of length bytes could leave `usize`.
#[verifier::external_body]
fn lz4_decompress(data: &[u8]) -> (outcome: Result<Vec<u8>, lz4_compression::decompress::Error>)
    requires
        data@.len() <= lz4_limit(),
    ensures
        match outcome {
            Ok(plain) => lz4_decompressed(data@) == Some(plain@),
            Err(_) => lz4_decompressed(data@) is None,
        },
{
    lz4_compression::decompress::decompress(data)
}

/// The content that `stored` stands for under `algo`, or `None` where the
/// decoder rejects it. Without compression every sequence stands for itself.
/// Under LZ4 nothing longer than the limit stands for anything.
pub open spec fn decoded(algo: CompressionAlgo, stored: Seq<u8>) -> Option<Seq<u8>> {
    match algo {
        CompressionAlgo::ZSTD => zstd_decoded(stored),
        CompressionAlgo::LZ4 => if stored.len() <= lz4_limit() {
            lz4_decompressed(stored)
        } else {
            None
        },
        CompressionAlgo::NONE => Some(stored),
    }
}

/// The longest input that is handed to the LZ4 decoder.
pub fn lz4_input_limit() -> (limit: usize)
    ensures
        limit == lz4_limit(),
{
    (usize::MAX / 2 - 19) / 255
}

/// What becomes of LZ4 output: it is kept where the decoder will take it back,
/// and refused where it is longer than that.
pub fn keep_lz4(stored: Vec<u8>) -> (outcome: Result<Vec<u8>, FileReadError>)
    ensures
        match outcome {
            Ok(kept) => kept@ == stored@ && stored@.len() <= lz4_limit(),
            Err(e) => e@ == FileReadErrorView::CompressionError && stored@.len() > lz4_limit(),
        },
{
    if stored.len() <= lz4_input_limit() {
        Ok(stored)
    } else {
        Err(FileReadError::CompressionError)
    }
}

/// A copy of `data`.
pub fn copy_bytes(data: &[u8]) -> (copy: Vec<u8>)
    ensures
        copy@ == data@,
{
    let mut copy: Vec<u8> = Vec::new();
    copy.extend_from_slice(data);
    copy
}

/// The checksum of `data`.
pub fn checksum(data: &[u8]) -> (sum: u32)
    ensures
        sum == crc32(data@),
{
    crc32_hash(data)
}

/// Encodes `data` with `algo`. Whatever bytes come back stand for `data`.
/// Without compression it cannot fail; Zstandard can, and LZ4 output that its
/// decoder would not take back is refused.
pub fn encode(data: &[u8], algo: CompressionAlgo) -> (outcome: Result<Vec<u8>, FileReadError>)
    ensures
        outcome matches Ok(stored) ==> decoded(algo, stored@) == Some(data@),
        outcome matches Err(e) ==> e@ == FileReadErrorView::CompressionError,
        algo == CompressionAlgo::NONE ==> outcome is Ok,
{
    match algo {
        CompressionAlgo::ZSTD => match zstd_encode_all(data, ZSTD_LEVEL) {
            Ok(stored) => Ok(stored),
            Err(_) => Err(FileReadError::CompressionError),
        },
        CompressionAlgo::LZ4 => keep_lz4(lz4_compress(data)),
        CompressionAlgo::NONE => Ok(copy_bytes(data)),
    }
}

/// Decodes `stored` with `algo`.
pub fn decode(stored: &[u8], algo: CompressionAlgo) -> (outcome: Result<Vec<u8>, FileReadError>)
    ensures
        match outcome {
            Ok(plain) => decoded(algo, stored@) == Some(plain@),
            Err(e) => e@ == FileReadErrorView::CompressionError && decoded(algo, stored@) is None,
        },
{
    match algo {
        CompressionAlgo::ZSTD => match zstd_decode_all(stored) {
            Ok(plain) => Ok(plain),
            Err(_) => Err(FileReadError::CompressionError),
        },
        CompressionAlgo::LZ4 => {
            if stored.len() > lz4_input_limit() {
                return Err(FileReadError::CompressionError);
            }
            match lz4_decompress(stored) {
                Ok(plain) => Ok(plain),
                Err(_) => Err(FileReadError::CompressionError),
            }
        },
        CompressionAlgo::NONE => Ok(copy_bytes(stored)),
    }
}

/// The shift register loses nothing: two states that move to the same state
/// are the same.
pub proof fn lemma_crc_shift_injective(x: u32, y: u32)
    requires
        crc_shift(x) == crc_shift(y),
    ensures
        x == y,
{
    assert((if x & 1 == 1 {
        (x >> 1) ^ 0xEDB8_8320u32
    } else {
        x >> 1
    }) == (if y & 1 == 1 {
        (y >> 1) ^ 0xEDB8_8320u32
    } else {
        y >> 1
    }) ==> x == y) by (bit_vector);
}

/// Two registers that agree after one more byte each agreed before, if the
/// bytes are the same, and took the same byte, if they agreed before.
pub proof fn lemma_crc_byte_injective(s: u32, a: u8, t: u32, b: u8)
    requires
        crc_byte(s, a) == crc_byte(t, b),
    ensures
        a == b ==> s == t,
        s == t ==> a == b,
{
    let x = s ^ (a as u32);
    let y = t ^ (b as u32);
    let x1 = crc_shift(x);
    let y1 = crc_shift(y);
    let x2 = crc_shift(x1);
    let y2 = crc_shift(y1);
    let x3 = crc_shift(x2);
    let y3 = crc_shift(y2);
    let x4 = crc_shift(x3);
    let y4 = crc_shift(y3);
    let x5 = crc_shift(x4);
    let y5 = crc_shift(y4);
    let x6 = crc_shift(x5);
    let y6 = crc_shift(y5);
    let x7 = crc_shift(x6);
    let y7 = crc_shift(y6);
    lemma_crc_shift_injective(x7, y7);
    lemma_crc_shift_injective(x6, y6);
    lemma_crc_shift_injective(x5, y5);
    lemma_crc_shift_injective(x4, y4);
    lemma_crc_shift_injective(x3, y3);
    lemma_crc_shift_injective(x2, y2);
    lemma_crc_shift_injective(x1, y1);
    lemma_crc_shift_injective(x, y);
    assert(s ^ (a as u32) == t ^ (b as u32) ==> (a == b ==> s == t)) by (bit_vector);
    assert(s ^ (a as u32) == t ^ (b as u32) ==> (s == t ==> a == b)) by (bit_vector);
}

/// The checksum tells one changed byte: two sequences of one length that
/// differ in exactly one place have different checksums.
pub proof fn lemma_crc32_tells_one_byte(a: Seq<u8>, b: Seq<u8>, at: int)
    requires
        a.len() == b.len(),
        0 <= at < a.len(),
        a[at] != b[at],
        forall|k: int| 0 <= k < a.len() && k != at ==> a[k] == b[k],
    ensures
        crc_state(a) != crc_state(b),
        crc32(a) != crc32(b),
    decreases a.len(),
{
    let last = a.len() - 1;
    if at == last {
        assert(a.drop_last() =~= b.drop_last());
    } else {
        lemma_crc32_tells_one_byte(a.drop_last(), b.drop_last(), at);
    }
    if crc_state(a) == crc_state(b) {
        lemma_crc_byte_injective(
            crc_state(a.drop_last()),
            a.last(),
            crc_state(b.drop_last()),
            b.last(),
        );
    }
    let x = crc_state(a);
    let y = crc_state(b);
    assert(x != y ==> x ^ 0xFFFF_FFFFu32 != y ^ 0xFFFF_FFFFu32) by (bit_vector);
}

} // verus!
