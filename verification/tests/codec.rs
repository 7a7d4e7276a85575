use qz::codec::{
    checksum, copy_bytes, decode, encode, keep_lz4, lz4_input_limit, CompressionAlgo,
};
use qz::errors::FileReadError;

fn sample() -> Vec<u8> {
    let mut data = Vec::new();
    for i in 0..4000u32 {
        data.push((i % 7) as u8);
    }
    data
}

#[test]
fn checksum_is_crc32_ieee() {
    assert_eq!(checksum(b"123456789"), 0xCBF4_3926);
    assert_eq!(checksum(b"hello"), 0x3610_A686);
    assert_eq!(checksum(b""), 0);
}

/// The shift register written out: every bit set at the start, each byte
/// folded into the low end and moved eight times, every bit turned at the end.
fn shift_register(data: &[u8]) -> u32 {
    let mut state: u32 = 0xFFFF_FFFF;
    for byte in data {
        state ^= *byte as u32;
        for _ in 0..8 {
            state = if state & 1 == 1 { (state >> 1) ^ 0xEDB8_8320 } else { state >> 1 };
        }
    }
    state ^ 0xFFFF_FFFF
}

#[test]
fn checksum_is_the_shift_register() {
    let mut data = Vec::new();
    for i in 0..700u32 {
        assert_eq!(checksum(&data), shift_register(&data));
        data.push((i * 37 % 256) as u8);
    }
    assert_eq!(checksum(&[0]), 0xD202_EF8D);
    assert_eq!(checksum(&[0xFF; 4]), 0xFFFF_FFFF);
}

#[test]
fn checksum_tells_every_changed_byte() {
    let data = sample();
    let sum = checksum(&data);
    for at in 0..200 {
        for change in [0x01u8, 0x80, 0xFF] {
            let mut other = data.clone();
            other[at] ^= change;
            assert_ne!(checksum(&other), sum);
        }
    }
}

#[test]
fn lz4_output_is_kept_within_the_limit() {
    assert_eq!(lz4_input_limit(), (usize::MAX / 2 - 19) / 255);
    assert_eq!(keep_lz4(vec![1, 2, 3]), Ok(vec![1, 2, 3]));
    assert_eq!(keep_lz4(Vec::new()), Ok(Vec::new()));
}

#[test]
fn checksum_tells_one_flipped_bit() {
    assert_ne!(checksum(b"hello"), checksum(b"hellp"));
}

#[test]
fn copy_bytes_copies() {
    assert_eq!(copy_bytes(&[1, 2, 3]), vec![1, 2, 3]);
    assert_eq!(copy_bytes(&[]), Vec::<u8>::new());
}

#[test]
fn none_is_the_identity() {
    let data = sample();
    assert_eq!(encode(&data, CompressionAlgo::NONE), Ok(data.clone()));
    assert_eq!(decode(&data, CompressionAlgo::NONE), Ok(data));
}

#[test]
fn zstd_round_trip() {
    let data = sample();
    let stored = encode(&data, CompressionAlgo::ZSTD).unwrap();
    assert_ne!(stored, data);
    assert!(stored.len() < data.len());
    assert_eq!(decode(&stored, CompressionAlgo::ZSTD), Ok(data));
}

#[test]
fn zstd_writes_a_zstandard_frame() {
    let stored = encode(b"hello", CompressionAlgo::ZSTD).unwrap();
    assert_eq!(&stored[0..4], &[0x28, 0xB5, 0x2F, 0xFD]);
}

#[test]
fn lz4_round_trip() {
    let data = sample();
    let stored = encode(&data, CompressionAlgo::LZ4).unwrap();
    assert_ne!(stored, data);
    assert!(stored.len() < data.len());
    assert_eq!(decode(&stored, CompressionAlgo::LZ4), Ok(data));
}

#[test]
fn empty_content_round_trip() {
    for algo in [CompressionAlgo::ZSTD, CompressionAlgo::LZ4, CompressionAlgo::NONE] {
        let stored = encode(&[], algo).unwrap();
        assert_eq!(decode(&stored, algo), Ok(Vec::new()));
    }
}

#[test]
fn lz4_decodes_known_blocks() {
    assert_eq!(decode(&[0x11, b'a', 1, 0], CompressionAlgo::LZ4), Ok(b"aaaaaa".to_vec()));
    assert_eq!(decode(&[0x30, b'a', b'4', b'9'], CompressionAlgo::LZ4), Ok(b"a49".to_vec()));
}

#[test]
fn lz4_rejects_a_bad_offset() {
    assert_eq!(
        decode(&[0x10, b'a', 2, 0], CompressionAlgo::LZ4),
        Err(FileReadError::CompressionError)
    );
}

#[test]
fn zstd_rejects_what_is_no_frame() {
    assert_eq!(
        decode(b"certainly not a frame", CompressionAlgo::ZSTD),
        Err(FileReadError::CompressionError)
    );
    assert_eq!(decode(&[], CompressionAlgo::ZSTD), Err(FileReadError::CompressionError));
}

#[test]
fn zstd_rejects_a_truncated_frame() {
    let stored = encode(&sample(), CompressionAlgo::ZSTD).unwrap();
    assert_eq!(
        decode(&stored[..stored.len() - 1], CompressionAlgo::ZSTD),
        Err(FileReadError::CompressionError)
    );
}
