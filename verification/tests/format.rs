use qz::codec::{decode, encode, CompressionAlgo};
use qz::errors::FileReadError;
use qz::format::{assemble, read_header, reversed, size_prefix, write_archive, ByteOrder};

#[test]
fn size_prefix_in_both_orders() {
    assert_eq!(size_prefix(5, ByteOrder::LittleEndian), vec![5, 0, 0, 0, 0, 0, 0, 0]);
    assert_eq!(size_prefix(5, ByteOrder::BigEndian), vec![0, 0, 0, 0, 0, 0, 0, 5]);
    assert_eq!(
        size_prefix(0x0102_0304_0506_0708, ByteOrder::LittleEndian),
        vec![8, 7, 6, 5, 4, 3, 2, 1]
    );
    assert_eq!(
        size_prefix(0x0102_0304_0506_0708, ByteOrder::BigEndian),
        vec![1, 2, 3, 4, 5, 6, 7, 8]
    );
}

#[test]
fn native_order_is_the_machines() {
    let n: u64 = 0x0102_0304_0506_0708;
    assert_eq!(size_prefix(n, ByteOrder::native()), n.to_ne_bytes().to_vec());
}

#[test]
fn the_bytes_of_one_show_the_order() {
    assert_eq!(ByteOrder::shown_by([1, 0]), ByteOrder::LittleEndian);
    assert_eq!(ByteOrder::shown_by([0, 1]), ByteOrder::BigEndian);
    assert_eq!(ByteOrder::native(), ByteOrder::shown_by(1u16.to_ne_bytes()));
}

#[test]
fn reversed_reverses() {
    assert_eq!(reversed(&[1, 2, 3]), vec![3, 2, 1]);
    assert_eq!(reversed(&[]), Vec::<u8>::new());
}

#[test]
fn assemble_lays_the_three_parts_out() {
    let archive = assemble(&[0xAA, 0xBB, 0xCC], &[1, 2], ByteOrder::LittleEndian);
    assert_eq!(archive, vec![3, 0, 0, 0, 0, 0, 0, 0, 0xAA, 0xBB, 0xCC, 1, 2]);
    let archive = assemble(&[], &[], ByteOrder::BigEndian);
    assert_eq!(archive, vec![0; 8]);
}

#[test]
fn write_archive_compresses_the_header() {
    let header = b"{\"name\":\"x\"}";
    let content = [9u8, 8, 7];
    let archive = write_archive(header, &content, ByteOrder::LittleEndian).unwrap();
    let size = u64::from_le_bytes(archive[0..8].try_into().unwrap()) as usize;
    assert_eq!(archive.len(), 8 + size + content.len());
    assert_eq!(decode(&archive[8..8 + size], CompressionAlgo::ZSTD), Ok(header.to_vec()));
    assert_eq!(&archive[8 + size..], &content);
}

#[test]
fn read_header_gives_back_what_was_written() {
    for order in [ByteOrder::LittleEndian, ByteOrder::BigEndian, ByteOrder::native()] {
        let header = b"some header, some header, some header".to_vec();
        let archive = write_archive(&header, b"content", order).unwrap();
        let (size, read) = read_header(&archive, order).unwrap();
        assert_eq!(read, header);
        assert_eq!(size as usize, archive.len() - 8 - 7);
    }
}

#[test]
fn read_header_wants_the_size_prefix() {
    let e = read_header(&[1, 2, 3], ByteOrder::LittleEndian).unwrap_err();
    assert_eq!(e.message(), "failed to read header size");
    let e = read_header(&[], ByteOrder::BigEndian).unwrap_err();
    assert_eq!(e.message(), "failed to read header size");
}

#[test]
fn read_header_wants_the_whole_header() {
    let archive = write_archive(b"header", b"", ByteOrder::LittleEndian).unwrap();
    let e = read_header(&archive[..archive.len() - 1], ByteOrder::LittleEndian).unwrap_err();
    assert_eq!(e.message(), "failed to read header");
    let e = read_header(&[0xFF; 8], ByteOrder::LittleEndian).unwrap_err();
    assert_eq!(e.message(), "failed to read header");
}

#[test]
fn read_header_in_the_other_order_misreads_the_size() {
    let archive = write_archive(b"header", b"", ByteOrder::LittleEndian).unwrap();
    let e = read_header(&archive, ByteOrder::BigEndian).unwrap_err();
    assert_eq!(e.message(), "failed to read header");
}

#[test]
fn read_header_wants_a_compressed_header() {
    let archive = assemble(b"plain", b"", ByteOrder::LittleEndian);
    let e = read_header(&archive, ByteOrder::LittleEndian).unwrap_err();
    assert_eq!(e.message(), "failed to decompress header");
    let archive = assemble(b"", b"rest", ByteOrder::LittleEndian);
    let e = read_header(&archive, ByteOrder::LittleEndian).unwrap_err();
    assert_eq!(e.message(), "failed to decompress header");
}

#[test]
fn read_header_takes_a_header_compressed_elsewhere() {
    let compressed = encode(b"abc", CompressionAlgo::ZSTD).unwrap();
    let archive = assemble(&compressed, b"xyz", ByteOrder::BigEndian);
    let (size, header) = read_header(&archive, ByteOrder::BigEndian).unwrap();
    assert_eq!(size as usize, compressed.len());
    assert_eq!(header, b"abc".to_vec());
}

#[test]
fn write_archive_fails_only_with_a_compression_error() {
    match write_archive(b"h", b"c", ByteOrder::LittleEndian) {
        Ok(archive) => assert!(archive.len() > 9),
        Err(e) => assert_eq!(e, FileReadError::CompressionError),
    }
}
