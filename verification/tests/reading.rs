use qz::archive::{QZArchive, QZArchiveHeader};
use qz::codec::{checksum, CompressionAlgo};
use qz::entry::{QZDir, QZEntry, QZFile};
use qz::errors::{EntryError, FileReadError, ListingError, ReadError};
use qz::format::{read_header, write_archive, ByteOrder};
use qz::pack::create_archive;
use qz::source::{SourceDir, SourceEntry, SourceFile};

fn file(name: &str, data: &[u8]) -> SourceEntry {
    SourceEntry::File(SourceFile { name: name.to_string(), data: data.to_vec() })
}

fn dir(name: &str, content: Vec<SourceEntry>) -> SourceDir {
    SourceDir { name: name.to_string(), content }
}

fn scenario() -> SourceDir {
    dir("top", vec![file("a.txt", b"hello"), SourceEntry::Dir(dir("sub", vec![file("b.txt", b"world")]))])
}

/// Packs `source`, lays the archive file out around a stand-in for the
/// serialised header, and opens it again.
fn packed(source: &SourceDir, algo: CompressionAlgo) -> (QZArchive, Vec<u8>) {
    let order = ByteOrder::native();
    let (header, content) = create_archive(source, "archive", "for the tests", algo).unwrap();
    let bytes = write_archive(b"{\"stands\":\"for the header\"}", &content, order).unwrap();
    let (size, serialised) = read_header(&bytes, order).unwrap();
    assert_eq!(serialised, b"{\"stands\":\"for the header\"}".to_vec());
    assert_eq!(size as usize, bytes.len() - 8 - content.len());
    (QZArchive::new("archive.qz", size, header).unwrap(), bytes)
}

fn stored_file(archive: &QZArchive, path: &str) -> QZFile {
    match archive.get_entry(path).unwrap() {
        QZEntry::File(f) => f,
        QZEntry::Dir(_) => panic!("a file was expected"),
    }
}

fn absolute_range(archive: &QZArchive, path: &str) -> std::ops::Range<usize> {
    let f = stored_file(archive, path);
    let start = 8 + archive.header_size + f.index_start;
    start as usize..(start + f.index_size) as usize
}

#[test]
fn scenario_with_zstd() {
    let (archive, mut bytes) = packed(&scenario(), CompressionAlgo::ZSTD);
    assert_eq!(archive.ls("/"), Ok(vec!["a.txt".to_string(), "sub".to_string()]));
    assert_eq!(archive.ls("/sub"), Ok(vec!["b.txt".to_string()]));
    assert_eq!(archive.read_file("/a.txt", &bytes), Ok(b"hello".to_vec()));
    assert_eq!(archive.read_file("/sub/b.txt", &bytes), Ok(b"world".to_vec()));
    assert_eq!(archive.check_file("/a.txt", &bytes), Ok(()));
    assert_eq!(archive.check_file("/sub/b.txt", &bytes), Ok(()));

    let expected = stored_file(&archive, "/sub/b.txt").checksum;
    let range = absolute_range(&archive, "/sub/b.txt");
    bytes[range.start + 1] ^= 0x01;
    let actual = checksum(&bytes[range]);
    assert_ne!(actual, expected);
    assert_eq!(
        archive.check_file("/sub/b.txt", &bytes),
        Err(FileReadError::Checksum(actual, expected))
    );
    assert_eq!(
        archive.read_file("/sub/b.txt", &bytes),
        Err(FileReadError::Checksum(actual, expected))
    );
    assert_eq!(archive.check_file("/a.txt", &bytes), Ok(()));
    assert_eq!(archive.read_file("/a.txt", &bytes), Ok(b"hello".to_vec()));
}

#[test]
fn round_trip_with_every_algorithm() {
    let big: Vec<u8> = (0..5000u32).map(|i| (i * i % 251) as u8).collect();
    let source = dir(
        "top",
        vec![
            file("empty", b""),
            SourceEntry::Dir(dir(
                "one",
                vec![SourceEntry::Dir(dir("two", vec![file("deep.bin", &big)])), file("x", b"x")],
            )),
            file("last", b"the last one"),
        ],
    );
    for algo in [CompressionAlgo::ZSTD, CompressionAlgo::LZ4, CompressionAlgo::NONE] {
        let (archive, bytes) = packed(&source, algo);
        assert_eq!(archive.read_file("/empty", &bytes), Ok(Vec::new()));
        assert_eq!(archive.read_file("/one/two/deep.bin", &bytes), Ok(big.clone()));
        assert_eq!(archive.read_file("/one/x", &bytes), Ok(b"x".to_vec()));
        assert_eq!(archive.read_file("/last", &bytes), Ok(b"the last one".to_vec()));
        assert_eq!(archive.check_file("/one/two/deep.bin", &bytes), Ok(()));
    }
}

#[test]
fn listing_gives_the_sources_names_in_order() {
    let source = dir(
        "top",
        vec![
            file("z", b""),
            SourceEntry::Dir(dir("m", vec![file("2", b""), file("1", b"")])),
            SourceEntry::Dir(dir("none", vec![])),
            file("a", b""),
        ],
    );
    let (archive, _) = packed(&source, CompressionAlgo::LZ4);
    assert_eq!(
        archive.ls("/"),
        Ok(vec!["z".to_string(), "m".to_string(), "none".to_string(), "a".to_string()])
    );
    assert_eq!(archive.ls("/m"), Ok(vec!["2".to_string(), "1".to_string()]));
    assert_eq!(archive.ls("/none"), Ok(Vec::new()));
    assert_eq!(archive.ls("/m/"), Ok(vec!["2".to_string(), "1".to_string()]));
    assert_eq!(archive.ls("//m"), Ok(vec!["2".to_string(), "1".to_string()]));
}

#[test]
fn every_flipped_byte_is_reported() {
    for algo in [CompressionAlgo::ZSTD, CompressionAlgo::LZ4, CompressionAlgo::NONE] {
        let (archive, bytes) = packed(&scenario(), algo);
        let expected = stored_file(&archive, "/a.txt").checksum;
        for at in absolute_range(&archive, "/a.txt") {
            let mut damaged = bytes.clone();
            damaged[at] ^= 0xFF;
            for outcome in [
                archive.read_file("/a.txt", &damaged).map(|_| ()),
                archive.check_file("/a.txt", &damaged),
            ] {
                match outcome {
                    Err(FileReadError::Checksum(actual, recorded)) => {
                        assert_eq!(recorded, expected);
                        assert_ne!(actual, expected);
                    }
                    other => panic!("expected a checksum failure, got {:?}", other),
                }
            }
            assert_eq!(archive.check_file("/sub/b.txt", &damaged), Ok(()));
        }
    }
}

#[test]
fn damage_outside_the_region_is_not_seen() {
    let (archive, mut bytes) = packed(&scenario(), CompressionAlgo::NONE);
    bytes[0] ^= 0xFF;
    bytes[9] ^= 0xFF;
    assert_eq!(archive.read_file("/a.txt", &bytes), Ok(b"hello".to_vec()));
    assert_eq!(archive.read_file("/sub/b.txt", &bytes), Ok(b"world".to_vec()));
}

#[test]
fn a_matching_checksum_over_bad_bytes_is_a_compression_error() {
    let (archive, bytes) = packed(&scenario(), CompressionAlgo::ZSTD);
    let mut f = stored_file(&archive, "/a.txt");
    let range = absolute_range(&archive, "/a.txt");
    let mut damaged = bytes.clone();
    damaged[range.start] ^= 0xFF;
    f.checksum = checksum(&damaged[range]);
    let offset = 8 + archive.header_size;
    assert_eq!(f.read_file(&damaged, offset), Err(FileReadError::CompressionError));
    assert_eq!(f.is_valid(&damaged, offset), Err(FileReadError::CompressionError));
    assert_eq!(f.read_file(&bytes, offset).map(|_| ()), Err(FileReadError::Checksum(
        stored_file(&archive, "/a.txt").checksum,
        f.checksum,
    )));
}

#[test]
fn reading_a_directory_is_not_a_file() {
    let (archive, bytes) = packed(&scenario(), CompressionAlgo::ZSTD);
    assert_eq!(archive.read_file("/sub", &bytes), Err(FileReadError::NotAFile));
    assert_eq!(archive.read_file("/", &bytes), Err(FileReadError::NotAFile));
    assert_eq!(archive.check_file("/sub", &bytes), Err(FileReadError::NotAFile));
}

#[test]
fn listing_a_file_is_a_file() {
    let (archive, _) = packed(&scenario(), CompressionAlgo::ZSTD);
    assert_eq!(archive.ls("/a.txt"), Err(ListingError::IsFile));
    assert_eq!(archive.ls("/sub/b.txt"), Err(ListingError::IsFile));
}

#[test]
fn a_missing_path_is_not_found() {
    let (archive, bytes) = packed(&scenario(), CompressionAlgo::ZSTD);
    assert_eq!(archive.read_file("/nope", &bytes), Err(FileReadError::NotFound));
    assert_eq!(archive.read_file("/sub/nope", &bytes), Err(FileReadError::NotFound));
    assert_eq!(archive.check_file("/nope", &bytes), Err(FileReadError::NotFound));
    assert_eq!(archive.ls("/nope"), Err(ListingError::NothingFound));
    assert_eq!(archive.ls("/sub/nope"), Err(ListingError::NothingFound));
    assert_eq!(archive.get_entry("/nope").unwrap_err(), EntryError::NothingFound);
    assert_eq!(archive.get_entry("/A.TXT").unwrap_err(), EntryError::NothingFound);
}

#[test]
fn dots_are_path_errors() {
    let (archive, bytes) = packed(&scenario(), CompressionAlgo::ZSTD);
    assert_eq!(archive.get_entry("/sub/..").unwrap_err(), EntryError::PathError);
    assert_eq!(archive.get_entry("/./a.txt").unwrap_err(), EntryError::PathError);
    assert_eq!(archive.get_entry("/../a.txt").unwrap_err(), EntryError::PathError);
    assert_eq!(archive.ls("/sub/.."), Err(ListingError::PathError));
    assert_eq!(archive.read_file("/sub/../a.txt", &bytes), Err(FileReadError::NotFound));
    assert_eq!(archive.get_entry("/nope/..").unwrap_err(), EntryError::NothingFound);
}

#[test]
fn a_path_has_to_be_rooted() {
    let (archive, bytes) = packed(&scenario(), CompressionAlgo::ZSTD);
    assert_eq!(
        archive.get_entry("a.txt").unwrap_err(),
        EntryError::Other("not rooted".to_string())
    );
    assert_eq!(archive.get_entry("").unwrap_err(), EntryError::Other("not rooted".to_string()));
    assert_eq!(archive.ls("sub"), Err(ListingError::Other("not rooted".to_string())));
    assert_eq!(archive.read_file("a.txt", &bytes), Err(FileReadError::NotFound));
}

#[test]
fn a_path_ends_at_a_file() {
    let (archive, bytes) = packed(&scenario(), CompressionAlgo::ZSTD);
    assert_eq!(
        archive.get_entry("/a.txt/more").unwrap_err(),
        EntryError::Other("File is not a Directory".to_string())
    );
    assert_eq!(
        archive.ls("/a.txt/more"),
        Err(ListingError::Other("File is not a Directory".to_string()))
    );
    assert_eq!(archive.read_file("/a.txt/more", &bytes), Err(FileReadError::NotFound));
    assert_eq!(
        archive.get_entry("/a.txt/..").unwrap_err(),
        EntryError::Other("File is not a Directory".to_string())
    );
}

#[test]
fn get_entry_returns_the_entry() {
    let (archive, _) = packed(&scenario(), CompressionAlgo::NONE);
    assert_eq!(
        archive.get_entry("/sub/b.txt"),
        Ok(QZEntry::File(QZFile {
            name: "b.txt".to_string(),
            compression: CompressionAlgo::NONE,
            checksum: checksum(b"world"),
            index_start: 5,
            index_size: 5,
        }))
    );
    match archive.get_entry("/sub").unwrap() {
        QZEntry::Dir(d) => {
            assert_eq!(d.name, "sub");
            assert_eq!(d.content.len(), 1);
        }
        QZEntry::File(_) => panic!("a directory was expected"),
    }
    assert_eq!(archive.get_entry("/").unwrap(), archive.header.root);
}

#[test]
fn the_first_of_two_equal_names_is_found() {
    let source = dir("top", vec![file("twin", b"first"), file("twin", b"second")]);
    let (archive, bytes) = packed(&source, CompressionAlgo::LZ4);
    assert_eq!(archive.ls("/"), Ok(vec!["twin".to_string(), "twin".to_string()]));
    assert_eq!(archive.read_file("/twin", &bytes), Ok(b"first".to_vec()));
}

#[test]
fn a_short_archive_is_a_short_read() {
    let (archive, bytes) = packed(&scenario(), CompressionAlgo::NONE);
    let short = FileReadError::Other("failed to fill whole buffer".to_string());
    assert_eq!(archive.read_file("/sub/b.txt", &bytes[..bytes.len() - 1]), Err(short));
    assert_eq!(archive.read_file("/a.txt", &bytes[..bytes.len() - 1]), Ok(b"hello".to_vec()));
    let short = FileReadError::Other("failed to fill whole buffer".to_string());
    assert_eq!(archive.check_file("/a.txt", &[]), Err(short));
}

#[test]
fn offsets_beyond_any_file_are_short_reads() {
    let short = || FileReadError::Other("failed to fill whole buffer".to_string());
    let f = QZFile {
        name: "f".to_string(),
        compression: CompressionAlgo::NONE,
        checksum: 0,
        index_start: u64::MAX,
        index_size: 1,
    };
    assert_eq!(f.read_file(b"0123456789", 8), Err(short()));
    assert_eq!(f.is_valid(b"0123456789", 0), Err(short()));
    let root = QZEntry::Dir(QZDir { name: "r".to_string(), content: vec![QZEntry::File(f)] });
    let header = QZArchiveHeader {
        name: String::new(),
        info: String::new(),
        version: String::new(),
        root,
    };
    let archive = QZArchive::new("x.qz", u64::MAX - 3, header).unwrap();
    assert_eq!(archive.read_file("/f", b"0123456789"), Err(short()));
}

#[test]
fn a_file_reads_its_own_region() {
    let f = QZFile {
        name: "f".to_string(),
        compression: CompressionAlgo::NONE,
        checksum: checksum(b"345"),
        index_start: 1,
        index_size: 3,
    };
    assert_eq!(f.read_file(b"0123456789", 2), Ok(b"345".to_vec()));
    assert_eq!(f.is_valid(b"0123456789", 2), Ok(()));
    assert_eq!(
        f.read_file(b"0123456789", 3),
        Err(FileReadError::Checksum(checksum(b"456"), checksum(b"345")))
    );
    assert_eq!(
        f.read_file(b"0123456789", 6),
        Err(FileReadError::Checksum(checksum(b"789"), checksum(b"345")))
    );
    assert_eq!(
        f.read_file(b"0123456789", 7),
        Err(FileReadError::Other("failed to fill whole buffer".to_string()))
    );
}

#[test]
fn open_stored_checks_before_it_decodes() {
    let f = QZFile {
        name: "f".to_string(),
        compression: CompressionAlgo::ZSTD,
        checksum: 5,
        index_start: 0,
        index_size: 3,
    };
    assert_eq!(f.open_stored(b"abc", 6), Err(FileReadError::Checksum(6, 5)));
    assert_eq!(f.open_stored(b"abc", 5), Err(FileReadError::CompressionError));
    let plain = QZFile { compression: CompressionAlgo::NONE, ..f.clone() };
    assert_eq!(plain.open_stored(b"abc", 5), Ok(b"abc".to_vec()));
}

#[test]
fn a_header_needs_a_directory_as_its_root() {
    let header = QZArchiveHeader {
        name: "n".to_string(),
        info: "i".to_string(),
        version: "v".to_string(),
        root: QZEntry::File(QZFile {
            name: "f".to_string(),
            compression: CompressionAlgo::NONE,
            checksum: 0,
            index_start: 0,
            index_size: 0,
        }),
    };
    let e = QZArchive::new("x.qz", 0, header).unwrap_err();
    assert_eq!(e.message(), "failed to decode header");
}

#[test]
fn the_handle_keeps_what_it_was_made_with() {
    let (archive, bytes) = packed(&scenario(), CompressionAlgo::ZSTD);
    assert_eq!(archive.archive_file, "archive.qz");
    assert_eq!(archive.header.name, "archive");
    assert_eq!(archive.header.info, "for the tests");
    assert!(8 + archive.header_size as usize <= bytes.len());
}

#[test]
fn read_error_keeps_its_message() {
    let e = ReadError::new("failed to open archive file");
    assert_eq!(e.message(), "failed to open archive file");
}

#[test]
fn listing_errors_carry_resolution_errors() {
    assert_eq!(ListingError::from_entry_error(EntryError::NothingFound), ListingError::NothingFound);
    assert_eq!(ListingError::from_entry_error(EntryError::PathError), ListingError::PathError);
    assert_eq!(
        ListingError::from_entry_error(EntryError::Other("why".to_string())),
        ListingError::Other("why".to_string())
    );
}
