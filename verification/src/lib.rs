//! A single-file archive of a directory tree, with per-file compression and
//! checksums, and random access to its entries.

pub mod archive;
pub mod codec;
pub mod entry;
pub mod errors;
pub mod format;
pub mod laws;
pub mod pack;
pub mod path;
pub mod source;
pub mod tree;

pub use crate::archive::{QZArchive, QZArchiveHeader};
pub use crate::codec::CompressionAlgo;
pub use crate::entry::{QZDir, QZEntry, QZFile};
pub use crate::format::{read_header, write_archive, ByteOrder};
pub use crate::pack::create_archive;
pub use crate::source::{SourceDir, SourceEntry, SourceFile};
