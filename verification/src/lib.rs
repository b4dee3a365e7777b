//! Content-hash duplicate detection and collision-safe relocation of files.
//!
//! A run hashes every file of a tree into a record, groups the records by
//! the identity of their content, and moves files into a directory layout
//! partitioned by capture date. This crate holds the rules of that run: what
//! a content identity is, which records form a duplicate group, where a file
//! goes, and which steps take it there without overwriting anything. It
//! touches no file itself: the caller performs each step on the file system
//! and reports what came of it.

pub mod dates;
pub mod duplicates;
pub mod exif;
pub mod identity;
pub mod paths;
pub mod record;
pub mod relocation;
pub mod report;
pub mod text;

pub use dates::{DateKey, ExifDate};
pub use duplicates::{find_duplicates, DuplicateGroup};
pub use exif::ExifData;
pub use identity::{hash_file_blake2, hash_file_city128, hash_file_murmur128, Blake2Hasher};
pub use record::FileInfo;
pub use relocation::{MoveAction, MoveEvent, MoveOperation, MoveState};
pub use report::parse_exif_report;
