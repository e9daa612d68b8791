//! Extraction helpers on top of a ZIP reader: locating entries, reading them
//! into memory, deciding what goes to disk, and telling whether a file looks
//! like a ZIP archive from its first bytes.
//!
//! The library touches neither files nor directories. Its callers read the
//! archive, ask the file system what exists, and carry out the writes that
//! the library asks for.

pub mod archive;
pub mod error;
pub mod file_utils;
pub mod read;

pub use crate::archive::Archive;
pub use crate::error::ArchiveError;
pub use crate::file_utils::{file_write_all_bytes, make_relative_path, PathComponent};
pub use crate::read::{
    is_zip, try_is_zip, zip_extract, zip_extract_file, zip_extract_file_to_memory, EntryKind,
    ExtractStep, ZipArchiveExtensions,
};
