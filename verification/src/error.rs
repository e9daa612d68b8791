use vstd::prelude::*;

verus! {

/// Why an operation of this library failed.
#[derive(Clone, Copy, Debug, PartialEq, Eq, Structural)]
pub enum ArchiveError {
    /// The named entry is not in the archive.
    NotFound,
    /// The destination exists and overwriting was not asked for.
    AlreadyExists,
    /// The target is no directory, or the entry is not of the kind asked for.
    InvalidInput,
    /// The archive or the file system could not be read or written.
    Io,
}

impl ArchiveError {
    /// A short description of the failure.
    pub fn message(&self) -> (text: &'static str)
        ensures
            text@ == match *self {
                ArchiveError::NotFound => "The specified entry was not found in the archive."@,
                ArchiveError::AlreadyExists => "The specified file already exists."@,
                ArchiveError::InvalidInput => "The specified input is not of the expected kind."@,
                ArchiveError::Io => "The archive or the destination could not be accessed."@,
            },
    {
        match self {
            ArchiveError::NotFound => "The specified entry was not found in the archive.",
            ArchiveError::AlreadyExists => "The specified file already exists.",
            ArchiveError::InvalidInput => "The specified input is not of the expected kind.",
            ArchiveError::Io => "The archive or the destination could not be accessed.",
        }
    }
}

} // verus!
