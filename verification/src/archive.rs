//! The ZIP reader that this library builds on, and what is taken on trust of
//! it. An archive is read from memory, so what it holds is settled once its
//! bytes are: the entries are modelled as a sequence, and each call into the
//! reader is stated over that sequence.

use vstd::prelude::*;

use std::io::Cursor;
use std::io::Read;
use zip::read::ZipFile;
use zip::result::ZipError;
use zip::ZipArchive;

use crate::error::ArchiveError;

verus! {

/// `zip::ZipArchive`, the reader of a ZIP archive. Nothing of its inside is
/// known here.
#[verifier::external_type_specification]
#[verifier::external_body]
#[verifier::reject_recursive_types(R)]
pub struct ExZipArchive<R>(ZipArchive<R>);

/// `std::io::Cursor`, through which the reader reads bytes held in memory.
#[verifier::external_type_specification]
#[verifier::external_body]
#[verifier::reject_recursive_types(T)]
pub struct ExCursor<T>(Cursor<T>);

/// `zip::read::ZipFile`, an open entry of an archive. It borrows the archive
/// for as long as it lives.
#[verifier::external_type_specification]
#[verifier::external_body]
pub struct ExZipFile<'a>(ZipFile<'a>);

/// `zip::result::ZipError`, the reader's error.
#[verifier::external_type_specification]
#[verifier::external_body]
pub struct ExZipError(ZipError);

/// The four kinds of error that the reader reports.
#[derive(Clone, Copy, Debug, PartialEq, Eq, Structural)]
pub enum ZipFailure {
    /// Reading the archive's bytes failed.
    Io,
    /// The bytes are not a ZIP archive.
    InvalidArchive,
    /// The archive uses something that the reader does not support.
    UnsupportedArchive,
    /// There is no such entry.
    FileNotFound,
}

/// What the reader gives for an entry that it can open.
pub struct StoredFile {
    /// The sanitized name, component by component.
    pub name: Seq<Seq<u8>>,
    /// Whether the reader takes the entry for a directory.
    pub is_dir: bool,
    /// Whether the reader takes the entry for a regular file.
    pub is_file: bool,
    /// The decoded contents, or `None` where decoding them fails.
    pub contents: Option<Seq<u8>>,
}

/// One entry of an archive, as the reader presents it.
pub enum StoredEntry {
    /// The entry does not open without a password.
    Locked,
    /// Opening the entry fails.
    Unreadable(ZipFailure),
    /// The entry opens.
    Readable(StoredFile),
}

/// The entries of an archive, in the order of their indices.
pub uninterp spec fn archive_entries(archive: ZipArchive<Cursor<Vec<u8>>>) -> Seq<StoredEntry>;

/// What an open entry holds: its sanitized name and its flags, and what
/// reading it to its end gives.
pub uninterp spec fn opened_file(file: ZipFile<'_>) -> StoredFile;

/// The kind of an error of the reader.
pub uninterp spec fn zip_failure_of(error: ZipError) -> ZipFailure;

/// What opening `bytes` as an archive gives: the entries of the archive, or
/// the kind of the error.
pub uninterp spec fn parsed_archive(bytes: Seq<u8>) -> Result<Seq<StoredEntry>, ZipFailure>;

/// A name that is safe below any directory: it is not empty, is neither `.`
/// nor `..`, and holds no separator and no NUL.
pub open spec fn plain_segment(segment: Seq<u8>) -> bool {
    &&& segment.len() > 0
    &&& segment != seq![0x2eu8]
    &&& segment != seq![0x2eu8, 0x2eu8]
    &&& forall|i: int|
        0 <= i < segment.len() ==> segment[i] != 0x2f && segment[i] != 0x5c && segment[i] != 0
}

/// `ZipArchive::new` on a `Cursor` over `bytes`. Trusted: whether the bytes
/// open as an archive, and with which entries, depends on the bytes alone.
#[verifier::external_body]
fn parse_archive(bytes: Vec<u8>) -> (opened: Result<ZipArchive<Cursor<Vec<u8>>>, ZipError>)
    ensures
        match opened {
            Ok(archive) => parsed_archive(bytes@) == Ok::<Seq<StoredEntry>, ZipFailure>(
                archive_entries(archive),
            ),
            Err(error) => parsed_archive(bytes@) == Err::<Seq<StoredEntry>, ZipFailure>(
                zip_failure_of(error),
            ),
        },
{
    ZipArchive::new(Cursor::new(bytes))
}

/// `ZipArchive::len`. Trusted: it is the number of the archive's entries.
#[verifier::external_body]
fn entry_count(archive: &ZipArchive<Cursor<Vec<u8>>>) -> (count: usize)
    ensures
        count == archive_entries(*archive).len(),
{
    archive.len()
}

/// `ZipArchive::by_index_decrypt` with the empty password, which reports a
/// refused password as a value where `by_index` would panic. Trusted: the
/// refusal is that of a locked entry, and the call leaves the entries as they
/// are.
#[verifier::external_body]
fn entry_is_locked(archive: &mut ZipArchive<Cursor<Vec<u8>>>, index: usize) -> (locked: bool)
    ensures
        archive_entries(*final(archive)) == archive_entries(*old(archive)),
        locked == (index < archive_entries(*old(archive)).len() && archive_entries(
            *old(archive),
        )[index as int] is Locked),
{
    matches!(archive.by_index_decrypt(index, &[]), Ok(Err(_)))
}

/// `ZipArchive::by_index`. It panics on some entries that refuse the empty
/// password, so a locked entry is left out. Trusted: an index past the end is
/// reported as `FileNotFound`; an unreadable entry fails with its error; a
/// readable one opens, and the handle holds what the archive holds for it;
/// the entries stay as they are.
#[verifier::external_body]
pub(crate) fn open_file<'a>(archive: &'a mut ZipArchive<Cursor<Vec<u8>>>, index: usize) -> (opened:
    Result<ZipFile<'a>, ZipError>)
    requires
        !(index < archive_entries(*old(archive)).len() && archive_entries(
            *old(archive),
        )[index as int] is Locked),
    ensures
        archive_entries(*final(archive)) == archive_entries(*old(archive)),
        match opened {
            Ok(file) => {
                &&& index < archive_entries(*old(archive)).len()
                &&& archive_entries(*old(archive))[index as int] == StoredEntry::Readable(
                    opened_file(file),
                )
            },
            Err(error) => if index < archive_entries(*old(archive)).len() {
                archive_entries(*old(archive))[index as int] == StoredEntry::Unreadable(
                    zip_failure_of(error),
                )
            } else {
                zip_failure_of(error) == ZipFailure::FileNotFound
            },
        },
{
    archive.by_index(index)
}

/// `ZipFile::sanitized_name`, handed out component by component. Trusted:
/// it is the entry's sanitized name, and every component of it is a plain
/// segment: the reader keeps the ordinary names of the stored name up to its
/// first NUL and drops every other component.
#[verifier::external_body]
#[allow(deprecated)]
pub(crate) fn file_name(file: &ZipFile<'_>) -> (name: Vec<Vec<u8>>)
    ensures
        name.deep_view() == opened_file(*file).name,
        forall|i: int| 0 <= i < name.len() ==> plain_segment(#[trigger] name[i]@),
{
    file.sanitized_name().iter().map(|part| part.as_encoded_bytes().to_vec()).collect()
}

/// `ZipFile::is_dir`. Trusted: it tells whether the reader takes the open
/// entry for a directory, which is settled by the entry.
#[verifier::external_body]
pub(crate) fn file_is_dir(file: &ZipFile<'_>) -> (is_dir: bool)
    ensures
        is_dir == opened_file(*file).is_dir,
{
    file.is_dir()
}

/// `ZipFile::is_file`. Trusted: it tells whether the reader takes the open
/// entry for a regular file, which is settled by the entry. Nothing is
/// claimed of how the two flags go together.
#[verifier::external_body]
pub(crate) fn file_is_file(file: &ZipFile<'_>) -> (is_file: bool)
    ensures
        is_file == opened_file(*file).is_file,
{
    file.is_file()
}

/// `Read::read_to_end` on an open entry, which is given up. Trusted: the
/// contents that the entry holds are decoded, appended to `buffer` and
/// counted; where decoding fails the error is an I/O error and `buffer` has
/// at most grown.
#[verifier::external_body]
pub(crate) fn file_read(file: ZipFile<'_>, buffer: &mut Vec<u8>) -> (read: Result<usize, ZipError>)
    ensures
        match read {
            Ok(count) => {
                &&& opened_file(file).contents matches Some(contents)
                &&& count == contents.len()
                &&& final(buffer)@ == old(buffer)@ + contents
            },
            Err(error) => {
                &&& opened_file(file).contents is None
                &&& zip_failure_of(error) == ZipFailure::Io
                &&& old(buffer)@.is_prefix_of(final(buffer)@)
            },
        },
{
    let mut file = file;
    Ok(file.read_to_end(buffer)?)
}

/// Tells the variants of `ZipError` apart. Trusted: the kind of an error
/// is settled by the error.
#[verifier::external_body]
pub(crate) fn zip_failure(error: &ZipError) -> (failure: ZipFailure)
    ensures
        failure == zip_failure_of(*error),
{
    match error {
        ZipError::Io(_) => ZipFailure::Io,
        ZipError::InvalidArchive(_) => ZipFailure::InvalidArchive,
        ZipError::UnsupportedArchive(_) => ZipFailure::UnsupportedArchive,
        ZipError::FileNotFound => ZipFailure::FileNotFound,
    }
}

/// The error of this library that stands for a failure of the reader: a
/// missing entry is `NotFound`, everything else is `Io`.
pub open spec fn failure_class(failure: ZipFailure) -> ArchiveError {
    match failure {
        ZipFailure::FileNotFound => ArchiveError::NotFound,
        _ => ArchiveError::Io,
    }
}

/// Maps a failure of the reader to the error of this library.
pub fn classify(failure: ZipFailure) -> (error: ArchiveError)
    ensures
        error == failure_class(failure),
{
    match failure {
        ZipFailure::FileNotFound => ArchiveError::NotFound,
        _ => ArchiveError::Io,
    }
}

/// What opening `bytes` gives: the entries, or the error of this library
/// for the reader's failure.
pub open spec fn opened_entries(bytes: Seq<u8>) -> Result<Seq<StoredEntry>, ArchiveError> {
    match parsed_archive(bytes) {
        Ok(entries) => Ok(entries),
        Err(failure) => Err(failure_class(failure)),
    }
}

/// What opening entry `index` gives: the entry, `NotFound` past the end of
/// the archive, `Io` for a locked entry, and for an unreadable one the class
/// of its failure.
pub open spec fn opening(entries: Seq<StoredEntry>, index: int) -> Result<StoredFile, ArchiveError> {
    if 0 <= index < entries.len() {
        match entries[index] {
            StoredEntry::Locked => Err(ArchiveError::Io),
            StoredEntry::Unreadable(failure) => Err(failure_class(failure)),
            StoredEntry::Readable(file) => Ok(file),
        }
    } else {
        Err(ArchiveError::NotFound)
    }
}

/// An open ZIP archive that is read from memory. Its view is the sequence
/// of its entries.
pub struct Archive {
    inner: ZipArchive<Cursor<Vec<u8>>>,
}

impl View for Archive {
    type V = Seq<StoredEntry>;

    closed spec fn view(&self) -> Seq<StoredEntry> {
        archive_entries(self.inner)
    }
}

impl Archive {
    /// Opens the archive held in `bytes`.
    pub fn open(bytes: Vec<u8>) -> (opened: Result<Archive, ArchiveError>)
        ensures
            match opened_entries(bytes@) {
                Ok(entries) => opened matches Ok(archive) && archive@ == entries,
                Err(error) => opened matches Err(e) && e == error,
            },
    {
        match parse_archive(bytes) {
            Ok(inner) => Ok(Archive { inner }),
            Err(error) => Err(classify(zip_failure(&error))),
        }
    }

    /// The number of entries.
    pub fn len(&self) -> (count: usize)
        ensures
            count == self@.len(),
    {
        entry_count(&self.inner)
    }

    /// Opens entry `index`. A locked entry is reported as an I/O failure
    /// without being opened.
    pub(crate) fn open_entry<'a>(&'a mut self, index: usize) -> (opened: Result<
        ZipFile<'a>,
        ArchiveError,
    >)
        ensures
            final(self)@ == old(self)@,
            match opening(old(self)@, index as int) {
                Ok(file) => opened matches Ok(handle) && opened_file(handle) == file,
                Err(error) => opened matches Err(e) && e == error,
            },
    {
        if entry_is_locked(&mut self.inner, index) {
            return Err(ArchiveError::Io);
        }
        match open_file(&mut self.inner, index) {
            Ok(file) => Ok(file),
            Err(error) => Err(classify(zip_failure(&error))),
        }
    }
}

} // verus!
