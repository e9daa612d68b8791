use vstd::prelude::*;
use vstd::slice::slice_to_vec;

use crate::archive::{
    file_is_dir, file_is_file, file_name, file_read, opened_entries, opening, plain_segment,
    Archive, StoredEntry, StoredFile,
};
use crate::error::ArchiveError;
use crate::file_utils::{
    bytes_equal, file_write_all_bytes, lemma_bytes_deep_view, ComponentView, PathComponent,
};

verus! {

/// Whether `head`, the leading bytes of a file, mark it as ZIP-like: the
/// letters "PK", and after them a third byte of 3, 5 or 7 or a fourth byte of
/// 4, 6 or 8. Fewer than four bytes never qualify.
pub open spec fn zip_signature(head: Seq<u8>) -> bool {
    &&& head.len() >= 4
    &&& head[0] == 0x50
    &&& head[1] == 0x4b
    &&& (head[2] == 0x03 || head[2] == 0x05 || head[2] == 0x07 || head[3] == 0x04 || head[3]
        == 0x06 || head[3] == 0x08)
}

/// Classifies the leading bytes of a file.
pub fn has_zip_signature(head: &[u8]) -> (found: bool)
    ensures
        found == zip_signature(head@),
{
    let marker: [u8; 2] = [0x50, 0x4b];
    let formats: [u8; 6] = [0x03, 0x04, 0x05, 0x06, 0x07, 0x08];
    if head.len() < 4 {
        return false;
    }
    let mut i: usize = 0;
    while i < 2
        invariant
            i <= 2,
            head.len() >= 4,
            marker@ == seq![0x50u8, 0x4bu8],
            forall|k: int| 0 <= k < i ==> head[k] == marker[k],
        decreases 2 - i,
    {
        if head[i] != marker[i] {
            return false;
        }
        i += 1;
    }
    let mut j: usize = 0;
    while j < 6
        invariant
            j <= 6,
            j % 2 == 0,
            head.len() >= 4,
            head[0] == 0x50,
            head[1] == 0x4b,
            formats@ == seq![0x03u8, 0x04u8, 0x05u8, 0x06u8, 0x07u8, 0x08u8],
            j >= 2 ==> head[2] != 0x03 && head[3] != 0x04,
            j >= 4 ==> head[2] != 0x05 && head[3] != 0x06,
            j >= 6 ==> head[2] != 0x07 && head[3] != 0x08,
        decreases 6 - j,
    {
        if head[2] == formats[j] || head[3] == formats[j + 1] {
            return true;
        }
        j += 2;
    }
    false
}

/// Classifies a file from the outcome of reading its first bytes: a failed
/// read is handed on, a successful one is classified.
pub fn try_is_zip(read: Result<Vec<u8>, ArchiveError>) -> (outcome: Result<bool, ArchiveError>)
    ensures
        outcome == match read {
            Ok(head) => Ok::<bool, ArchiveError>(zip_signature(head@)),
            Err(e) => Err::<bool, ArchiveError>(e),
        },
{
    match read {
        Ok(head) => Ok(has_zip_signature(head.as_slice())),
        Err(e) => Err(e),
    }
}

/// Classifies a file from the outcome of reading its first bytes, taking a
/// failed read for "not a ZIP file".
pub fn is_zip(read: Result<Vec<u8>, ArchiveError>) -> (found: bool)
    ensures
        found == (read matches Ok(head) && zip_signature(head@)),
        read matches Ok(head) && head@.len() < 4 ==> !found,
        read matches Ok(head) && head@.len() >= 2 && !(head@[0] == 0x50 && head@[1] == 0x4b)
            ==> !found,
        read is Err ==> !found,
{
    match try_is_zip(read) {
        Ok(found) => found,
        Err(_) => false,
    }
}

/// What an entry is for extraction.
#[derive(Clone, Copy, Debug, PartialEq, Eq, Structural)]
pub enum EntryKind {
    /// The entry stands for a directory.
    Directory,
    /// The entry stands for a plain file.
    File,
    /// The entry is neither: a link, or something special.
    Other,
}

/// The kind of an entry by the two flags that the reader gives for it. A
/// directory is a directory whatever else is said of it; a plain file is a
/// regular file that is no directory.
pub open spec fn kind_by_flags(is_dir: bool, is_file: bool) -> EntryKind {
    if is_dir {
        EntryKind::Directory
    } else if is_file {
        EntryKind::File
    } else {
        EntryKind::Other
    }
}

/// The kind of an open entry.
pub open spec fn kind_of(file: StoredFile) -> EntryKind {
    kind_by_flags(file.is_dir, file.is_file)
}

/// Tells the kind of an entry from the two flags that the reader gives
/// for it.
pub fn entry_kind(is_dir: bool, is_file: bool) -> (kind: EntryKind)
    ensures
        kind == kind_by_flags(is_dir, is_file),
{
    if is_dir {
        EntryKind::Directory
    } else if is_file {
        EntryKind::File
    } else {
        EntryKind::Other
    }
}

/// The path made of the ordinary names `name`, in their order.
pub open spec fn normal_path(name: Seq<Seq<u8>>) -> Seq<ComponentView> {
    Seq::new(name.len(), |i: int| ComponentView::Normal(name[i]))
}

/// A path that stays below whatever directory it is joined to: each of its
/// components is an ordinary name, and each name is a plain segment.
pub open spec fn confined(path: Seq<ComponentView>) -> bool {
    forall|i: int| 0 <= i < path.len() ==> plain_component(#[trigger] path[i])
}

/// An ordinary name that is a plain segment.
pub open spec fn plain_component(component: ComponentView) -> bool {
    component matches ComponentView::Normal(segment) && plain_segment(segment)
}

/// How many levels below a directory the walk along `path` from that
/// directory ends, or `None` once the walk has left the directory: by going
/// up from it, or by starting over at a root or a prefix.
pub open spec fn depth_below(path: Seq<ComponentView>) -> Option<nat>
    decreases path.len(),
{
    if path.len() == 0 {
        Some(0)
    } else {
        match depth_below(path.drop_last()) {
            None => None,
            Some(depth) => match path.last() {
                ComponentView::Normal(_) => Some(depth + 1),
                ComponentView::CurDir => Some(depth),
                ComponentView::ParentDir => if depth > 0 {
                    Some((depth - 1) as nat)
                } else {
                    None
                },
                ComponentView::RootDir => None,
                ComponentView::Prefix(_) => None,
            },
        }
    }
}

/// A confined path never leaves the directory it is joined to: each of
/// its components leads one level further down.
pub proof fn lemma_confined_path_stays_below(path: Seq<ComponentView>, n: int)
    requires
        confined(path),
        0 <= n <= path.len(),
    ensures
        depth_below(path.take(n)) == Some(n as nat),
    decreases n,
{
    if n > 0 {
        lemma_confined_path_stays_below(path, n - 1);
        assert(path.take(n).drop_last() =~= path.take(n - 1));
        assert(plain_component(path[n - 1]));
        assert(path.take(n).last() == path[n - 1]);
    }
}

/// Entry `index` opens and its sanitized name is `path`.
pub open spec fn names_entry(entries: Seq<StoredEntry>, index: int, path: Seq<ComponentView>) -> bool {
    opening(entries, index) matches Ok(file) && normal_path(file.name) == path
}

/// Entry `index` is the first one whose sanitized name is `path`.
pub open spec fn is_first_named(entries: Seq<StoredEntry>, path: Seq<ComponentView>, index: int) -> bool {
    &&& 0 <= index < entries.len()
    &&& names_entry(entries, index, path)
    &&& forall|earlier: int| 0 <= earlier < index ==> !names_entry(entries, earlier, path)
}

/// The index of the first entry whose sanitized name is `path`, if there is
/// one.
pub open spec fn located(entries: Seq<StoredEntry>, path: Seq<ComponentView>) -> Option<int> {
    if exists|index: int| is_first_named(entries, path, index) {
        Some(choose|index: int| is_first_named(entries, path, index))
    } else {
        None
    }
}

/// What reading entry `index` into memory gives: its contents, the error of
/// opening it, `InvalidInput` where it is no plain file, or `Io` where its
/// contents do not decode.
pub open spec fn memory_outcome(entries: Seq<StoredEntry>, index: int) -> Result<Seq<u8>, ArchiveError> {
    match opening(entries, index) {
        Err(error) => Err(error),
        Ok(file) => match kind_of(file) {
            EntryKind::File => match file.contents {
                Some(contents) => Ok(contents),
                None => Err(ArchiveError::Io),
            },
            _ => Err(ArchiveError::InvalidInput),
        },
    }
}

/// Entry `index` is a plain file whose contents do not decode: the one case
/// in which a failed read may leave bytes behind.
pub open spec fn decoding_fails(entries: Seq<StoredEntry>, index: int) -> bool {
    opening(entries, index) matches Ok(file) && kind_of(file) == EntryKind::File
        && file.contents is None
}

/// What extracting entry `index` to a destination file gives: the bytes to
/// put there, or an error. The entry is read first; only then is a
/// destination that exists refused.
pub open spec fn file_outcome(
    entries: Seq<StoredEntry>,
    index: int,
    destination_exists: bool,
    overwrite: bool,
) -> Result<Seq<u8>, ArchiveError> {
    match memory_outcome(entries, index) {
        Err(error) => Err(error),
        Ok(contents) => if destination_exists && !overwrite {
            Err(ArchiveError::AlreadyExists)
        } else {
            Ok(contents)
        },
    }
}

/// One step of extracting a whole archive, as a value of mathematics.
pub enum StepView {
    CreateDirectory { path: Seq<ComponentView> },
    WriteFile { path: Seq<ComponentView>, bytes: Seq<u8>, overwrite: bool },
    Skip,
    Done,
}

/// What is to be done for one entry when a whole archive is extracted. The
/// paths are relative to the target directory.
#[derive(Debug, PartialEq, Eq)]
pub enum ExtractStep {
    /// Create the directory at `path`, with the directories above it.
    CreateDirectory { path: Vec<PathComponent> },
    /// Write `bytes` to the file at `path`.
    WriteFile { path: Vec<PathComponent>, bytes: Vec<u8>, overwrite: bool },
    /// The entry is neither a directory nor a plain file: nothing is done.
    Skip,
    /// There is no such entry: the archive has been walked to its end.
    Done,
}

impl View for ExtractStep {
    type V = StepView;

    open spec fn view(&self) -> StepView {
        match *self {
            ExtractStep::CreateDirectory { path } => StepView::CreateDirectory {
                path: path.deep_view(),
            },
            ExtractStep::WriteFile { path, bytes, overwrite } => StepView::WriteFile {
                path: path.deep_view(),
                bytes: bytes@,
                overwrite,
            },
            ExtractStep::Skip => StepView::Skip,
            ExtractStep::Done => StepView::Done,
        }
    }
}

/// The step for entry `index` of an archive that is extracted into a
/// target: nothing but `InvalidInput` where the target is no directory;
/// `Done` past the last entry; a directory is created, a plain file is
/// written over whatever is there, any other entry is skipped; an entry that
/// does not open, or whose contents do not decode, ends the extraction.
pub open spec fn extract_outcome(
    entries: Seq<StoredEntry>,
    target_is_directory: bool,
    index: int,
) -> Result<StepView, ArchiveError> {
    if !target_is_directory {
        Err(ArchiveError::InvalidInput)
    } else if index >= entries.len() {
        Ok(StepView::Done)
    } else {
        match opening(entries, index) {
            Err(error) => Err(error),
            Ok(file) => match kind_of(file) {
                EntryKind::Directory => Ok(
                    StepView::CreateDirectory { path: normal_path(file.name) },
                ),
                EntryKind::File => match file.contents {
                    Some(contents) => Ok(
                        StepView::WriteFile {
                            path: normal_path(file.name),
                            bytes: contents,
                            overwrite: true,
                        },
                    ),
                    None => Err(ArchiveError::Io),
                },
                EntryKind::Other => Ok(StepView::Skip),
            },
        }
    }
}

/// The path that a step writes to, where it writes.
pub open spec fn step_path(step: StepView) -> Seq<ComponentView> {
    match step {
        StepView::CreateDirectory { path } => path,
        StepView::WriteFile { path, .. } => path,
        _ => Seq::empty(),
    }
}

/// Component `k` of the path made of the names `name`.
proof fn lemma_normal_path_index(name: Vec<Vec<u8>>, k: int)
    requires
        0 <= k < name.len(),
    ensures
        normal_path(name.deep_view())[k] == ComponentView::Normal(name[k]@),
{
    lemma_bytes_deep_view(name[k]);
}

/// Whether the ordinary names `name` make up the path `path`: as many
/// components as names, each of them ordinary and with the bytes of its name.
pub fn is_named(name: &Vec<Vec<u8>>, path: &Vec<PathComponent>) -> (same: bool)
    ensures
        same == (normal_path(name.deep_view()) == path.deep_view()),
{
    if name.len() != path.len() {
        assert(normal_path(name.deep_view()).len() != path.deep_view().len());
        return false;
    }
    let mut i: usize = 0;
    while i < name.len()
        invariant
            i <= name.len(),
            name.len() == path.len(),
            forall|k: int| 0 <= k < i ==> path[k].deep_view() == ComponentView::Normal(name[k]@),
        decreases name.len() - i,
    {
        let matched = match &path[i] {
            PathComponent::Normal(bytes) => bytes_equal(name[i].as_slice(), bytes.as_slice()),
            _ => false,
        };
        if !matched {
            proof {
                lemma_normal_path_index(*name, i as int);
                assert(path.deep_view()[i as int] == path[i as int].deep_view());
            }
            return false;
        }
        i += 1;
    }
    proof {
        assert forall|k: int| 0 <= k < name.len() implies normal_path(name.deep_view())[k]
            == path.deep_view()[k] by {
            lemma_normal_path_index(*name, k);
        }
        assert(normal_path(name.deep_view()) =~= path.deep_view());
    }
    true
}

/// The path made of the ordinary names `name`, in their order.
pub fn to_path(name: &Vec<Vec<u8>>) -> (path: Vec<PathComponent>)
    ensures
        path.deep_view() == normal_path(name.deep_view()),
{
    let mut path: Vec<PathComponent> = Vec::new();
    let mut i: usize = 0;
    while i < name.len()
        invariant
            i <= name.len(),
            path.len() == i,
            forall|k: int| 0 <= k < i ==> path[k].deep_view() == ComponentView::Normal(name[k]@),
        decreases name.len() - i,
    {
        path.push(PathComponent::Normal(slice_to_vec(name[i].as_slice())));
        i += 1;
    }
    proof {
        assert forall|k: int| 0 <= k < name.len() implies normal_path(name.deep_view())[k]
            == path.deep_view()[k] by {
            lemma_normal_path_index(*name, k);
        }
        assert(path.deep_view() =~= normal_path(name.deep_view()));
    }
    path
}

/// Names that are plain segments make a confined path.
proof fn lemma_plain_names_are_confined(name: Vec<Vec<u8>>)
    requires
        forall|i: int| 0 <= i < name.len() ==> plain_segment(#[trigger] name[i]@),
    ensures
        confined(normal_path(name.deep_view())),
{
    let path = normal_path(name.deep_view());
    assert forall|i: int| 0 <= i < path.len() implies plain_component(#[trigger] path[i]) by {
        lemma_normal_path_index(name, i);
        assert(plain_segment(name[i]@));
    }
}

/// No two entries are both the first with a name.
pub proof fn lemma_first_named_is_unique(
    entries: Seq<StoredEntry>,
    path: Seq<ComponentView>,
    i: int,
    j: int,
)
    requires
        is_first_named(entries, path, i),
        is_first_named(entries, path, j),
    ensures
        i == j,
{
}

/// Extraction on top of an open archive.
pub trait ZipArchiveExtensions {
    /// The entries of the archive, in the order of their indices.
    spec fn entries(&self) -> Seq<StoredEntry>;

    /// Says what extracting the whole archive into a target asks for at
    /// entry `file_number`. The caller walks the indices upwards from 0,
    /// carries each step out, and stops at `Done` or at the first error.
    /// Every path that a step names is confined to the target.
    fn extract(&mut self, target_is_directory: bool, file_number: usize) -> (step: Result<
        ExtractStep,
        ArchiveError,
    >)
        ensures
            final(self).entries() == old(self).entries(),
            match extract_outcome(old(self).entries(), target_is_directory, file_number as int) {
                Ok(expected) => step matches Ok(found) && found@ == expected,
                Err(error) => step matches Err(e) && e == error,
            },
            step matches Ok(found) ==> confined(step_path(found@)),
    ;

    /// Reads the entry at `file_number` for a destination file and gives
    /// the bytes that belong there. The entry is read first; a destination
    /// that exists is then refused unless `overwrite` is set.
    fn extract_file(&mut self, file_number: usize, destination_exists: bool, overwrite: bool) -> (bytes:
        Result<Vec<u8>, ArchiveError>)
        ensures
            final(self).entries() == old(self).entries(),
            match file_outcome(
                old(self).entries(),
                file_number as int,
                destination_exists,
                overwrite,
            ) {
                Ok(contents) => bytes matches Ok(found) && found@ == contents,
                Err(error) => bytes matches Err(e) && e == error,
            },
    ;

    /// Appends the contents of the entry at `file_number` to `buffer`.
    /// What `buffer` holds is never taken away, and it grows on failure
    /// only where the contents of a plain file do not decode.
    fn extract_file_to_memory(&mut self, file_number: usize, buffer: &mut Vec<u8>) -> (done: Result<
        (),
        ArchiveError,
    >)
        ensures
            final(self).entries() == old(self).entries(),
            old(buffer)@.is_prefix_of(final(buffer)@),
            match memory_outcome(old(self).entries(), file_number as int) {
                Ok(contents) => done is Ok && final(buffer)@ == old(buffer)@ + contents,
                Err(error) => done == Err::<(), ArchiveError>(error) && (decoding_fails(
                    old(self).entries(),
                    file_number as int,
                ) || final(buffer)@ == old(buffer)@),
            },
    ;

    /// Gets the sanitized path of the entry at `file_number`, which is
    /// confined to whatever directory it is joined to.
    fn entry_path(&mut self, file_number: usize) -> (path: Result<Vec<PathComponent>, ArchiveError>)
        ensures
            final(self).entries() == old(self).entries(),
            match opening(old(self).entries(), file_number as int) {
                Ok(file) => path matches Ok(found) && found.deep_view() == normal_path(file.name)
                    && confined(found.deep_view()),
                Err(error) => path matches Err(e) && e == error,
            },
    ;

    /// Finds the index of the first entry whose sanitized path is
    /// `entry_path`. Entries that do not open are passed over.
    fn file_number(&mut self, entry_path: &Vec<PathComponent>) -> (found: Option<usize>)
        ensures
            final(self).entries() == old(self).entries(),
            match found {
                Some(index) => located(old(self).entries(), entry_path.deep_view()) == Some(
                    index as int,
                ),
                None => located(old(self).entries(), entry_path.deep_view()) is None,
            },
    ;
}

impl ZipArchiveExtensions for Archive {
    open spec fn entries(&self) -> Seq<StoredEntry> {
        self@
    }

    fn extract(&mut self, target_is_directory: bool, file_number: usize) -> Result<
        ExtractStep,
        ArchiveError,
    > {
        if !target_is_directory {
            return Err(ArchiveError::InvalidInput);
        }
        if file_number >= self.len() {
            return Ok(ExtractStep::Done);
        }
        let file = match self.open_entry(file_number) {
            Ok(file) => file,
            Err(error) => {
                return Err(error);
            },
        };
        let name = file_name(&file);
        proof {
            lemma_plain_names_are_confined(name);
        }
        match entry_kind(file_is_dir(&file), file_is_file(&file)) {
            EntryKind::Directory => Ok(ExtractStep::CreateDirectory { path: to_path(&name) }),
            EntryKind::File => {
                let mut bytes: Vec<u8> = Vec::new();
                match file_read(file, &mut bytes) {
                    Ok(_) => Ok(
                        ExtractStep::WriteFile { path: to_path(&name), bytes, overwrite: true },
                    ),
                    Err(_) => Err(ArchiveError::Io),
                }
            },
            EntryKind::Other => Ok(ExtractStep::Skip),
        }
    }

    fn extract_file(&mut self, file_number: usize, destination_exists: bool, overwrite: bool) -> Result<
        Vec<u8>,
        ArchiveError,
    > {
        let mut buffer: Vec<u8> = Vec::new();
        match self.extract_file_to_memory(file_number, &mut buffer) {
            Ok(_) => {},
            Err(error) => {
                return Err(error);
            },
        }
        match file_write_all_bytes(destination_exists, buffer.as_slice(), overwrite) {
            Ok(_) => Ok(buffer),
            Err(error) => Err(error),
        }
    }

    fn extract_file_to_memory(&mut self, file_number: usize, buffer: &mut Vec<u8>) -> Result<
        (),
        ArchiveError,
    > {
        let file = match self.open_entry(file_number) {
            Ok(file) => file,
            Err(error) => {
                return Err(error);
            },
        };
        match entry_kind(file_is_dir(&file), file_is_file(&file)) {
            EntryKind::File => match file_read(file, buffer) {
                Ok(_) => Ok(()),
                Err(_) => Err(ArchiveError::Io),
            },
            _ => Err(ArchiveError::InvalidInput),
        }
    }

    fn entry_path(&mut self, file_number: usize) -> Result<Vec<PathComponent>, ArchiveError> {
        match self.open_entry(file_number) {
            Ok(file) => {
                let name = file_name(&file);
                proof {
                    lemma_plain_names_are_confined(name);
                }
                Ok(to_path(&name))
            },
            Err(error) => Err(error),
        }
    }

    fn file_number(&mut self, entry_path: &Vec<PathComponent>) -> Option<usize> {
        let ghost entries = old(self)@;
        let ghost path = entry_path.deep_view();
        let count = self.len();
        let mut index: usize = 0;
        while index < count
            invariant
                index <= count,
                count == entries.len(),
                entries == old(self)@,
                path == entry_path.deep_view(),
                self@ == entries,
                forall|earlier: int| 0 <= earlier < index ==> !names_entry(entries, earlier, path),
            decreases count - index,
        {
            let named = match self.open_entry(index) {
                Ok(file) => is_named(&file_name(&file), entry_path),
                Err(_) => false,
            };
            if named {
                proof {
                    assert(is_first_named(entries, path, index as int));
                    lemma_first_named_is_unique(
                        entries,
                        path,
                        index as int,
                        choose|i: int| is_first_named(entries, path, i),
                    );
                }
                return Some(index);
            }
            index += 1;
        }
        None
    }
}

/// Opens the archive held in `archive_bytes` for extraction into a target.
/// An archive that does not open is reported first; a target that is no
/// directory is `InvalidInput`. The archive that comes back is walked with
/// [`ZipArchiveExtensions::extract`].
pub fn zip_extract(archive_bytes: Vec<u8>, target_is_directory: bool) -> (opened: Result<
    Archive,
    ArchiveError,
>)
    ensures
        match opened_entries(archive_bytes@) {
            Ok(entries) => if target_is_directory {
                opened matches Ok(archive) && archive@ == entries
            } else {
                opened matches Err(e) && e == ArchiveError::InvalidInput
            },
            Err(error) => opened matches Err(e) && e == error,
        },
{
    let archive = match Archive::open(archive_bytes) {
        Ok(archive) => archive,
        Err(error) => {
            return Err(error);
        },
    };
    if !target_is_directory {
        return Err(ArchiveError::InvalidInput);
    }
    Ok(archive)
}

/// The index of the entry named `path`, or `NotFound`.
pub open spec fn located_index(entries: Seq<StoredEntry>, path: Seq<ComponentView>) -> Result<
    int,
    ArchiveError,
> {
    match located(entries, path) {
        Some(index) => Ok(index),
        None => Err(ArchiveError::NotFound),
    }
}

/// What extracting the entry named `path` from the archive in `bytes` to a
/// destination file gives: the bytes to put there, or an error.
pub open spec fn zip_file_outcome(
    bytes: Seq<u8>,
    path: Seq<ComponentView>,
    destination_exists: bool,
    overwrite: bool,
) -> Result<Seq<u8>, ArchiveError> {
    match opened_entries(bytes) {
        Err(error) => Err(error),
        Ok(entries) => match located_index(entries, path) {
            Err(error) => Err(error),
            Ok(index) => file_outcome(entries, index, destination_exists, overwrite),
        },
    }
}

/// What reading the entry named `path` from the archive in `bytes` into
/// memory gives: its contents, or an error.
pub open spec fn zip_memory_outcome(bytes: Seq<u8>, path: Seq<ComponentView>) -> Result<
    Seq<u8>,
    ArchiveError,
> {
    match opened_entries(bytes) {
        Err(error) => Err(error),
        Ok(entries) => match located_index(entries, path) {
            Err(error) => Err(error),
            Ok(index) => memory_outcome(entries, index),
        },
    }
}

/// The archive in `bytes` opens, and the entry named `path` is a plain file
/// whose contents do not decode.
pub open spec fn zip_decoding_fails(bytes: Seq<u8>, path: Seq<ComponentView>) -> bool {
    opened_entries(bytes) matches Ok(entries) && located(entries, path) matches Some(index)
        && decoding_fails(entries, index)
}

/// Extracts the entry named `entry_path` from the archive held in
/// `archive_bytes` for a destination file, and gives the bytes that belong
/// there. A destination that exists is replaced only where `overwrite` is
/// set.
pub fn zip_extract_file(
    archive_bytes: Vec<u8>,
    entry_path: &Vec<PathComponent>,
    destination_exists: bool,
    overwrite: bool,
) -> (bytes: Result<Vec<u8>, ArchiveError>)
    ensures
        match zip_file_outcome(
            archive_bytes@,
            entry_path.deep_view(),
            destination_exists,
            overwrite,
        ) {
            Ok(contents) => bytes matches Ok(found) && found@ == contents,
            Err(error) => bytes matches Err(e) && e == error,
        },
{
    let mut archive = match Archive::open(archive_bytes) {
        Ok(archive) => archive,
        Err(error) => {
            return Err(error);
        },
    };
    let file_number = match archive.file_number(entry_path) {
        Some(index) => index,
        None => {
            return Err(ArchiveError::NotFound);
        },
    };
    archive.extract_file(file_number, destination_exists, overwrite)
}

/// Extracts the entry named `entry_path` from the archive held in
/// `archive_bytes` into `buffer`, after what `buffer` holds.
pub fn zip_extract_file_to_memory(
    archive_bytes: Vec<u8>,
    entry_path: &Vec<PathComponent>,
    buffer: &mut Vec<u8>,
) -> (done: Result<(), ArchiveError>)
    ensures
        old(buffer)@.is_prefix_of(final(buffer)@),
        match zip_memory_outcome(archive_bytes@, entry_path.deep_view()) {
            Ok(contents) => done is Ok && final(buffer)@ == old(buffer)@ + contents,
            Err(error) => done == Err::<(), ArchiveError>(error) && (zip_decoding_fails(
                archive_bytes@,
                entry_path.deep_view(),
            ) || final(buffer)@ == old(buffer)@),
        },
{
    let mut archive = match Archive::open(archive_bytes) {
        Ok(archive) => archive,
        Err(error) => {
            return Err(error);
        },
    };
    let file_number = match archive.file_number(entry_path) {
        Some(index) => index,
        None => {
            return Err(ArchiveError::NotFound);
        },
    };
    archive.extract_file_to_memory(file_number, buffer)
}

/// A path that names no entry is found nowhere: locating it gives nothing,
/// and extracting it, to a file or into memory, is `NotFound`.
pub proof fn lemma_missing_entry_is_not_found(
    bytes: Seq<u8>,
    entries: Seq<StoredEntry>,
    path: Seq<ComponentView>,
    destination_exists: bool,
    overwrite: bool,
)
    requires
        opened_entries(bytes) == Ok::<Seq<StoredEntry>, ArchiveError>(entries),
        forall|index: int| 0 <= index < entries.len() ==> !names_entry(entries, index, path),
    ensures
        located(entries, path) is None,
        zip_file_outcome(bytes, path, destination_exists, overwrite) == Err::<
            Seq<u8>,
            ArchiveError,
        >(ArchiveError::NotFound),
        zip_memory_outcome(bytes, path) == Err::<Seq<u8>, ArchiveError>(ArchiveError::NotFound),
{
}

/// A path is located exactly where some entry has it for its name, and then
/// at the first such entry.
pub proof fn lemma_located_is_first_named(entries: Seq<StoredEntry>, path: Seq<ComponentView>)
    ensures
        located(entries, path) is Some <==> exists|index: int|
            0 <= index < entries.len() && names_entry(entries, index, path),
        located(entries, path) matches Some(index) ==> is_first_named(entries, path, index),
{
    if exists|index: int| 0 <= index < entries.len() && names_entry(entries, index, path) {
        let some = choose|index: int| 0 <= index < entries.len() && names_entry(entries, index, path);
        lemma_first_named_exists(entries, path, some);
    }
}

proof fn lemma_first_named_exists(entries: Seq<StoredEntry>, path: Seq<ComponentView>, upto: int)
    requires
        0 <= upto < entries.len(),
        names_entry(entries, upto, path),
    ensures
        exists|index: int| is_first_named(entries, path, index),
    decreases upto,
{
    if exists|earlier: int| 0 <= earlier < upto && names_entry(entries, earlier, path) {
        let earlier = choose|earlier: int| 0 <= earlier < upto && names_entry(entries, earlier, path);
        lemma_first_named_exists(entries, path, earlier);
    } else {
        assert(is_first_named(entries, path, upto));
    }
}

/// An entry that is no plain file, such as a directory, is never extracted
/// as a file: to a destination or into memory, the attempt is `InvalidInput`.
pub proof fn lemma_directory_is_not_a_file(
    entries: Seq<StoredEntry>,
    index: int,
    destination_exists: bool,
    overwrite: bool,
)
    requires
        opening(entries, index) matches Ok(file) && kind_of(file) != EntryKind::File,
    ensures
        memory_outcome(entries, index) == Err::<Seq<u8>, ArchiveError>(ArchiveError::InvalidInput),
        file_outcome(entries, index, destination_exists, overwrite) == Err::<Seq<u8>, ArchiveError>(
            ArchiveError::InvalidInput,
        ),
{
}

/// Where the entry can be read, a destination that exists is refused
/// unless overwriting is asked for.
pub proof fn lemma_existing_destination_is_refused(bytes: Seq<u8>, path: Seq<ComponentView>)
    requires
        zip_memory_outcome(bytes, path) is Ok,
    ensures
        zip_file_outcome(bytes, path, true, false) == Err::<Seq<u8>, ArchiveError>(
            ArchiveError::AlreadyExists,
        ),
{
}

/// With overwriting asked for, or with no destination in the way, the bytes
/// handed out for the destination are exactly what reading the entry into
/// memory gives, and the errors are the same.
pub proof fn lemma_overwrite_hands_out_the_contents(
    bytes: Seq<u8>,
    path: Seq<ComponentView>,
    destination_exists: bool,
    overwrite: bool,
)
    requires
        overwrite || !destination_exists,
    ensures
        zip_file_outcome(bytes, path, destination_exists, overwrite) == zip_memory_outcome(
            bytes,
            path,
        ),
{
}

/// The walk over a whole archive is done exactly past its last entry.
pub proof fn lemma_done_past_the_end(entries: Seq<StoredEntry>, index: int)
    requires
        0 <= index,
    ensures
        extract_outcome(entries, true, index) == Ok::<StepView, ArchiveError>(StepView::Done)
            <==> index >= entries.len(),
{
}

/// Whatever step the extraction of a whole archive asks for, a file that
/// it writes is written over what is there.
pub proof fn lemma_extract_always_overwrites(
    entries: Seq<StoredEntry>,
    target_is_directory: bool,
    index: int,
)
    ensures
        extract_outcome(entries, target_is_directory, index) matches Ok(
            StepView::WriteFile { overwrite, .. },
        ) ==> overwrite,
        !target_is_directory ==> extract_outcome(entries, target_is_directory, index) == Err::<
            StepView,
            ArchiveError,
        >(ArchiveError::InvalidInput),
{
}

} // verus!
