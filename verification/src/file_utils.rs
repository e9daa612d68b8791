use vstd::prelude::*;
use vstd::slice::slice_to_vec;

use crate::error::ArchiveError;

verus! {

/// One component of a path, as a value of mathematics: the bytes of a prefix
/// or of a name, or one of the three components that carry no text.
pub enum ComponentView {
    Prefix(Seq<u8>),
    RootDir,
    CurDir,
    ParentDir,
    Normal(Seq<u8>),
}

/// One component of a path. A path is held as the sequence of its
/// components, so that two paths are the same path exactly when their
/// components are.
#[derive(Debug, PartialEq, Eq)]
pub enum PathComponent {
    /// A volume or drive prefix, with its bytes as written.
    Prefix(Vec<u8>),
    /// The root directory.
    RootDir,
    /// The current directory, `.`.
    CurDir,
    /// The parent directory, `..`.
    ParentDir,
    /// An ordinary name.
    Normal(Vec<u8>),
}

impl DeepView for PathComponent {
    type V = ComponentView;

    open spec fn deep_view(&self) -> ComponentView {
        match *self {
            PathComponent::Prefix(bytes) => ComponentView::Prefix(bytes@),
            PathComponent::RootDir => ComponentView::RootDir,
            PathComponent::CurDir => ComponentView::CurDir,
            PathComponent::ParentDir => ComponentView::ParentDir,
            PathComponent::Normal(bytes) => ComponentView::Normal(bytes@),
        }
    }
}

/// Seen element by element, a byte string is what its view is.
pub proof fn lemma_bytes_deep_view(bytes: Vec<u8>)
    ensures
        bytes.deep_view() == bytes@,
{
    assert(bytes.deep_view() =~= bytes@);
}

/// Whether two byte strings hold the same bytes.
pub fn bytes_equal(left: &[u8], right: &[u8]) -> (same: bool)
    ensures
        same == (left@ == right@),
{
    if left.len() != right.len() {
        return false;
    }
    let mut i: usize = 0;
    while i < left.len()
        invariant
            i <= left.len(),
            left.len() == right.len(),
            forall|k: int| 0 <= k < i ==> left[k] == right[k],
        decreases left.len() - i,
    {
        if left[i] != right[i] {
            return false;
        }
        i += 1;
    }
    assert(left@ =~= right@);
    true
}

impl PathComponent {
    /// Whether `self` and `other` are the same component.
    pub fn same_as(&self, other: &PathComponent) -> (same: bool)
        ensures
            same == (self.deep_view() == other.deep_view()),
    {
        match (self, other) {
            (PathComponent::Prefix(a), PathComponent::Prefix(b)) => bytes_equal(
                a.as_slice(),
                b.as_slice(),
            ),
            (PathComponent::RootDir, PathComponent::RootDir) => true,
            (PathComponent::CurDir, PathComponent::CurDir) => true,
            (PathComponent::ParentDir, PathComponent::ParentDir) => true,
            (PathComponent::Normal(a), PathComponent::Normal(b)) => bytes_equal(
                a.as_slice(),
                b.as_slice(),
            ),
            _ => false,
        }
    }

    /// A copy of this component.
    pub fn duplicate(&self) -> (copy: PathComponent)
        ensures
            copy.deep_view() == self.deep_view(),
    {
        match self {
            PathComponent::Prefix(bytes) => PathComponent::Prefix(slice_to_vec(bytes.as_slice())),
            PathComponent::RootDir => PathComponent::RootDir,
            PathComponent::CurDir => PathComponent::CurDir,
            PathComponent::ParentDir => PathComponent::ParentDir,
            PathComponent::Normal(bytes) => PathComponent::Normal(slice_to_vec(bytes.as_slice())),
        }
    }
}

/// `k` is the place at which `current` stops following `root`: the two agree
/// on their first `k` components, and at `k` either one of them ends or they
/// differ.
pub open spec fn diverges_at(root: Seq<ComponentView>, current: Seq<ComponentView>, k: int) -> bool {
    &&& 0 <= k <= root.len()
    &&& k <= current.len()
    &&& forall|i: int| 0 <= i < k ==> root[i] == current[i]
    &&& (k < root.len() && k < current.len() ==> root[k] != current[k])
}

/// The number of leading components that `root` and `current` share.
pub open spec fn shared_prefix_len(root: Seq<ComponentView>, current: Seq<ComponentView>) -> int {
    choose|k: int| diverges_at(root, current, k)
}

/// What is left of `current` once the leading components it shares with
/// `root` are dropped.
pub open spec fn relative_path(root: Seq<ComponentView>, current: Seq<ComponentView>) -> Seq<
    ComponentView,
> {
    current.skip(shared_prefix_len(root, current))
}

/// Two paths stop agreeing at one place only.
pub proof fn lemma_divergence_is_unique(
    root: Seq<ComponentView>,
    current: Seq<ComponentView>,
    j: int,
    k: int,
)
    requires
        diverges_at(root, current, j),
        diverges_at(root, current, k),
    ensures
        j == k,
{
    if j < k {
        assert(root[j] == current[j]);
    }
    if k < j {
        assert(root[k] == current[k]);
    }
}

/// Where `root` leads to `current`, the relative path leads from `root` to
/// `current`: appended to `root` it gives `current` back.
pub proof fn lemma_relative_path_rejoins(root: Seq<ComponentView>, current: Seq<ComponentView>)
    requires
        root.is_prefix_of(current),
    ensures
        root + relative_path(root, current) == current,
{
    let n = root.len() as int;
    assert(diverges_at(root, current, n));
    lemma_divergence_is_unique(root, current, n, shared_prefix_len(root, current));
    assert(root + current.skip(n) =~= current);
}

/// The relative path is always a tail of `current`, and starts where the
/// two paths stop agreeing.
pub proof fn lemma_relative_path_is_tail(root: Seq<ComponentView>, current: Seq<ComponentView>)
    ensures
        diverges_at(root, current, shared_prefix_len(root, current)),
        relative_path(root, current).is_suffix_of(current),
{
    lemma_divergence_exists(root, current, 0);
    let k = shared_prefix_len(root, current);
    assert(current.skip(k) =~= current.subrange(current.len() - (current.len() - k), current.len() as int));
}

proof fn lemma_divergence_exists(root: Seq<ComponentView>, current: Seq<ComponentView>, from: int)
    requires
        0 <= from <= root.len(),
        from <= current.len(),
        forall|i: int| 0 <= i < from ==> root[i] == current[i],
    ensures
        exists|k: int| diverges_at(root, current, k),
    decreases root.len() - from,
{
    if from < root.len() && from < current.len() && root[from] == current[from] {
        lemma_divergence_exists(root, current, from + 1);
    } else {
        assert(diverges_at(root, current, from));
    }
}

/// Returns the path that leads from `root` to `current`: the components of
/// `current` from the first place at which it no longer follows `root`.
pub fn make_relative_path(root: &Vec<PathComponent>, current: &Vec<PathComponent>) -> (relative:
    Vec<PathComponent>)
    ensures
        relative.deep_view() == relative_path(root.deep_view(), current.deep_view()),
{
    let ghost root_view = root.deep_view();
    let ghost current_view = current.deep_view();
    let mut shared: usize = 0;
    loop
        invariant
            root_view == root.deep_view(),
            current_view == current.deep_view(),
            shared <= root.len(),
            shared <= current.len(),
            forall|i: int| 0 <= i < shared ==> root_view[i] == current_view[i],
        ensures
            diverges_at(root_view, current_view, shared as int),
        decreases root.len() - shared,
    {
        if shared >= root.len() || shared >= current.len() {
            break ;
        }
        if !root[shared].same_as(&current[shared]) {
            break ;
        }
        shared += 1;
    }
    proof {
        lemma_divergence_is_unique(
            root_view,
            current_view,
            shared as int,
            shared_prefix_len(root_view, current_view),
        );
    }
    let mut relative: Vec<PathComponent> = Vec::new();
    let mut i: usize = shared;
    while i < current.len()
        invariant
            shared <= i <= current.len(),
            current_view == current.deep_view(),
            relative.len() == i - shared,
            forall|k: int| 0 <= k < relative.len() ==> relative[k].deep_view() == current_view[shared + k],
        decreases current.len() - i,
    {
        relative.push(current[i].duplicate());
        i += 1;
    }
    assert(relative.deep_view() =~= current_view.skip(shared as int));
    relative
}

/// The outcome of writing `len` bytes to a destination under the overwrite
/// policy: the number of bytes that the destination then holds, or
/// `AlreadyExists` where something is in the way and may not be replaced.
pub open spec fn write_outcome(destination_exists: bool, len: nat, overwrite: bool) -> Result<
    nat,
    ArchiveError,
> {
    if destination_exists && !overwrite {
        Err(ArchiveError::AlreadyExists)
    } else {
        Ok(len)
    }
}

/// Decides whether `bytes` may be written to a destination, and how many
/// bytes the write puts there. A destination that exists is replaced only
/// where `overwrite` is set; the write, once allowed, is of all the bytes.
pub fn file_write_all_bytes(destination_exists: bool, bytes: &[u8], overwrite: bool) -> (written:
    Result<usize, ArchiveError>)
    ensures
        match written {
            Ok(count) => write_outcome(destination_exists, bytes@.len(), overwrite) == Ok::<
                nat,
                ArchiveError,
            >(count as nat),
            Err(error) => write_outcome(destination_exists, bytes@.len(), overwrite) == Err::<
                nat,
                ArchiveError,
            >(error),
        },
{
    if destination_exists && !overwrite {
        return Err(ArchiveError::AlreadyExists);
    }
    Ok(bytes.len())
}

} // verus!
