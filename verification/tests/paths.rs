use zip_extensions::read::{entry_kind, is_named, to_path};
use zip_extensions::{
    file_write_all_bytes, make_relative_path, ArchiveError, EntryKind, PathComponent,
};

fn absolute(names: &[&str]) -> Vec<PathComponent> {
    let mut path = vec![PathComponent::RootDir];
    for name in names {
        path.push(PathComponent::Normal(name.as_bytes().to_vec()));
    }
    path
}

fn relative(names: &[&str]) -> Vec<PathComponent> {
    names.iter().map(|name| PathComponent::Normal(name.as_bytes().to_vec())).collect()
}

#[test]
fn relative_path_below_the_root() {
    let root = absolute(&["a", "b"]);
    let current = absolute(&["a", "b", "c", "d"]);
    assert_eq!(make_relative_path(&root, &current), relative(&["c", "d"]));
}

#[test]
fn relative_path_that_diverges_keeps_the_remainder() {
    let root = absolute(&["a", "b"]);
    let current = absolute(&["x", "y"]);
    assert_eq!(make_relative_path(&root, &current), relative(&["x", "y"]));
}

#[test]
fn relative_path_that_diverges_late() {
    let root = absolute(&["a", "b", "c"]);
    let current = absolute(&["a", "x", "c"]);
    assert_eq!(make_relative_path(&root, &current), relative(&["x", "c"]));
}

#[test]
fn relative_path_of_the_root_itself_is_empty() {
    let root = absolute(&["a", "b"]);
    assert_eq!(make_relative_path(&root, &absolute(&["a", "b"])), Vec::new());
}

#[test]
fn relative_path_of_a_shorter_path_is_empty() {
    let root = absolute(&["a", "b", "c"]);
    assert_eq!(make_relative_path(&root, &absolute(&["a", "b"])), Vec::new());
}

#[test]
fn relative_path_from_the_empty_root_is_the_path() {
    let current = absolute(&["a", "b"]);
    assert_eq!(make_relative_path(&Vec::new(), &current), absolute(&["a", "b"]));
}

#[test]
fn relative_path_of_the_empty_path_is_empty() {
    assert_eq!(make_relative_path(&absolute(&["a"]), &Vec::new()), Vec::new());
}

#[test]
fn relative_path_tells_components_apart_by_kind() {
    let root = vec![PathComponent::CurDir, PathComponent::Normal(b"a".to_vec())];
    let current = vec![PathComponent::ParentDir, PathComponent::Normal(b"a".to_vec())];
    assert_eq!(
        make_relative_path(&root, &current),
        vec![PathComponent::ParentDir, PathComponent::Normal(b"a".to_vec())]
    );
    let root = vec![PathComponent::Prefix(b"C:".to_vec()), PathComponent::RootDir];
    let current = vec![
        PathComponent::Prefix(b"C:".to_vec()),
        PathComponent::RootDir,
        PathComponent::Normal(b"x".to_vec()),
    ];
    assert_eq!(make_relative_path(&root, &current), relative(&["x"]));
    let other = vec![PathComponent::Prefix(b"D:".to_vec()), PathComponent::RootDir];
    assert_eq!(
        make_relative_path(&root, &other),
        vec![PathComponent::Prefix(b"D:".to_vec()), PathComponent::RootDir]
    );
}

#[test]
fn relative_path_rejoins_the_root() {
    let root = absolute(&["srv", "data"]);
    let current = absolute(&["srv", "data", "in", "a.txt"]);
    let mut joined = absolute(&["srv", "data"]);
    joined.extend(make_relative_path(&root, &current));
    assert_eq!(joined, current);
}

#[test]
fn components_compare_and_copy() {
    let a = PathComponent::Normal(b"name".to_vec());
    assert!(a.same_as(&PathComponent::Normal(b"name".to_vec())));
    assert!(!a.same_as(&PathComponent::Normal(b"nam".to_vec())));
    assert!(!a.same_as(&PathComponent::Normal(b"namf".to_vec())));
    assert!(!a.same_as(&PathComponent::Prefix(b"name".to_vec())));
    assert!(!PathComponent::RootDir.same_as(&PathComponent::CurDir));
    assert!(PathComponent::ParentDir.same_as(&PathComponent::ParentDir));
    assert_eq!(a.duplicate(), a);
    assert_eq!(PathComponent::RootDir.duplicate(), PathComponent::RootDir);
}

#[test]
fn writing_to_a_new_destination_is_allowed() {
    assert_eq!(file_write_all_bytes(false, b"hello", false), Ok(5));
    assert_eq!(file_write_all_bytes(false, b"hello", true), Ok(5));
}

#[test]
fn writing_over_a_destination_needs_overwrite() {
    assert_eq!(file_write_all_bytes(true, b"hello", false), Err(ArchiveError::AlreadyExists));
    assert_eq!(file_write_all_bytes(true, b"hello", true), Ok(5));
}

#[test]
fn writing_nothing_writes_nothing() {
    assert_eq!(file_write_all_bytes(false, b"", false), Ok(0));
    assert_eq!(file_write_all_bytes(true, b"", false), Err(ArchiveError::AlreadyExists));
}

fn names(names: &[&str]) -> Vec<Vec<u8>> {
    names.iter().map(|name| name.as_bytes().to_vec()).collect()
}

#[test]
fn a_directory_is_a_directory_whatever_else_it_is() {
    assert_eq!(entry_kind(true, false), EntryKind::Directory);
    assert_eq!(entry_kind(true, true), EntryKind::Directory);
}

#[test]
fn a_plain_file_is_a_file_that_is_no_directory() {
    assert_eq!(entry_kind(false, true), EntryKind::File);
}

#[test]
fn what_is_neither_is_something_else() {
    assert_eq!(entry_kind(false, false), EntryKind::Other);
}

#[test]
fn names_make_a_path_of_ordinary_components() {
    assert_eq!(to_path(&names(&["a", "b.txt"])), relative(&["a", "b.txt"]));
    assert_eq!(to_path(&names(&[])), Vec::new());
    assert_eq!(to_path(&names(&[".."])), vec![PathComponent::Normal(b"..".to_vec())]);
}

#[test]
fn names_are_compared_with_a_path_component_by_component() {
    assert!(is_named(&names(&["a", "b.txt"]), &relative(&["a", "b.txt"])));
    assert!(is_named(&names(&[]), &Vec::new()));
    assert!(!is_named(&names(&["a", "b.txt"]), &relative(&["a"])));
    assert!(!is_named(&names(&["a"]), &relative(&["a", "b.txt"])));
    assert!(!is_named(&names(&["a", "b.txt"]), &relative(&["a", "b.txT"])));
    assert!(!is_named(&names(&["a", "b.txt"]), &relative(&["b.txt", "a"])));
    assert!(!is_named(&names(&["a"]), &vec![PathComponent::Prefix(b"a".to_vec())]));
    assert!(!is_named(&names(&[".."]), &vec![PathComponent::ParentDir]));
    assert!(!is_named(&names(&["."]), &vec![PathComponent::CurDir]));
    assert!(!is_named(&names(&["/"]), &vec![PathComponent::RootDir]));
    assert!(!is_named(&names(&["a"]), &absolute(&["a"])));
}
