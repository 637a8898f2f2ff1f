use repohub::tree::ChildInfo;
use repohub::tree::EntryKind;
use repohub::tree::LookupOutcome;
use repohub::tree::TreeEntry;
use repohub::tree::TreeItem;
use repohub::tree::lookup;

fn blob(name: &str, data: &[u8]) -> TreeEntry {
    TreeEntry { name: name.to_string(), item: TreeItem::Blob { data: data.to_vec() } }
}

fn dir(name: &str, entries: Vec<TreeEntry>) -> TreeEntry {
    TreeEntry { name: name.to_string(), item: TreeItem::Dir { entries } }
}

fn sample_root() -> Vec<TreeEntry> {
    vec![
        dir("a", vec![dir("b", vec![blob("file.txt", b"hello")])]),
        blob("readme.md", b"# Title\n\nBody"),
        TreeEntry { name: "link".to_string(), item: TreeItem::Other },
    ]
}

#[test]
fn nested_file_is_found() {
    let root = sample_root();
    match lookup(&root, "a/b/file.txt") {
        LookupOutcome::Blob { name, data } => {
            assert_eq!(name, "file.txt");
            assert_eq!(data, b"hello".to_vec());
        },
        _ => panic!("expected a blob"),
    }
}

#[test]
fn missing_leaf_names_the_whole_path() {
    let root = sample_root();
    match lookup(&root, "a/b/missing.txt") {
        LookupOutcome::Missing { path } => assert_eq!(path, "a/b/missing.txt"),
        _ => panic!("expected a miss"),
    }
}

#[test]
fn file_used_as_directory_is_a_miss() {
    let root = sample_root();
    match lookup(&root, "readme.md/extra") {
        LookupOutcome::Missing { path } => assert_eq!(path, "readme.md/extra"),
        _ => panic!("expected a miss"),
    }
}

#[test]
fn empty_path_lists_the_root() {
    let root = sample_root();
    match lookup(&root, "") {
        LookupOutcome::Listing { name, children } => {
            assert_eq!(name, "");
            let got: Vec<(String, EntryKind)> =
                children.into_iter().map(|c: ChildInfo| (c.name, c.kind)).collect();
            assert_eq!(
                got,
                vec![
                    ("a".to_string(), EntryKind::Dir),
                    ("readme.md".to_string(), EntryKind::File),
                    ("link".to_string(), EntryKind::Other),
                ]
            );
        },
        _ => panic!("expected a listing"),
    }
}

#[test]
fn directory_path_lists_its_children() {
    let root = sample_root();
    match lookup(&root, "a/b") {
        LookupOutcome::Listing { name, children } => {
            assert_eq!(name, "b");
            assert_eq!(children.len(), 1);
            assert_eq!(children[0].name, "file.txt");
            assert_eq!(children[0].kind, EntryKind::File);
        },
        _ => panic!("expected a listing"),
    }
}

#[test]
fn unsupported_kind_is_reported_not_a_crash() {
    let root = sample_root();
    match lookup(&root, "link") {
        LookupOutcome::Unsupported { name } => assert_eq!(name, "link"),
        _ => panic!("expected an unsupported outcome"),
    }
}

#[test]
fn missing_directory_in_the_middle_is_a_miss() {
    let root = sample_root();
    assert!(matches!(lookup(&root, "zzz/file.txt"), LookupOutcome::Missing { .. }));
}
