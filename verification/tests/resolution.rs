use repohub::history::CommitGraph;
use repohub::history::CommitNode;
use repohub::resolve::PathOutcome;
use repohub::resolve::resolve_index;
use repohub::resolve::resolve_path;
use repohub::store::UnwrapRepo;
use repohub::tree::TreeEntry;
use repohub::tree::TreeItem;

fn blob(name: &str, data: &[u8]) -> TreeEntry {
    TreeEntry { name: name.to_string(), item: TreeItem::Blob { data: data.to_vec() } }
}

fn sample_root() -> Vec<TreeEntry> {
    vec![
        blob("readme.md", b"# Welcome\n\nSee [docs](docs/guide.md)."),
        blob("notes.txt", b"plain text"),
        blob("broken.md", &[0xff, 0xfe, 0x00]),
    ]
}

#[test]
fn markdown_blob_is_rendered_under_the_reference() {
    let root = sample_root();
    match resolve_path(&root, "readme.md", "main") {
        PathOutcome::Rendered { name, doc } => {
            assert_eq!(name, "readme.md");
            assert_eq!(doc.title, Some("Welcome".to_string()));
            assert!(doc.html.contains("/branch/main/docs/guide.md"));
        },
        _ => panic!("expected a rendered document"),
    }
}

#[test]
fn plain_blob_comes_back_raw() {
    let root = sample_root();
    match resolve_path(&root, "notes.txt", "main") {
        PathOutcome::Raw { name, data } => {
            assert_eq!(name, "notes.txt");
            assert_eq!(data, b"plain text".to_vec());
        },
        _ => panic!("expected raw bytes"),
    }
}

#[test]
fn markdown_that_is_not_text_degrades_to_raw() {
    let root = sample_root();
    match resolve_path(&root, "broken.md", "main") {
        PathOutcome::Raw { name, data } => {
            assert_eq!(name, "broken.md");
            assert_eq!(data, vec![0xff, 0xfe, 0x00]);
        },
        _ => panic!("expected raw bytes, never a crash"),
    }
}

#[test]
fn missing_path_is_reported_in_full() {
    let root = sample_root();
    match resolve_path(&root, "docs/guide.md", "main") {
        PathOutcome::Missing { path } => assert_eq!(path, "docs/guide.md"),
        _ => panic!("expected a miss"),
    }
}

#[test]
fn repeated_resolution_returns_identical_output() {
    let root = sample_root();
    let first = resolve_path(&root, "readme.md", "main");
    let second = resolve_path(&root, "readme.md", "main");
    match (first, second) {
        (
            PathOutcome::Rendered { name: n1, doc: d1 },
            PathOutcome::Rendered { name: n2, doc: d2 },
        ) => {
            assert_eq!(n1, n2);
            assert_eq!(d1.title, d2.title);
            assert_eq!(d1.html, d2.html);
        },
        _ => panic!("expected two rendered documents"),
    }
}

#[test]
fn index_page_brings_the_parts_together() {
    let graph = CommitGraph {
        nodes: vec![
            CommitNode { parents: vec![1] },
            CommitNode { parents: vec![2] },
            CommitNode { parents: vec![] },
        ],
    };
    let page = resolve_index(
        vec!["main".to_string(), "dev".to_string()],
        vec!["v1".to_string()],
        &graph,
        0,
        5,
        Some("# Hi\n\ntext".to_string()),
        "main",
    );
    assert_eq!(page.branches, vec!["main".to_string(), "dev".to_string()]);
    assert_eq!(page.tags, vec!["v1".to_string()]);
    assert_eq!(page.commits, vec![0, 1, 2]);
    let doc = page.readme.expect("readme should be rendered");
    assert_eq!(doc.title, Some("Hi".to_string()));
    assert!(doc.html.contains("text"));
}

#[test]
fn index_page_without_a_readme() {
    let graph = CommitGraph { nodes: vec![CommitNode { parents: vec![] }] };
    let page = resolve_index(vec![], vec![], &graph, 0, 5, None, "main");
    assert!(page.readme.is_none());
    assert_eq!(page.commits, vec![0]);
}

#[test]
fn store_joins_the_name_in_multi_repository_mode() {
    let store = UnwrapRepo::new("/srv/repos".to_string(), false);
    assert_eq!(store.locate("project"), "/srv/repos/project");
}

#[test]
fn store_ignores_the_name_in_single_repository_mode() {
    let store = UnwrapRepo::new("/srv/one".to_string(), true);
    assert_eq!(store.locate("anything"), "/srv/one");
}
