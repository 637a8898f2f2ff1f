use repohub::paths::name_is_markdown;
use repohub::paths::qualify_ref;
use repohub::paths::rewrite_link_target;
use repohub::paths::split_location;
use repohub::paths::split_path;
use repohub::paths::str_ends_with;
use repohub::paths::str_starts_with;

#[test]
fn split_simple_path() {
    let segs = split_path("a/b/c.txt");
    assert_eq!(segs, vec!["a".to_string(), "b".to_string(), "c.txt".to_string()]);
}

#[test]
fn split_single_segment() {
    assert_eq!(split_path("readme.md"), vec!["readme.md".to_string()]);
}

#[test]
fn split_empty_text_is_one_empty_segment() {
    assert_eq!(split_path(""), vec![String::new()]);
}

#[test]
fn split_keeps_empty_segments() {
    assert_eq!(
        split_path("a//b/"),
        vec!["a".to_string(), String::new(), "b".to_string(), String::new()]
    );
}

#[test]
fn relative_link_is_made_reference_relative() {
    assert_eq!(rewrite_link_target("docs/readme.md", "main"), "/branch/main/docs/readme.md");
}

#[test]
fn absolute_https_link_is_untouched() {
    assert_eq!(rewrite_link_target("https://example.com", "main"), "https://example.com");
}

#[test]
fn in_page_anchor_is_untouched() {
    assert_eq!(rewrite_link_target("#section", "main"), "#section");
}

#[test]
fn leading_slash_is_stripped_before_prefixing() {
    assert_eq!(rewrite_link_target("/docs/x.md", "dev"), "/branch/dev/docs/x.md");
}

#[test]
fn plain_http_link_is_rewritten_too() {
    assert_eq!(rewrite_link_target("http://example.com", "main"), "/branch/main/http://example.com");
}

#[test]
fn location_splits_at_the_first_slash() {
    assert_eq!(
        split_location("main/docs/readme.md"),
        ("main".to_string(), "docs/readme.md".to_string())
    );
}

#[test]
fn location_without_a_slash_is_all_reference() {
    assert_eq!(split_location("main"), ("main".to_string(), String::new()));
}

#[test]
fn reference_names_are_qualified_under_their_kind() {
    assert_eq!(qualify_ref("heads", "main"), "refs/heads/main");
    assert_eq!(qualify_ref("tags", "v1"), "refs/tags/v1");
}

#[test]
fn markdown_names() {
    assert!(name_is_markdown("readme.md"));
    assert!(name_is_markdown("a.b.md"));
    assert!(!name_is_markdown(".md"));
    assert!(!name_is_markdown("notes.txt"));
    assert!(!name_is_markdown("md"));
}

#[test]
fn prefix_and_suffix_checks() {
    assert!(str_starts_with("https://x", "https://"));
    assert!(!str_starts_with("http://x", "https://"));
    assert!(str_ends_with("readme.md", ".md"));
    assert!(!str_ends_with("readme.md.txt", ".md"));
    assert!(!str_ends_with("d", ".md"));
}
