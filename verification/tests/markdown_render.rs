use repohub::markdown::render;

#[test]
fn first_heading_becomes_the_title_and_leaves_the_body() {
    let d = render("# Hello\n\nBody", "main");
    assert_eq!(d.title, Some("Hello".to_string()));
    assert!(d.html.contains("Body"));
    assert!(!d.html.contains("<h1"));
    assert!(!d.html.contains("Hello"));
}

#[test]
fn without_a_heading_the_title_is_absent() {
    let d = render("No heading here", "main");
    assert_eq!(d.title, None);
    assert!(d.html.contains("No heading here"));
    assert!(!d.html.contains("<h1"));
}

#[test]
fn only_the_first_level_one_heading_is_consumed() {
    let d = render("# One\n\n# Two", "main");
    assert_eq!(d.title, Some("One".to_string()));
    assert!(d.html.contains("<h1"));
    assert!(d.html.contains("Two"));
    assert!(!d.html.contains("One"));
}

#[test]
fn lower_level_headings_are_not_titles() {
    let d = render("## Section\n\ntext", "main");
    assert_eq!(d.title, None);
    assert!(d.html.contains("<h2"));
}

#[test]
fn heading_inside_a_block_quote_is_not_a_title() {
    let d = render("> # Quoted\n\ntext", "main");
    assert_eq!(d.title, None);
    assert!(d.html.contains("Quoted"));
}

#[test]
fn title_text_flattens_inline_code() {
    let d = render("# Use `cargo` now\n\nBody", "main");
    assert_eq!(d.title, Some("Use cargo now".to_string()));
}

#[test]
fn relative_link_target_is_rewritten_in_the_html() {
    let d = render("[x](docs/readme.md)", "main");
    assert!(d.html.contains("/branch/main/docs/readme.md"));
}

#[test]
fn https_link_target_stays_in_the_html() {
    let d = render("[x](https://example.com)", "main");
    assert!(d.html.contains("https://example.com"));
    assert!(!d.html.contains("/branch/"));
}

#[test]
fn anchor_link_target_stays_in_the_html() {
    let d = render("[x](#section)", "main");
    assert!(d.html.contains("#section"));
    assert!(!d.html.contains("/branch/"));
}

#[test]
fn link_inside_a_list_is_rewritten_too() {
    let d = render("- [x](docs/a.md)\n- plain\n", "other");
    assert!(d.html.contains("/branch/other/docs/a.md"));
}

#[test]
fn markdown_is_turned_into_html_markup() {
    let d = render("some *emphasis* here", "main");
    assert!(d.html.contains("<em>emphasis</em>"));
    assert!(d.html.contains("<p>"));
}

#[test]
fn table_extension_is_enabled() {
    let d = render("|a|b|\n|-|-|\n|1|2|\n", "main");
    assert!(d.html.contains("<table"));
}

#[test]
fn strikethrough_extension_is_enabled() {
    let d = render("Hello ~~world~~.", "main");
    assert!(d.html.contains("<del>world</del>"));
}

#[test]
fn bare_https_url_is_autolinked_and_untouched() {
    let d = render("visit https://example.com now", "main");
    assert!(d.html.contains("<a href=\"https://example.com\""));
}

#[test]
fn task_list_extension_is_enabled() {
    let d = render("- [x] done\n- [ ] open\n", "main");
    assert!(d.html.contains("checkbox"));
}
