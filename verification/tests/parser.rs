use community_search::crawler::parser::{
    canonical_of_links, extract_canonical, extract_links, parse_text, rel_names_canonical,
};

/// Relative paths are resolved against the base URL.
/// Absolute URLs are preserved as-is.
#[test]
fn resolves_relative_links_against_base() {
    let html = r#"<!DOCTYPE html>
<html>
<body>
  <a href="/foo">Absolute path</a>
  <a href="bar">Relative path</a>
  <a href="https://other.org/page">Already absolute</a>
</body>
</html>"#;
    let links = extract_links(html, "https://example.com/dir/page.html");
    let urls: Vec<&str> = links.iter().map(|l| l.url.as_str()).collect();
    assert!(
        urls.contains(&"https://example.com/foo"),
        "/foo should resolve to https://example.com/foo, got: {:?}",
        urls
    );
    assert!(
        urls.contains(&"https://example.com/dir/bar"),
        "bar should resolve to https://example.com/dir/bar, got: {:?}",
        urls
    );
    assert!(
        urls.contains(&"https://other.org/page"),
        "absolute URL should be preserved, got: {:?}",
        urls
    );
}

/// mailto:, javascript:, tel:, fragment-only, and empty hrefs are all dropped.
/// Only an https link survives.
#[test]
fn skips_non_http_schemes_and_fragments() {
    let html = r##"<!DOCTYPE html>
<html>
<body>
  <a href="mailto:foo@bar.com">Mail</a>
  <a href="javascript:void(0)">JS</a>
  <a href="tel:+1234567890">Phone</a>
  <a href="#anchor">Fragment</a>
  <a href="">Empty</a>
  <a href="https://example.com/valid">Valid</a>
</body>
</html>"##;
    let links = extract_links(html, "https://example.com/");
    assert_eq!(
        links.len(),
        1,
        "only the https link should survive, got: {:?}",
        links
    );
    assert_eq!(links[0].url, "https://example.com/valid");
}

/// Inner text of nested elements is concatenated and trimmed.
#[test]
fn captures_link_text() {
    let html = r#"<!DOCTYPE html>
<html>
<body>
  <a href="https://example.com/bold"><b>Bold</b> text</a>
</body>
</html>"#;
    let links = extract_links(html, "https://example.com/");
    assert_eq!(links.len(), 1);
    assert_eq!(
        links[0].text, "Bold text",
        "nested text should be concatenated, got: {:?}",
        links[0].text
    );
}

/// Title is extracted correctly; visible headings and paragraphs appear in body.
#[test]
fn extracts_title_and_body_text() {
    let html = r#"<!DOCTYPE html>
<html>
<head><title>Hello World</title></head>
<body>
    <h1>Heading</h1>
    <p>Some body text.</p>
</body>
</html>"#;
    let page = parse_text(html);
    assert_eq!(page.title, "Hello World");
    assert!(
        page.text.contains("Heading"),
        "body text should contain 'Heading', got: {:?}",
        page.text
    );
    assert!(
        page.text.contains("Some body text."),
        "body text should contain 'Some body text.', got: {:?}",
        page.text
    );
}

/// script/style content is excluded; regular paragraph text survives.
#[test]
fn strips_script_and_style_content() {
    let html = r#"<!DOCTYPE html>
<html>
<head>
    <style>body { color: red; }</style>
    <title>Test</title>
</head>
<body>
    <script>alert('hello');</script>
    <p>visible</p>
    <noscript>no js</noscript>
</body>
</html>"#;
    let page = parse_text(html);
    assert!(
        !page.text.contains("alert"),
        "'alert' must not appear in body text, got: {:?}",
        page.text
    );
    assert!(
        !page.text.contains("color: red"),
        "'color: red' must not appear in body text, got: {:?}",
        page.text
    );
    assert!(
        page.text.contains("visible"),
        "body text should contain 'visible', got: {:?}",
        page.text
    );
}

#[test]
fn canonical_extracts_absolute_url() {
    let html = r#"<!DOCTYPE html>
<html><head>
<link rel="canonical" href="https://example.com/canonical-page">
</head><body>x</body></html>"#;
    let canon = extract_canonical(html, "https://example.com/aliased?utm_source=z");
    assert_eq!(canon.as_deref(), Some("https://example.com/canonical-page"));
}

#[test]
fn canonical_resolves_relative_href() {
    let html = r#"<!DOCTYPE html>
<html><head>
<link rel="canonical" href="/canonical-page">
</head><body>x</body></html>"#;
    let canon = extract_canonical(html, "https://example.com/dir/aliased");
    assert_eq!(canon.as_deref(), Some("https://example.com/canonical-page"));
}

#[test]
fn canonical_matches_word_in_rel_token_list() {
    let html = r#"<!DOCTYPE html>
<html><head>
<link rel="alternate canonical" href="https://example.com/c">
</head><body>x</body></html>"#;
    let canon = extract_canonical(html, "https://example.com/aliased");
    assert_eq!(canon.as_deref(), Some("https://example.com/c"));
}

#[test]
fn canonical_missing_returns_none() {
    let html = r#"<!DOCTYPE html><html><head></head><body>x</body></html>"#;
    assert!(extract_canonical(html, "https://example.com/x").is_none());
}

#[test]
fn canonical_skips_non_http_schemes() {
    let html = r#"<!DOCTYPE html>
<html><head>
<link rel="canonical" href="mailto:foo@bar.com">
</head><body>x</body></html>"#;
    assert!(extract_canonical(html, "https://example.com/x").is_none());
}

/// No <title> tag → empty string; body text is still extracted.
#[test]
fn empty_title_when_missing() {
    let html = r#"<!DOCTYPE html>
<html>
<body><p>Some content</p></body>
</html>"#;
    let page = parse_text(html);
    assert_eq!(page.title, "", "title should be empty when not present");
    assert!(
        page.text.contains("Some content"),
        "body text should still be extracted, got: {:?}",
        page.text
    );
}

// ── further cases ────────────────────────────────────────────────────────────

#[test]
fn links_keep_their_order_and_need_a_base() {
    let html = r#"<a href="/b">two</a><a href="/a">one</a><a name="x">no link</a>"#;
    let links = extract_links(html, "https://example.com/");
    let urls: Vec<&str> = links.iter().map(|l| l.url.as_str()).collect();
    assert_eq!(urls, ["https://example.com/b", "https://example.com/a"]);
    assert_eq!(links[0].text, "two");
    assert!(extract_links(html, "no base").is_empty());
}

#[test]
fn links_with_other_schemes_are_dropped_in_any_case() {
    let html = r#"<a href="MAILTO:x@y.z">m</a><a href="ftp://example.com/f">f</a>
<a href="  https://example.com/kept  "> kept </a>"#;
    let links = extract_links(html, "https://example.com/");
    assert_eq!(links.len(), 1);
    assert_eq!(links[0].url, "https://example.com/kept");
    assert_eq!(links[0].text, "kept");
}

#[test]
fn canonical_takes_the_first_usable_element() {
    let html = r#"<html><head>
<link rel="stylesheet" href="/s.css">
<link rel="canonical" href=" ">
<link rel="CANONICAL" href="/first">
<link rel="canonical" href="/second">
</head></html>"#;
    assert_eq!(
        extract_canonical(html, "https://example.com/x").as_deref(),
        Some("https://example.com/first")
    );
    assert_eq!(extract_canonical(html, "no base"), None);
}

#[test]
fn rel_tokens_are_whole_words() {
    assert!(rel_names_canonical("canonical"));
    assert!(rel_names_canonical("alternate\tCanonical nofollow"));
    assert!(!rel_names_canonical("canonicals"));
    assert!(!rel_names_canonical("non-canonical"));
    assert!(!rel_names_canonical(""));
}

#[test]
fn canonical_of_no_links_is_none() {
    assert_eq!(canonical_of_links(&Vec::new(), "https://example.com/"), None);
}

#[test]
fn text_pieces_are_trimmed_and_joined_by_spaces() {
    let html = "<html><head><title>  A title </title></head><body><p> one </p>\n<p>two</p>\
        <script>x()</script><style>y</style><noscript>z</noscript></body></html>";
    let page = parse_text(html);
    assert_eq!(page.title, "A title");
    assert_eq!(page.text, "one two");
}
