use community_search::crawler::sitemap::{
    collect_sitemap_candidates, default_sitemap_url, local_name, parse_sitemap, ParsedSitemap,
    SitemapWalk, MAX_SITEMAPS_PER_TARGET,
};

#[test]
fn default_sitemap_url_uses_host_root() {
    assert_eq!(
        default_sitemap_url("https://www.example.com/blog/"),
        Some("https://www.example.com/sitemap.xml".to_string())
    );
    assert_eq!(
        default_sitemap_url("http://example.com:8080/"),
        Some("http://example.com:8080/sitemap.xml".to_string())
    );
}

#[test]
fn parse_urlset_extracts_loc_entries() {
    let xml = r#"<?xml version="1.0" encoding="UTF-8"?>
    <urlset xmlns="http://www.sitemaps.org/schemas/sitemap/0.9">
      <url><loc>https://example.com/a</loc></url>
      <url><loc>https://example.com/b</loc><lastmod>2024-01-01</lastmod></url>
    </urlset>"#;
    let parsed = parse_sitemap(xml).expect("parse ok");
    assert_eq!(
        parsed,
        ParsedSitemap::Urls(vec![
            "https://example.com/a".to_string(),
            "https://example.com/b".to_string(),
        ])
    );
}

#[test]
fn parse_sitemapindex_extracts_child_sitemaps() {
    let xml = r#"<?xml version="1.0" encoding="UTF-8"?>
    <sitemapindex xmlns="http://www.sitemaps.org/schemas/sitemap/0.9">
      <sitemap><loc>https://example.com/sitemap-1.xml</loc></sitemap>
      <sitemap><loc>https://example.com/sitemap-2.xml</loc></sitemap>
    </sitemapindex>"#;
    let parsed = parse_sitemap(xml).expect("parse ok");
    assert_eq!(
        parsed,
        ParsedSitemap::Index(vec![
            "https://example.com/sitemap-1.xml".to_string(),
            "https://example.com/sitemap-2.xml".to_string(),
        ])
    );
}

#[test]
fn parse_handles_namespace_prefix_on_loc() {
    // Some sitemaps qualify element names with a prefix.
    let xml = r#"<?xml version="1.0"?>
    <ns:urlset xmlns:ns="http://www.sitemaps.org/schemas/sitemap/0.9">
      <ns:url><ns:loc>https://example.com/a</ns:loc></ns:url>
    </ns:urlset>"#;
    let parsed = parse_sitemap(xml).expect("parse ok");
    assert_eq!(
        parsed,
        ParsedSitemap::Urls(vec!["https://example.com/a".to_string()])
    );
}

#[test]
fn local_name_strips_prefix() {
    assert_eq!(local_name(b"ns:loc"), b"loc");
    assert_eq!(local_name(b"loc"), b"loc");
    assert_eq!(local_name(b""), b"");
}

// ── further cases ────────────────────────────────────────────────────────────

fn texts(items: &[&str]) -> Vec<String> {
    items.iter().map(|s| s.to_string()).collect()
}

fn urlset(urls: &[&str]) -> String {
    let mut xml = String::from("<urlset>");
    for u in urls {
        xml.push_str("<url><loc>");
        xml.push_str(u);
        xml.push_str("</loc></url>");
    }
    xml.push_str("</urlset>");
    xml
}

fn index_of(urls: &[&str]) -> String {
    let mut xml = String::from("<sitemapindex>");
    for u in urls {
        xml.push_str("<sitemap><loc>");
        xml.push_str(u);
        xml.push_str("</loc></sitemap>");
    }
    xml.push_str("</sitemapindex>");
    xml
}

#[test]
fn malformed_sitemaps_are_refused() {
    assert!(parse_sitemap("<urlset><url></loc></urlset>").is_err());
}

#[test]
fn locations_are_trimmed_and_unescaped() {
    let xml = "<urlset><url><loc>\n  https://example.com/?a=1&amp;b=2 </loc></url>\
        <url><loc>   </loc></url></urlset>";
    assert_eq!(
        parse_sitemap(xml).unwrap(),
        ParsedSitemap::Urls(texts(&["https://example.com/?a=1&b=2"]))
    );
}

#[test]
fn a_text_without_locations_lists_nothing() {
    assert_eq!(
        parse_sitemap("<html><body>no</body></html>").unwrap(),
        ParsedSitemap::Urls(Vec::new())
    );
    assert_eq!(parse_sitemap("").unwrap(), ParsedSitemap::Urls(Vec::new()));
}

#[test]
fn default_sitemap_needs_a_url() {
    assert_eq!(default_sitemap_url("nonsense"), None);
}

#[test]
fn named_sitemaps_come_before_the_default() {
    assert_eq!(
        collect_sitemap_candidates(texts(&["https://a.org/s.xml"]), "https://a.org/"),
        texts(&["https://a.org/s.xml", "https://a.org/sitemap.xml"])
    );
    assert_eq!(
        collect_sitemap_candidates(texts(&["https://a.org/sitemap.xml"]), "https://a.org/"),
        texts(&["https://a.org/sitemap.xml"])
    );
    assert_eq!(
        collect_sitemap_candidates(Vec::new(), "https://a.org/x/"),
        texts(&["https://a.org/sitemap.xml"])
    );
    assert!(collect_sitemap_candidates(Vec::new(), "nonsense").is_empty());
}

#[test]
fn a_walk_finds_the_pages_below_the_prefix() {
    let mut walk = SitemapWalk::start(texts(&["https://a.org/s.xml"]), "https://a.org/x/", 10);
    assert_eq!(walk.next_sitemap().as_deref(), Some("https://a.org/s.xml"));
    assert!(walk.may_fetch(true));
    let pages = walk.take_sitemap(&urlset(&["https://a.org/x/1", "https://a.org/y/2"]));
    for page in pages {
        walk.offer_page(page, true);
    }
    assert_eq!(walk.next_sitemap(), None);
    assert_eq!(walk.into_found(), texts(&["https://a.org/x/1"]));
}

#[test]
fn a_walk_descends_into_an_index_once() {
    let mut walk = SitemapWalk::start(texts(&["https://a.org/i.xml"]), "https://a.org/", 10);
    assert_eq!(walk.next_sitemap().as_deref(), Some("https://a.org/i.xml"));
    assert!(walk.may_fetch(true));
    assert!(walk
        .take_sitemap(&index_of(&["https://a.org/1.xml", "https://a.org/2.xml"]))
        .is_empty());
    assert_eq!(walk.next_sitemap().as_deref(), Some("https://a.org/1.xml"));
    assert!(walk.may_fetch(true));
    // An index below an index is not followed.
    assert!(walk.take_sitemap(&index_of(&["https://a.org/3.xml"])).is_empty());
    assert_eq!(walk.next_sitemap().as_deref(), Some("https://a.org/2.xml"));
    assert!(walk.may_fetch(true));
    assert!(walk.take_sitemap("<broken></x>").is_empty());
    assert_eq!(walk.next_sitemap(), None);
    assert_eq!(walk.next_sitemap(), None, "a walk that is over stays over");
    assert!(walk.into_found().is_empty());
}

#[test]
fn a_walk_skips_what_robots_disallow_and_stops_at_its_limit() {
    let mut walk = SitemapWalk::start(texts(&["https://a.org/s.xml"]), "https://a.org/", 1);
    walk.next_sitemap().unwrap();
    assert!(walk.may_fetch(true));
    let pages = walk.take_sitemap(&urlset(&[
        "https://a.org/1",
        "https://a.org/2",
        "https://a.org/3",
    ]));
    let mut offered = 0;
    for (i, page) in pages.into_iter().enumerate() {
        offered += 1;
        if !walk.offer_page(page, i > 0) {
            break;
        }
    }
    assert!(offered >= 2);
    assert_eq!(walk.into_found(), texts(&["https://a.org/2"]));
}

#[test]
fn a_disallowed_sitemap_is_not_fetched() {
    let mut walk = SitemapWalk::start(texts(&["https://a.org/s.xml"]), "https://a.org/", 5);
    walk.next_sitemap().unwrap();
    assert!(!walk.may_fetch(false));
    assert_eq!(walk.next_sitemap(), None);
}

#[test]
fn a_walk_fetches_a_bounded_number_of_sitemaps() {
    let many: Vec<String> = (0..30).map(|i| format!("https://a.org/{i}.xml")).collect();
    let mut walk = SitemapWalk::start(many, "https://a.org/", 1000);
    let mut fetched = 0;
    while let Some(_) = walk.next_sitemap() {
        if walk.may_fetch(true) {
            fetched += 1;
            assert!(walk.take_sitemap("<urlset></urlset>").is_empty());
        }
    }
    assert_eq!(fetched, MAX_SITEMAPS_PER_TARGET);
}

#[test]
fn no_sitemap_has_its_turn_twice() {
    let twice = texts(&["https://a.org/s.xml", "https://a.org/s.xml"]);
    let mut walk = SitemapWalk::start(twice, "https://a.org/", 10);
    assert!(walk.next_sitemap().is_some());
    assert!(walk.may_fetch(true));
    assert!(walk.take_sitemap(&index_of(&["https://a.org/s.xml"])).is_empty());
    assert_eq!(walk.next_sitemap(), None);
}
