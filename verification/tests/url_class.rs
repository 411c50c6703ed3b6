use community_search::crawler::url_class::{
    host_of, is_blacklisted_host, is_blacklisted_outlink_host, is_in_prefix, is_tracking_param,
    normalize_url, strip_leading_www, strip_www,
};


// ── normalize_url ──────────────────────────────────────────────────────────

#[test]
fn normalize_strips_fragment_and_lowercases_host() {
    let result = normalize_url("https://Example.COM/Path?q=1#frag");
    assert_eq!(result, Some("https://example.com/Path?q=1".to_string()));
}

#[test]
fn normalize_drops_default_port() {
    // https default port 443
    let result = normalize_url("https://example.com:443/x");
    assert_eq!(result, Some("https://example.com/x".to_string()));

    // http default port 80
    let result = normalize_url("http://example.com:80/x");
    assert_eq!(result, Some("http://example.com/x".to_string()));
}

/// A bare-host URL and the same URL with a trailing slash must canonicalize
/// identically — otherwise the crawler would store two `crawled_pages` rows
/// for what is the same resource (the seed `https://example.com` and the
/// home-page self-link `https://example.com/`).
#[test]
fn normalize_adds_trailing_slash_to_bare_host() {
    let a = normalize_url("https://example.com");
    let b = normalize_url("https://example.com/");
    assert_eq!(a, b, "bare host and trailing-slash must canonicalize equal");
    assert_eq!(a, Some("https://example.com/".to_string()));
}

#[test]
fn normalize_strips_tracking_params() {
    let result =
        normalize_url("https://example.com/x?utm_source=twitter&utm_medium=social&q=hello");
    assert_eq!(result, Some("https://example.com/x?q=hello".to_string()));
}

#[test]
fn normalize_drops_query_if_only_tracking_params() {
    let result = normalize_url("https://example.com/x?utm_source=twitter&fbclid=abc");
    assert_eq!(result, Some("https://example.com/x".to_string()));
}

#[test]
fn normalize_sorts_remaining_query_params() {
    let a = normalize_url("https://example.com/x?b=2&a=1");
    let b = normalize_url("https://example.com/x?a=1&b=2");
    assert_eq!(a, b, "params in different orders must canonicalize equal");
    assert_eq!(a, Some("https://example.com/x?a=1&b=2".to_string()));
}

#[test]
fn normalize_tracking_strip_is_case_insensitive() {
    let result = normalize_url("https://example.com/x?UTM_Source=twitter&q=hello");
    assert_eq!(result, Some("https://example.com/x?q=hello".to_string()));
}

#[test]
fn normalize_preserves_value_only_params() {
    // Bare value-less keys (?foo) and empty-value keys (?foo=) are preserved.
    let result = normalize_url("https://example.com/x?foo&utm_source=z");
    assert_eq!(result, Some("https://example.com/x?foo=".to_string()));
}

// ── is_in_prefix ──────────────────────────────────────────────────────────

#[test]
fn in_prefix_matches_under_prefix() {
    assert!(is_in_prefix(
        "https://example.com/articles/post1",
        "https://example.com/articles/"
    ));
    assert!(is_in_prefix(
        "https://example.com/articles/sub/post2",
        "https://example.com/articles/"
    ));
}

#[test]
fn in_prefix_rejects_different_host() {
    assert!(!is_in_prefix(
        "https://other.com/articles/post1",
        "https://example.com/articles/"
    ));
}

#[test]
fn in_prefix_rejects_sibling_paths() {
    assert!(!is_in_prefix(
        "https://example.com/about",
        "https://example.com/articles/"
    ));
}

#[test]
fn in_prefix_handles_fragment_in_url() {
    // Fragment is stripped by normalize_url before the starts_with check
    assert!(is_in_prefix(
        "https://example.com/articles/post#section",
        "https://example.com/articles/"
    ));
}

// ── is_blacklisted_outlink_host ───────────────────────────────────────────

#[test]
fn blacklist_matches_exact_host() {
    assert!(is_blacklisted_outlink_host("https://facebook.com/sharer"));
    assert!(is_blacklisted_outlink_host(
        "https://twitter.com/intent/tweet"
    ));
    assert!(is_blacklisted_outlink_host("https://vk.com/share.php"));
}

#[test]
fn blacklist_matches_subdomain() {
    assert!(is_blacklisted_outlink_host("https://www.facebook.com/x"));
    assert!(is_blacklisted_outlink_host("https://m.facebook.com/y"));
    assert!(is_blacklisted_outlink_host(
        "https://business.linkedin.com/z"
    ));
}

#[test]
fn blacklist_is_case_insensitive_on_host() {
    assert!(is_blacklisted_outlink_host("https://WWW.Facebook.COM/x"));
}

#[test]
fn blacklist_does_not_match_unrelated_hosts() {
    assert!(!is_blacklisted_outlink_host("https://example.com/x"));
    assert!(!is_blacklisted_outlink_host(
        "https://news.ycombinator.com/"
    ));
}

/// A blacklisted token must not match a substring inside a different
/// host — e.g. `notfacebook.com` is not on the list.
#[test]
fn blacklist_rejects_substring_lookalikes() {
    assert!(!is_blacklisted_outlink_host("https://notfacebook.com/x"));
    assert!(!is_blacklisted_outlink_host(
        "https://twitter.com.evil.example/x"
    ));
}

#[test]
fn blacklist_handles_unparseable_url() {
    assert!(!is_blacklisted_outlink_host("not a url"));
}

#[test]
fn blacklist_matches_new_cdn_and_video_entries() {
    // CDN/avatar/video entries added in the second blacklist pass.
    assert!(is_blacklisted_outlink_host(
        "https://gravatar.com/avatar/abc"
    ));
    assert!(is_blacklisted_outlink_host("https://i0.wp.com/img.png"));
    assert!(is_blacklisted_outlink_host("https://substackcdn.com/image"));
    assert!(is_blacklisted_outlink_host(
        "https://www.youtube.com/watch?v=x"
    ));
    assert!(is_blacklisted_outlink_host("https://youtu.be/abc"));
}

// ── host_of ───────────────────────────────────────────────────────────────

#[test]
fn host_of_strips_leading_www() {
    assert_eq!(
        host_of("https://www.example.com/x"),
        Some("example.com".into())
    );
    assert_eq!(host_of("https://example.com/x"), Some("example.com".into()));
}

#[test]
fn host_of_does_not_strip_other_subdomains() {
    // Only the literal "www." prefix is collapsed; other subdomains are
    // typically distinct sites (en.wikipedia.org ≠ wikipedia.org).
    assert_eq!(
        host_of("https://m.example.com/x"),
        Some("m.example.com".into())
    );
    assert_eq!(
        host_of("https://en.wikipedia.org/x"),
        Some("en.wikipedia.org".into())
    );
}

#[test]
fn host_of_lowercases() {
    assert_eq!(
        host_of("https://WWW.Example.COM/x"),
        Some("example.com".into())
    );
}

#[test]
fn host_of_returns_none_for_hostless_urls() {
    // mailto: has no host in url::Url's sense.
    assert_eq!(host_of("mailto:user@example.com"), None);
    assert_eq!(host_of("not a url"), None);
}

// ── is_in_prefix www-collapsing ───────────────────────────────────────────

#[test]
fn in_prefix_treats_www_as_equivalent_to_bare_host() {
    // The motivating case: a crawl target prefix of https://lesswrong.com/
    // should match a discovered https://www.lesswrong.com/foo and vice
    // versa, so we don't double-store the same site.
    assert!(is_in_prefix(
        "https://www.lesswrong.com/posts/x",
        "https://lesswrong.com/"
    ));
    assert!(is_in_prefix(
        "https://lesswrong.com/posts/x",
        "https://www.lesswrong.com/"
    ));
    assert!(is_in_prefix(
        "https://www.lesswrong.com/posts/x",
        "https://www.lesswrong.com/"
    ));
}

#[test]
fn in_prefix_does_not_collapse_other_subdomains() {
    // m.X and X stay distinct — only `www.` is treated as decorative.
    assert!(!is_in_prefix(
        "https://m.example.com/x",
        "https://example.com/"
    ));
    assert!(!is_in_prefix(
        "https://en.wikipedia.org/wiki/X",
        "https://wikipedia.org/"
    ));
}

#[test]
fn in_prefix_still_requires_scheme_match() {
    // http URL must not match an https prefix even with www-collapse.
    assert!(!is_in_prefix(
        "http://www.example.com/x",
        "https://example.com/"
    ));
}

// ── further cases ────────────────────────────────────────────────────────────

#[test]
fn normalize_refuses_what_is_no_url() {
    assert_eq!(normalize_url("not a url"), None);
    assert_eq!(normalize_url(""), None);
    assert_eq!(normalize_url("/relative"), None);
}

#[test]
fn normalize_drops_credentials_and_keeps_other_ports() {
    assert_eq!(
        normalize_url("https://user:pw@example.com/x"),
        Some("https://example.com/x".to_string())
    );
    assert_eq!(
        normalize_url("http://example.com:8080/x"),
        Some("http://example.com:8080/x".to_string())
    );
    assert_eq!(
        normalize_url("http://example.com:443/x"),
        Some("http://example.com:443/x".to_string())
    );
}

#[test]
fn normalize_keeps_the_order_of_equal_names() {
    assert_eq!(
        normalize_url("https://example.com/?b=1&a=2&a=1"),
        Some("https://example.com/?a=2&a=1&b=1".to_string())
    );
}

#[test]
fn normalizing_twice_is_normalizing_once() {
    for url in [
        "https://Example.COM:443/Path?b=2&a=1&utm_source=x#frag",
        "http://user@example.com?q=a%20b",
        "https://example.com/x?foo",
    ] {
        let once = normalize_url(url).unwrap();
        assert_eq!(normalize_url(&once), Some(once.clone()));
    }
}

#[test]
fn odd_urls_have_a_canonical_form_of_their_own() {
    for (url, canonical) in [
        ("http://u:p@example.com:80/a#b", "http://example.com/a"),
        ("http://:p@example.com/", "http://example.com/"),
        ("http://u@example.com/?", "http://example.com/"),
        ("http://example.com:443/", "http://example.com:443/"),
        ("https:example.com", "https://example.com/"),
        ("https://example.com/a/../b/./c\\d", "https://example.com/b/c/d"),
        ("https://[::1]:443/?b&a", "https://[::1]/?a=&b="),
        ("https://example.com/?=&=x&&", "https://example.com/?=&=x"),
        ("https://example.com/?a=b=c&a=%26", "https://example.com/?a=b%3Dc&a=%26"),
        ("https://example.com/?q='%27+%2B \"#", "https://example.com/?q=%27%27+%2B+%22"),
        ("http://b\u{fc}cher.example/\u{e4}", "http://xn--bcher-kva.example/%C3%A4"),
        (" \thttp://example.com/a\nb ", "http://example.com/ab"),
        ("http://0x7f.1/%7e%zz", "http://127.0.0.1/%7e%zz"),
        ("https://example.com//a//?utm_source=x&utm_medium=y", "https://example.com//a//"),
    ] {
        assert_eq!(normalize_url(url).as_deref(), Some(canonical), "{url}");
        assert_eq!(normalize_url(canonical).as_deref(), Some(canonical), "{url}");
    }
}

/// A host label outside of ASCII may have a name in ASCII that is too long to be
/// read again; such a URL still has a canonical form.
#[test]
fn long_hosts_have_a_canonical_form() {
    let label: String = (0..900u32)
        .map(|i| char::from_u32(0x4e00 + (i * i * 31 + i * 7919) % 20_000).unwrap())
        .collect();
    let canonical = normalize_url(&format!("http://u@{label}/x?b=1&a=2#f")).unwrap();
    assert!(canonical.starts_with("http://xn--"));
    assert!(canonical.ends_with("/x?a=2&b=1"));
    assert_eq!(normalize_url(&canonical), None);
    assert!(!is_in_prefix(&canonical, &canonical));
}

#[test]
fn tracking_params_are_the_known_ones() {
    for name in ["utm_source", "UTM_Source", "fbclid", "gclid"] {
        assert!(is_tracking_param(name), "{name}");
    }
    for name in ["q", "utm", "utm_anything", "xutm_source", ""] {
        assert!(!is_tracking_param(name), "{name}");
    }
}

#[test]
fn www_is_stripped_once_and_only_in_front() {
    assert_eq!(strip_www("www.example.com"), "example.com");
    assert_eq!(strip_www("www.www.example.com"), "www.example.com");
    assert_eq!(strip_www("example.www.com"), "example.www.com");
    assert_eq!(
        strip_leading_www("https://www.example.com/www.x"),
        "https://example.com/www.x"
    );
    assert_eq!(
        strip_leading_www("https://example.com/x"),
        "https://example.com/x"
    );
}

#[test]
fn www_in_a_path_or_query_is_left_alone() {
    for url in [
        "https://example.com/r/https://www.other.org/",
        "https://example.com/?to=https://www.other.org/",
        "mailto:a@b.c?x=://www.d",
    ] {
        assert_eq!(strip_leading_www(url), url);
    }
    assert_eq!(
        strip_leading_www("https://www.example.com/r/https://www.other.org/"),
        "https://example.com/r/https://www.other.org/"
    );
    assert!(!is_in_prefix(
        "https://example.com/r/https://other.org/x",
        "https://example.com/r/https://www.other.org/"
    ));
}

#[test]
fn blacklisted_hosts_cover_their_subdomains() {
    assert!(is_blacklisted_host("facebook.com"));
    assert!(is_blacklisted_host("a.b.facebook.com"));
    assert!(!is_blacklisted_host("afacebook.com"));
    assert!(!is_blacklisted_host("com"));
}

#[test]
fn prefix_must_be_a_url_too() {
    assert!(!is_in_prefix("https://example.com/x", "example.com"));
    assert!(!is_in_prefix("nonsense", "https://example.com/"));
    assert!(is_in_prefix("https://example.com", "https://example.com/"));
}

#[test]
fn falling_under_a_prefix_is_transitive() {
    let (a, b, c) = ("https://www.a.org/x/y", "https://a.org/x/", "https://www.a.org/");
    assert!(is_in_prefix(a, a));
    assert!(is_in_prefix(a, b) && is_in_prefix(b, c) && is_in_prefix(a, c));
}

#[test]
fn tracking_params_never_matter_wherever_they_stand() {
    let plain = normalize_url("https://a.org/?b=1&a=2");
    for url in [
        "https://a.org/?gclid=x&b=1&a=2",
        "https://a.org/?b=1&gclid=x&a=2",
        "https://a.org/?b=1&a=2&gclid=x",
    ] {
        assert_eq!(normalize_url(url), plain);
    }
}
