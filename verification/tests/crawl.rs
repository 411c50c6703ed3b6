use community_search::crawler::canonical::{
    accept_redirect, can_detect, diagnose, paths_equivalent, Probe,
};
use community_search::crawler::driver::{
    effective_delay_for_run, outcome_of, rate_limit_backoff, CrawlRun, DriverConfig, NextStep,
    PageOutcome,
};
use community_search::crawler::error::CrawlError;
use community_search::crawler::fetcher::{
    classify_head, fresh_page, parse_retry_after, raw_text, request_headers, FetchOutcome,
    FetchRequest, HeadDecision, ResponseHead,
};
use community_search::crawler::page::{check_robots, page_request, plan_page, PageContext, PageResult};
use community_search::crawler::robots::{origin_of, round_seconds, RobotsChecker};
use community_search::crawler::scheduler::{
    config_for, list_due_targets, may_dispatch, page_context, panic_message, DueTarget,
    RunningTargets, TargetSchedule,
};
use community_search::crawler::url_class::normalize_url;
use community_search::db::crawled_pages::{
    mark_indexed_batch, upsert, CrawledPageRow, IndexedEntry,
};
use community_search::hash::content_hash;
use community_search::time::Duration;

// ── waits ────────────────────────────────────────────────────────────────────

/// Waits double from one second, and the fifth refusal in a row ends the run.
#[test]
fn rate_limit_backoff_is_exponential_up_to_abort() {
    assert_eq!(rate_limit_backoff(1), Some(Duration::from_secs(1)));
    assert_eq!(rate_limit_backoff(2), Some(Duration::from_secs(2)));
    assert_eq!(rate_limit_backoff(3), Some(Duration::from_secs(4)));
    assert_eq!(rate_limit_backoff(4), Some(Duration::from_secs(8)));
    assert_eq!(rate_limit_backoff(5), None, "5 consecutive 429s → abort");
}

#[test]
fn effective_delay_uses_max_of_configured_and_robots() {
    // configured > robots: keep configured
    assert_eq!(
        effective_delay_for_run(Duration::from_secs(3), Some(Duration::from_secs(2))),
        Duration::from_secs(3),
    );
    // robots > configured: use robots
    assert_eq!(
        effective_delay_for_run(Duration::from_millis(250), Some(Duration::from_secs(2))),
        Duration::from_secs(2),
    );
    // no robots delay: use configured
    assert_eq!(
        effective_delay_for_run(Duration::from_millis(250), None),
        Duration::from_millis(250),
    );
}

// ── runs ─────────────────────────────────────────────────────────────────────

fn config(max_pages: usize) -> DriverConfig {
    DriverConfig {
        politeness_delay: Duration::from_secs(0),
        max_pages_per_run: max_pages,
    }
}

fn crawled(links: &[&str]) -> PageOutcome {
    PageOutcome::Crawled(PageResult {
        in_prefix_links: links.iter().map(|s| s.to_string()).collect(),
        indexed: true,
        not_modified: false,
    })
}

#[test]
fn aborts_after_five_consecutive_429s() {
    let seed = CrawlRun::canonical_seed("https://example.com/").unwrap();
    let mut run = CrawlRun::start(seed.clone(), &config(100), None);
    for n in 1..=5 {
        assert_eq!(run.next_url().as_deref(), Some(seed.as_str()), "the page is tried again");
        let step = run.finish_page(PageOutcome::RateLimited(Some(Duration::from_secs(0))));
        if n < 5 {
            assert!(matches!(step, NextStep::Wait(d) if d == Duration::from_secs(0)));
        } else {
            assert!(matches!(step, NextStep::Abort));
        }
    }
    assert_eq!(run.next_url(), None);
    assert_eq!(run.stats().pages_fetched, 0, "all 429s → no successful fetches");
    assert_eq!(
        run.stats().pages_errored,
        0,
        "rate-limited pages are not counted as errors"
    );
}

#[test]
fn sitemap_seeds_bfs_when_home_has_no_links() {
    let seed = CrawlRun::canonical_seed("https://example.com").unwrap();
    assert_eq!(seed, "https://example.com/");
    let mut run = CrawlRun::start(seed, &config(10), None);
    run.add_links(&vec![
        "https://example.com/a".to_string(),
        "https://example.com/b".to_string(),
    ]);
    while let Some(_) = run.next_url() {
        run.finish_page(crawled(&[]));
    }
    assert_eq!(run.stats().pages_indexed, 3);
}

#[test]
fn a_run_visits_every_page_once_and_in_order() {
    let mut run = CrawlRun::start("https://a.org/".to_string(), &config(10), None);
    let mut seen = Vec::new();
    while let Some(url) = run.next_url() {
        let links: &[&str] = match url.as_str() {
            "https://a.org/" => &["https://a.org/1", "https://a.org/2", "https://a.org/"],
            "https://a.org/1" => &["https://a.org/2", "https://a.org/3"],
            _ => &["https://a.org/1"],
        };
        seen.push(url);
        run.finish_page(crawled(links));
    }
    assert_eq!(
        seen,
        ["https://a.org/", "https://a.org/1", "https://a.org/2", "https://a.org/3"]
    );
}

#[test]
fn a_run_stops_at_its_page_limit() {
    let mut run = CrawlRun::start("https://a.org/".to_string(), &config(2), None);
    run.add_links(&vec!["https://a.org/1".to_string(), "https://a.org/2".to_string()]);
    let mut pages = 0;
    while let Some(_) = run.next_url() {
        run.finish_page(crawled(&[]));
        pages += 1;
    }
    assert_eq!(pages, 2);
    assert_eq!(run.stats().pages_fetched, 2);
}

#[test]
fn failures_count_and_do_not_end_a_run() {
    let mut run = CrawlRun::start("https://a.org/".to_string(), &config(5), None);
    run.add_links(&vec!["https://a.org/1".to_string()]);
    run.next_url().unwrap();
    run.finish_page(PageOutcome::Failed);
    assert_eq!(run.next_url().as_deref(), Some("https://a.org/1"));
    run.finish_page(PageOutcome::Crawled(PageResult {
        in_prefix_links: Vec::new(),
        indexed: false,
        not_modified: true,
    }));
    assert_eq!(run.next_url(), None);
    let stats = run.stats();
    assert_eq!(stats.pages_errored, 1);
    assert_eq!(stats.pages_fetched, 1);
    assert_eq!(stats.pages_indexed, 0);
    assert_eq!(stats.pages_not_modified, 1);
}

#[test]
fn a_run_waits_between_pages_and_caps_what_a_server_asks_for() {
    let polite = DriverConfig {
        politeness_delay: Duration::from_millis(250),
        max_pages_per_run: 9,
    };
    let mut run = CrawlRun::start("https://a.org/".to_string(), &polite, Some(Duration::from_secs(2)));
    run.next_url().unwrap();
    let step = run.finish_page(PageOutcome::RateLimited(Some(Duration::from_secs(3600))));
    assert!(matches!(step, NextStep::Wait(d) if d == Duration::from_secs(120)));
    run.next_url().unwrap();
    let step = run.finish_page(PageOutcome::RateLimited(None));
    assert!(matches!(step, NextStep::Wait(d) if d == Duration::from_secs(2)));
    run.next_url().unwrap();
    run.add_links(&vec!["https://a.org/1".to_string()]);
    let step = run.finish_page(crawled(&[]));
    assert!(matches!(step, NextStep::Wait(d) if d == Duration::from_secs(2)));
}

#[test]
fn seeds_must_be_urls() {
    let err = CrawlRun::canonical_seed("nonsense").unwrap_err();
    assert_eq!(err.message(), "seed URL is unparseable: nonsense");
}

#[test]
fn outcomes_tell_refusals_from_failures() {
    assert!(matches!(
        outcome_of(Err(CrawlError::RateLimited { retry_after: None })),
        PageOutcome::RateLimited(None)
    ));
    assert!(matches!(
        outcome_of(Err(CrawlError::Other("x".to_string()))),
        PageOutcome::Failed
    ));
}

// ── errors ───────────────────────────────────────────────────────────────────

#[test]
fn robots_disallowed_displays_url() {
    let url = "https://example.com/secret";
    let err = CrawlError::RobotsDisallowed(url.to_string());
    assert_eq!(err.message(), format!("robots.txt disallows {url}"));
}

#[test]
fn errors_display_what_they_hold() {
    assert_eq!(
        CrawlError::IndexFull { used: 10, max: 5 }.message(),
        "index full: used=10, max=5"
    );
    assert!(CrawlError::RateLimited { retry_after: Some(Duration::from_secs(60)) }
        .message()
        .contains("60"));
    assert!(CrawlError::NotHtml("application/pdf".to_string())
        .message()
        .contains("application/pdf"));
}

// ── fetching ─────────────────────────────────────────────────────────────────

fn head(status: u16) -> ResponseHead {
    ResponseHead {
        status,
        content_type: Some("text/html; charset=utf-8".to_string()),
        etag: None,
        last_modified: None,
        retry_after: None,
        final_url: "https://example.com/page".to_string(),
    }
}

#[test]
fn fetch_returns_fresh_on_200_html() {
    let mut h = head(200);
    h.etag = Some("\"abc123\"".to_string());
    assert!(matches!(classify_head(&h), Ok(HeadDecision::ReadBody)));
    match fresh_page(h, "<html><body>hello</body></html>".to_string()) {
        FetchOutcome::Fresh {
            status,
            body,
            etag,
            last_modified,
            final_url,
        } => {
            assert_eq!(status, 200);
            assert!(body.contains("hello"), "body should contain 'hello'");
            assert_eq!(etag, Some("\"abc123\"".to_string()));
            assert!(last_modified.is_none());
            assert_eq!(final_url, "https://example.com/page");
        }
        other => panic!("Expected Fresh but got {:?}", other),
    }
}

/// A page that was reached through a redirect is recorded where it was found.
#[test]
fn fetch_follows_redirect_and_records_final_url() {
    let mut h = head(200);
    h.content_type = Some("text/html".to_string());
    h.final_url = "https://example.com/destination".to_string();
    assert!(matches!(classify_head(&h), Ok(HeadDecision::ReadBody)));
    match fresh_page(h, "<html><body>hi</body></html>".to_string()) {
        FetchOutcome::Fresh { status, final_url, .. } => {
            assert_eq!(status, 200);
            assert_eq!(
                final_url, "https://example.com/destination",
                "final_url should be the redirect target, not the requested URL"
            );
        }
        other => panic!("Expected Fresh but got {:?}", other),
    }
}

#[test]
fn fetch_returns_not_modified_on_304() {
    let req = FetchRequest {
        url: "https://example.com/page".to_string(),
        etag: Some("\"abc123\"".to_string()),
        last_modified: None,
    };
    assert_eq!(
        request_headers("test-agent/1.0", &req),
        [
            ("user-agent".to_string(), "test-agent/1.0".to_string()),
            ("if-none-match".to_string(), "\"abc123\"".to_string()),
        ]
    );
    assert!(matches!(
        classify_head(&head(304)),
        Ok(HeadDecision::Done(FetchOutcome::NotModified))
    ));
}

#[test]
fn fetch_rejects_non_html_content_type() {
    let mut h = head(200);
    h.content_type = Some("application/pdf".to_string());
    let err = classify_head(&h).unwrap_err();
    assert!(matches!(err, CrawlError::NotHtml(_)), "got {:?}", err);
    h.content_type = None;
    assert!(matches!(classify_head(&h), Err(CrawlError::NotHtml(c)) if c.is_empty()));
    h.content_type = Some("Application/XHTML+xml".to_string());
    assert!(matches!(classify_head(&h), Ok(HeadDecision::ReadBody)));
}

#[test]
fn parse_retry_after_parses_integer_seconds() {
    assert_eq!(parse_retry_after("60"), Some(Duration::from_secs(60)));
    assert_eq!(parse_retry_after("0"), Some(Duration::from_secs(0)));
    assert_eq!(parse_retry_after("  30  "), Some(Duration::from_secs(30)));
}

#[test]
fn parse_retry_after_returns_none_for_non_integer() {
    assert_eq!(parse_retry_after("Wed, 21 Oct 2015 07:28:00 GMT"), None);
    assert_eq!(parse_retry_after(""), None);
    assert_eq!(parse_retry_after("abc"), None);
}

#[test]
fn parse_retry_after_takes_the_range_of_the_type() {
    assert_eq!(
        parse_retry_after("18446744073709551615"),
        Some(Duration::from_secs(u64::MAX))
    );
    assert_eq!(parse_retry_after("18446744073709551616"), None);
    assert_eq!(parse_retry_after("+5"), Some(Duration::from_secs(5)));
    assert_eq!(parse_retry_after("-5"), None);
    assert_eq!(parse_retry_after("1.5"), None);
}

#[test]
fn fetch_returns_rate_limited_on_429_no_header() {
    assert!(matches!(
        classify_head(&head(429)),
        Ok(HeadDecision::Done(FetchOutcome::RateLimited { retry_after: None }))
    ));
}

#[test]
fn fetch_returns_rate_limited_with_retry_after_seconds() {
    let mut h = head(429);
    h.retry_after = Some("60".to_string());
    assert!(matches!(
        classify_head(&h),
        Ok(HeadDecision::Done(FetchOutcome::RateLimited { retry_after: Some(d) }))
            if d == Duration::from_secs(60)
    ));
}

#[test]
fn fetch_returns_other_status_for_404() {
    assert!(matches!(
        classify_head(&head(404)),
        Ok(HeadDecision::Done(FetchOutcome::OtherStatus { status: 404 }))
    ));
}

#[test]
fn raw_texts_are_capped_and_read_leniently() {
    assert_eq!(raw_text(200, b"abcdef".to_vec(), 4).as_deref(), Some("abcd"));
    assert_eq!(raw_text(200, b"abc".to_vec(), 4).as_deref(), Some("abc"));
    assert_eq!(raw_text(404, b"abc".to_vec(), 4), None);
    assert_eq!(
        raw_text(200, vec![b'a', 0xff, b'b'], 10).as_deref(),
        Some("a\u{fffd}b")
    );
}

// ── pages ────────────────────────────────────────────────────────────────────

fn ctx() -> PageContext {
    PageContext {
        collection_id: "col1".to_string(),
        crawl_target_id: "ct1".to_string(),
        url_prefix: "https://example.com/".to_string(),
        collection_name: "test".to_string(),
    }
}

fn row(content_hash: Option<&str>, indexed: Option<&str>) -> CrawledPageRow {
    CrawledPageRow {
        id: 0,
        collection_id: "col1".to_string(),
        crawl_target_id: "ct1".to_string(),
        url: "https://example.com/".to_string(),
        etag: Some("e0".to_string()),
        last_modified: Some("l0".to_string()),
        content_hash: content_hash.map(|s| s.to_string()),
        last_status: Some(200),
        last_crawled_at: 1_600_000_000,
        indexed_content_hash: indexed.map(|s| s.to_string()),
    }
}

fn fresh(body: &str) -> FetchOutcome {
    FetchOutcome::Fresh {
        status: 200,
        body: body.to_string(),
        etag: Some("e1".to_string()),
        last_modified: None,
        final_url: "https://example.com/".to_string(),
    }
}

/// A page whose text never reached the index is sent there again, whatever its
/// stored fingerprint.
#[test]
fn pages_with_null_indexed_hash_are_reindexed_on_next_crawl() {
    let prior = Some(row(Some("stale-precrash-hash"), None));
    let plan = plan_page(
        "https://example.com/",
        &ctx(),
        &prior,
        fresh("<html><body>survivor</body></html>"),
        1_700_000_000,
    )
    .unwrap();
    assert!(plan.result.indexed);
    let job = plan.job.unwrap();
    assert_eq!(job.body, "survivor");
    assert_eq!(job.content_hash, content_hash("", "survivor"));
    assert_eq!(plan.row.content_hash, Some(content_hash("", "survivor")));
    assert_eq!(plan.row.last_crawled_at, 1_700_000_000);
}

#[test]
fn pages_that_are_in_the_index_are_not_sent_again() {
    let hash = content_hash("", "survivor");
    let prior = Some(row(Some(&hash), Some(&hash)));
    let plan = plan_page(
        "https://example.com/",
        &ctx(),
        &prior,
        fresh("<html><body>survivor</body></html>"),
        5,
    )
    .unwrap();
    assert!(plan.job.is_none());
    assert!(!plan.result.indexed);
}

#[test]
fn links_are_followed_in_the_prefix_and_counted_outside_of_it() {
    let html = r#"<html><body><a href="/a?utm_source=x">a</a>
<a href="https://www.other.org/p">other</a>
<a href="https://facebook.com/x">social</a></body></html>"#;
    let plan = plan_page("https://example.com/", &ctx(), &None, fresh(html), 5).unwrap();
    assert_eq!(plan.result.in_prefix_links, ["https://example.com/a"]);
    assert_eq!(plan.hits.len(), 1);
    assert_eq!(plan.hits[0].host, "other.org");
    assert_eq!(plan.hits[0].example.link_text, "other");
}

#[test]
fn unchanged_pages_keep_what_is_stored() {
    let prior = Some(row(Some("h"), Some("h")));
    let plan = plan_page("https://example.com/", &ctx(), &prior, FetchOutcome::NotModified, 9).unwrap();
    assert!(plan.job.is_none());
    assert!(plan.result.not_modified);
    assert_eq!(plan.row.content_hash.as_deref(), Some("h"));
    assert_eq!(plan.row.etag.as_deref(), Some("e0"));
    assert_eq!(plan.row.last_crawled_at, 9);
}

#[test]
fn refused_pages_are_an_error() {
    let err = plan_page(
        "https://example.com/",
        &ctx(),
        &None,
        FetchOutcome::RateLimited { retry_after: None },
        9,
    )
    .unwrap_err();
    assert!(matches!(err, CrawlError::RateLimited { retry_after: None }));
}

#[test]
fn requests_carry_what_is_stored() {
    let req = page_request("https://example.com/", &Some(row(None, None)));
    assert_eq!(req.etag.as_deref(), Some("e0"));
    assert_eq!(req.last_modified.as_deref(), Some("l0"));
    let req = page_request("https://example.com/", &None);
    assert_eq!(req.url, "https://example.com/");
    assert_eq!(req.etag, None);
}

#[test]
fn disallowed_pages_are_an_error() {
    assert!(check_robots(true, "https://a.org/").is_ok());
    assert!(matches!(
        check_robots(false, "https://a.org/"),
        Err(CrawlError::RobotsDisallowed(u)) if u == "https://a.org/"
    ));
}

// ── canonical prefixes ───────────────────────────────────────────────────────

#[test]
fn no_redirect_returns_none() {
    assert_eq!(
        accept_redirect("https://example.com/", 200, "https://example.com/"),
        None,
        "no redirect → None"
    );
}

#[test]
fn host_only_redirect_with_same_path_is_accepted() {
    assert_eq!(
        accept_redirect("https://www.example.com/", 200, "https://example.com/"),
        normalize_url("https://example.com/"),
        "host-only redirect with unchanged path must be accepted"
    );
}

#[test]
fn path_changing_redirect_is_rejected() {
    assert_eq!(
        accept_redirect("https://example.com/", 200, "https://example.com/en/"),
        None,
        "path-changing redirect must be ignored (would narrow prefix)"
    );
}

#[test]
fn non_2xx_final_status_returns_none() {
    assert_eq!(accept_redirect("https://example.com/", 404, "https://www.example.com/"), None);
}

#[test]
fn unparseable_input_returns_none() {
    assert_eq!(accept_redirect("not a url", 200, "https://example.com/"), None);
    assert!(!can_detect("not a url"));
    assert!(can_detect("https://example.com/"));
}

#[test]
fn trailing_slash_redirect_is_accepted() {
    assert_eq!(
        accept_redirect("https://example.com/section", 200, "https://example.com/section/"),
        normalize_url("https://example.com/section/"),
        "trailing-slash addition must be treated as canonical"
    );
}

#[test]
fn paths_may_differ_in_a_slash_at_the_end() {
    assert!(paths_equivalent("/a", "/a/"));
    assert!(paths_equivalent("/a", "/a"));
    assert!(!paths_equivalent("/a", "/b"));
    assert!(!paths_equivalent("/", "/en"));
}

fn answer(status: u16, status_text: &str, final_url: &str, final_path: &str) -> Probe {
    Probe::Answer {
        status,
        status_text: status_text.to_string(),
        final_url: final_url.to_string(),
        final_path: final_path.to_string(),
    }
}

#[test]
fn diagnoses_name_the_reason() {
    let input = "https://example.com/";
    assert_eq!(diagnose("nonsense", &Probe::Timeout), "unparseable URL");
    assert_eq!(diagnose(input, &Probe::Timeout), "timeout");
    assert_eq!(diagnose(input, &Probe::ConnectError), "connect error");
    assert_eq!(diagnose(input, &Probe::NetworkError("x".to_string())), "network error: x");
    assert_eq!(
        diagnose(input, &answer(404, "404 Not Found", input, "/")),
        "non-2xx final status: 404 Not Found at https://example.com/"
    );
    assert_eq!(
        diagnose(input, &answer(200, "200 OK", input, "/")),
        "already canonical (no redirect)"
    );
    assert_eq!(
        diagnose(input, &answer(200, "200 OK", "https://example.com/en/", "/en/")),
        "path-changing redirect rejected: / → /en/"
    );
    assert_eq!(
        diagnose(input, &answer(200, "200 OK", "https://x.org/", "/")),
        "redirected to https://x.org/ but detection still returned None (unexpected)"
    );
}

// ── robots ───────────────────────────────────────────────────────────────────

fn checker_with(status: u16, robots_txt: &str) -> RobotsChecker {
    let mut checker = RobotsChecker::new("TestBot/1.0");
    let fetch = checker.missing_rules("https://example.com/x").unwrap().unwrap();
    assert_eq!(fetch.robots_url, "https://example.com/robots.txt");
    checker.store(fetch.origin, Some((status, robots_txt.as_bytes().to_vec())));
    checker
}

#[test]
fn allows_everything_when_robots_missing() {
    let checker = checker_with(404, "User-agent: *\nDisallow: /\n");
    assert!(
        checker.is_allowed("https://example.com/some/page").unwrap(),
        "should allow when robots.txt returns 404"
    );
}

#[test]
fn disallows_paths_matching_rule() {
    let checker = checker_with(200, "User-agent: *\nDisallow: /private/\n");
    assert!(
        !checker.is_allowed("https://example.com/private/secret").unwrap(),
        "/private/secret should be disallowed"
    );
    assert!(
        checker.is_allowed("https://example.com/public/ok").unwrap(),
        "/public/ok should be allowed"
    );
}

#[test]
fn returns_crawl_delay_from_robots_txt() {
    let checker = checker_with(200, "User-agent: *\nAllow: /\nCrawl-delay: 2\n");
    let delay = checker.crawl_delay_for("https://example.com/page").unwrap();
    assert_eq!(delay, Some(Duration::from_secs(2)));
}

#[test]
fn returns_none_when_no_crawl_delay() {
    let checker = checker_with(200, "User-agent: *\nAllow: /\n");
    let delay = checker.crawl_delay_for("https://example.com/page").unwrap();
    assert!(delay.is_none(), "no Crawl-Delay directive → None");
}

#[test]
fn returns_none_crawl_delay_when_robots_missing() {
    let checker = checker_with(404, "");
    let delay = checker.crawl_delay_for("https://example.com/page").unwrap();
    assert!(delay.is_none(), "404 robots.txt → None crawl delay");
}

#[test]
fn caches_per_origin() {
    let checker = checker_with(200, "User-agent: *\nAllow: /\n");
    assert!(checker.missing_rules("https://example.com/page2").unwrap().is_none());
    let other = checker.missing_rules("https://example.com:8443/").unwrap().unwrap();
    assert_eq!(other.robots_url, "https://example.com:8443/robots.txt");
}

#[test]
fn failed_requests_count_as_no_rules() {
    let mut checker = RobotsChecker::new("TestBot/1.0");
    checker.store("https://example.com".to_string(), None);
    assert!(checker.missing_rules("https://example.com/a").unwrap().is_none());
    assert!(checker.is_allowed("https://example.com/a").unwrap());
    assert!(checker.sitemaps_for("https://example.com/a").unwrap().is_empty());
}

#[test]
fn sitemaps_are_named_in_robots_txt() {
    let checker = checker_with(200, "User-agent: *\nAllow: /\nSitemap: https://example.com/s.xml\n");
    assert_eq!(
        checker.sitemaps_for("https://example.com/").unwrap(),
        ["https://example.com/s.xml"]
    );
}

#[test]
fn origins_need_a_host() {
    assert_eq!(origin_of("http://example.com:8080/x?y").unwrap(), "http://example.com:8080");
    assert_eq!(origin_of("https://example.com/x").unwrap(), "https://example.com");
    assert!(matches!(origin_of("nonsense"), Err(CrawlError::UrlParse(_))));
    assert!(matches!(origin_of("mailto:a@b.c"), Err(CrawlError::Other(m)) if m == "URL has no host"));
}

// ── scheduling ───────────────────────────────────────────────────────────────

fn target(id: &str, crawl_delay_secs: Option<i64>) -> DueTarget {
    DueTarget {
        id: id.to_string(),
        collection_id: "1".to_string(),
        collection_name: "test-collection".to_string(),
        url_prefix: "https://example.com/".to_string(),
        recrawl_interval_secs: 86400,
        crawl_delay_secs,
    }
}

fn schedule(id: &str, last_crawled_at: Option<i64>, enabled: bool) -> TargetSchedule {
    TargetSchedule {
        target: target(id, None),
        enabled,
        last_crawled_at,
    }
}

#[test]
fn list_due_returns_never_crawled_targets() {
    let due = list_due_targets(vec![schedule("1", None, true)], 1_000_000);
    assert_eq!(due.len(), 1, "target with NULL last_crawled_at must be due");
    assert_eq!(due[0].id, "1");
}

#[test]
fn list_due_excludes_recently_crawled_targets() {
    // last=950_000, interval=86400 → next due at 1_036_400 > now(1_000_000)
    let due = list_due_targets(vec![schedule("1", Some(950_000), true)], 1_000_000);
    assert!(
        due.is_empty(),
        "recently crawled target must not be due (next_due=1_036_400 > now=1_000_000)"
    );
}

#[test]
fn list_due_includes_stale_targets() {
    // last=800_000, interval=86400 → next due at 886_400 <= now(1_000_000) → DUE
    let due = list_due_targets(vec![schedule("1", Some(800_000), true)], 1_000_000);
    assert_eq!(
        due.len(),
        1,
        "stale target must be due (next_due=886_400 <= now=1_000_000)"
    );
}

#[test]
fn list_due_excludes_disabled_targets() {
    let due = list_due_targets(vec![schedule("1", None, false)], 1_000_000);
    assert!(due.is_empty(), "disabled target must never be due");
}

#[test]
fn due_targets_keep_their_order() {
    let due = list_due_targets(
        vec![
            schedule("b", None, true),
            schedule("x", None, false),
            schedule("a", Some(1_000_000 - 86400), true),
        ],
        1_000_000,
    );
    let ids: Vec<&str> = due.iter().map(|t| t.id.as_str()).collect();
    assert_eq!(ids, ["b", "a"]);
}

#[test]
fn a_target_is_crawled_once_at_a_time() {
    let mut running = RunningTargets::new();
    assert!(running.begin("a"));
    assert!(!running.begin("a"));
    assert!(running.begin("b"));
    running.end("a");
    assert!(running.begin("a"));
    assert!(!running.begin("b"));
}

#[test]
fn crawls_start_unless_paused_or_full() {
    assert!(may_dispatch(false, 9, 10));
    assert!(!may_dispatch(true, 9, 10));
    assert!(!may_dispatch(false, 10, 10));
}

#[test]
fn targets_may_have_a_wait_of_their_own() {
    let default = config(7);
    let own = config_for(&target("a", Some(5)), &default);
    assert_eq!(own.politeness_delay, Duration::from_secs(5));
    assert_eq!(own.max_pages_per_run, 7);
    for secs in [None, Some(0), Some(-3)] {
        let cfg = config_for(&target("a", secs), &default);
        assert_eq!(cfg.politeness_delay, Duration::from_secs(0));
    }
    let page = page_context(&target("a", None));
    assert_eq!(page.crawl_target_id, "a");
    assert_eq!(page.collection_name, "test-collection");
}

#[test]
fn panics_are_shown_by_their_message() {
    assert_eq!(panic_message(Some("owned"), None), "owned");
    assert_eq!(panic_message(None, Some("literal")), "literal");
    assert_eq!(panic_message(None, None), "non-string panic payload");
}

#[test]
fn a_noted_commit_keeps_content_from_being_sent_again() {
    let html = "<html><body>survivor</body></html>";
    let plan = plan_page("https://example.com/", &ctx(), &None, fresh(html), 1).unwrap();
    let job = plan.job.unwrap();
    let mut rows = vec![upsert(&None, plan.row)];
    let again = plan_page("https://example.com/", &ctx(), &Some(rows[0].clone()), fresh(html), 2);
    assert!(again.unwrap().result.indexed, "nothing was committed yet");
    mark_indexed_batch(
        &mut rows,
        &vec![IndexedEntry {
            collection_id: &job.collection_id,
            url: &job.url,
            content_hash: &job.content_hash,
        }],
    );
    let last = plan_page("https://example.com/", &ctx(), &Some(rows[0].clone()), fresh(html), 3);
    assert!(!last.unwrap().result.indexed, "the commit was noted");
}

#[test]
fn content_is_indexed_under_the_address_it_belongs_to() {
    let html = |canonical: &str| {
        format!("<html><head><link rel=\"canonical\" href=\"{canonical}\"></head><body>x</body></html>")
    };
    let plan = |canonical: &str, final_url: &str| {
        let outcome = FetchOutcome::Fresh {
            status: 200,
            body: html(canonical),
            etag: None,
            last_modified: None,
            final_url: final_url.to_string(),
        };
        plan_page("https://example.com/a", &ctx(), &None, outcome, 1).unwrap()
    };
    // The page's own word counts where the server did not redirect.
    let p = plan("https://example.com/c", "https://example.com/a");
    assert_eq!(p.job.unwrap().url, "https://example.com/c");
    assert_eq!(p.result.in_prefix_links, ["https://example.com/c"]);
    // A redirect counts more.
    let p = plan("https://example.com/c", "https://example.com/r");
    assert_eq!(p.job.unwrap().url, "https://example.com/r");
    assert_eq!(p.result.in_prefix_links, ["https://example.com/r", "https://example.com/c"]);
    // Neither leads out of the prefix.
    let p = plan("https://evil.org/c", "https://evil.org/r");
    assert_eq!(p.job.unwrap().url, "https://example.com/a");
    assert!(p.result.in_prefix_links.is_empty());
    assert_eq!(p.row.url, "https://example.com/a");
}

#[test]
fn seconds_are_rounded_as_numbers_are() {
    let mut values: Vec<f32> = vec![
        0.0,
        -0.0,
        0.25,
        0.49999997,
        0.5,
        1.5,
        2.5,
        8388607.5,
        16777216.0,
        1e9,
        1e19,
        1.8446744e19,
        2e19,
        f32::MAX,
        f32::MIN_POSITIVE,
        f32::INFINITY,
        f32::NEG_INFINITY,
        f32::NAN,
        -1.5,
        1e-40,
    ];
    for i in 0..4_000u32 {
        values.push(f32::from_bits(i.wrapping_mul(1_073_741)));
    }
    for v in values {
        assert_eq!(round_seconds(v.to_bits()), v.round() as u64, "{v}");
    }
}

#[test]
fn crawl_delays_with_a_fraction_are_rounded() {
    let checker = checker_with(200, "User-agent: *\nCrawl-delay: 2.5\n");
    assert_eq!(
        checker.crawl_delay_for("https://example.com/page").unwrap(),
        Some(Duration::from_secs(3))
    );
    let checker = checker_with(200, "User-agent: *\nCrawl-delay: 0.4\n");
    assert_eq!(
        checker.crawl_delay_for("https://example.com/page").unwrap(),
        Some(Duration::from_secs(0))
    );
}
