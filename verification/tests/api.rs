use community_search::api::mcp::{dispatch, read_tool_call, McpAction, MCP_PROTOCOL_VERSION};
use community_search::api::public::{
    cap_depth, collections_response, fanout_collection, local_events, outgoing_depth, peer_events,
    tag_results, validate_search, PeerAnswer, SearchRequest, SearchStream, MAX_FANOUT_DEPTH,
    SEARCH_LIMIT,
};
use community_search::api::sse::{SearchResult, SseEvent};
use community_search::api::ui::{html_escape, opensearch, robots_txt, StaticAsset, StaticAssets};

fn some(s: &str) -> Option<String> {
    Some(s.to_string())
}

// ── search ───────────────────────────────────────────────────────────────────

fn request(query: &str, collection: Option<&str>) -> SearchRequest {
    SearchRequest {
        query: query.to_string(),
        collection: collection.map(|s| s.to_string()),
        remaining_depth: 0,
    }
}

fn result(title: &str) -> SearchResult {
    SearchResult {
        title: title.to_string(),
        url: "http://example.com".to_string(),
        snippet_html: "<p>snippet</p>".to_string(),
        source: "test".to_string(),
        timestamp: 0,
        score_bits: 1.0f32.to_bits(),
    }
}

#[test]
fn lists_collections_with_version() {
    let r = collections_response(
        &vec![
            ("cooking".to_string(), "Recipes".to_string()),
            ("tech".to_string(), "Tech blogs".to_string()),
        ],
        &vec![Some(3), None],
    );
    assert_eq!(r.protocol_version, "1.0");
    assert_eq!(r.collections.len(), 2);
    assert_eq!(r.collections[0].name, "cooking");
    assert_eq!(r.collections[0].documents, 3);
    assert_eq!(r.collections[1].description, "Tech blogs");
    assert_eq!(r.collections[1].documents, 0);
}

#[test]
fn search_handler_rejects_empty_query() {
    let reply = validate_search(&request("", None)).unwrap_err();
    assert_eq!(reply.status, 400);
    assert_eq!(reply.body, "query is required");
}

#[test]
fn search_handler_rejects_whitespace_only_query() {
    assert_eq!(validate_search(&request("  \t\u{3000}", None)).unwrap_err().status, 400);
    assert!(validate_search(&request(" x ", None)).is_ok());
}

#[test]
fn search_handler_streams_done_for_valid_query() {
    let mut stream = SearchStream::start(&request("rust", None)).unwrap();
    let mut names = Vec::new();
    for e in stream.local_found(Some(vec![result("a"), result("b")])) {
        names.push(e.name());
    }
    assert_eq!(stream.peer_depth(), None, "without depth no peer is asked");
    names.push(stream.no_more_peers().name());
    assert_eq!(names, ["result", "result", "source_complete", "done"]);
}

#[test]
fn search_route_rejects_empty_query() {
    let refused = SearchStream::start(&request("", None)).err().unwrap();
    assert_eq!(refused.status, 400, "empty query must return 400");
}

#[test]
fn streams_tell_of_one_source_after_the_other() {
    let mut asked = request("rust", None);
    asked.remaining_depth = 2;
    let mut stream = SearchStream::start(&asked).unwrap();
    assert_eq!(stream.peer_depth(), Some(1));
    let mut sent = stream.local_found(Some(vec![result("here"); 30]));
    assert_eq!(sent.len(), SEARCH_LIMIT + 1, "no more results than a search gives");
    for (label, results) in [
        ("peer:a/x", Some(vec![result("a")])),
        ("peer:b/x", None),
        ("peer:c/x", Some(vec![])),
    ] {
        let answer = PeerAnswer { source_label: label.to_string(), results };
        sent.extend(stream.peer_answered(answer));
    }
    sent.push(stream.no_more_peers());
    let told: Vec<String> = sent[SEARCH_LIMIT..]
        .iter()
        .map(|e| match e {
            SseEvent::Result(r) => r.title.clone(),
            SseEvent::SourceComplete { source } => format!("end of {source}"),
            SseEvent::Done => "done".to_string(),
        })
        .collect();
    assert_eq!(told, ["end of local", "a", "end of peer:a/x", "end of peer:c/x", "done"]);
}

#[test]
fn result_event_name_and_payload() {
    let event = SseEvent::Result(result("t"));
    assert_eq!(event.name(), "result");
    assert!(matches!(event, SseEvent::Result(r) if r.title == "t"));
}

#[test]
fn source_complete_event() {
    let event = SseEvent::SourceComplete { source: "local".to_string() };
    assert_eq!(event.name(), "source_complete");
    assert!(matches!(event, SseEvent::SourceComplete { source } if source == "local"));
}

#[test]
fn done_event() {
    let event = SseEvent::Done;
    assert_eq!(event.name(), "done");
    assert!(matches!(event, SseEvent::Done));
}

#[test]
fn events_keep_the_order_of_results() {
    let events = local_events(Some(vec![result("a"), result("b")]));
    assert_eq!(events.len(), 3);
    match &events[1] {
        SseEvent::Result(r) => assert_eq!(r.title, "b"),
        _ => panic!("the second event carries the second result"),
    }
    match &events[2] {
        SseEvent::SourceComplete { source } => assert_eq!(source, "local"),
        _ => panic!("the last event ends the source"),
    }
    assert_eq!(local_events(None).len(), 1, "a failed search ends the source too");
}

#[test]
fn peers_that_fail_are_left_out() {
    let gone = PeerAnswer {
        source_label: "peer:x/y".to_string(),
        results: None,
    };
    assert!(peer_events(gone).is_empty());
    let there = PeerAnswer {
        source_label: "peer:x/y".to_string(),
        results: Some(vec![result("a")]),
    };
    let events = peer_events(there);
    assert_eq!(events.len(), 2);
    match &events[1] {
        SseEvent::SourceComplete { source } => assert_eq!(source, "peer:x/y"),
        _ => panic!("the last event ends the source"),
    }
}

#[test]
fn search_overwrites_source_field_when_caller_provides_label() {
    let mut results = vec![result("a"), result("b")];
    tag_results(&mut results, "peer:https://x/rust");
    assert!(results.iter().all(|r| r.source == "peer:https://x/rust"));
    assert_eq!(results[1].title, "b");
}

#[test]
fn searches_are_forwarded_with_one_step_less() {
    assert_eq!(outgoing_depth(0), None);
    assert_eq!(outgoing_depth(1), Some(0));
    assert_eq!(outgoing_depth(2), Some(1));
    assert_eq!(outgoing_depth(1_000), Some(255));
    assert_eq!(fanout_collection(&request("q", Some("rust"))), "rust");
    assert_eq!(fanout_collection(&request("q", None)), "");
}

// ── the agent's tool ─────────────────────────────────────────────────────────

#[test]
fn initialize_advertises_tools_capability() {
    assert!(matches!(dispatch(false, "initialize"), McpAction::Initialize));
    assert_eq!(MCP_PROTOCOL_VERSION, "2025-06-18");
}

#[test]
fn tools_list_exposes_search() {
    assert!(matches!(dispatch(false, "tools/list"), McpAction::ListTools));
    assert!(matches!(dispatch(false, "tools/call"), McpAction::CallTool));
    assert!(matches!(dispatch(false, "ping"), McpAction::Ping));
}

#[test]
fn tools_call_missing_query_is_invalid_params() {
    for query in [None, some("   ")] {
        let err = read_tool_call(&some("search"), &query, &None, None).unwrap_err();
        assert_eq!(err.code, -32602);
        assert_eq!(err.message, "missing required argument: `query`");
    }
}

#[test]
fn unknown_tools_are_invalid_params() {
    let err = read_tool_call(&some("delete"), &some("x"), &None, None).unwrap_err();
    assert_eq!(err.code, -32602);
    assert_eq!(err.message, "unknown tool: delete");
    let err = read_tool_call(&None, &some("x"), &None, None).unwrap_err();
    assert_eq!(err.message, "unknown tool: <none>");
}

#[test]
fn tool_calls_are_read_leniently() {
    let call = read_tool_call(&some("search"), &some(" rust "), &some(""), Some(9)).unwrap();
    assert_eq!(call.query, "rust");
    assert_eq!(call.collection, None);
    assert_eq!(call.depth, MAX_FANOUT_DEPTH);
    assert_eq!(cap_depth(None), 0);
    assert_eq!(cap_depth(Some(1)), 1);
    assert_eq!(cap_depth(Some(9)), 2);
    let call = read_tool_call(&some("search"), &some("rust"), &some("tech"), None).unwrap();
    assert_eq!(call.collection.as_deref(), Some("tech"));
    assert_eq!(call.depth, 0);
}

#[test]
fn unknown_method_is_method_not_found() {
    match dispatch(false, "bogus/method") {
        McpAction::Fail { code, message } => {
            assert_eq!(code, -32601);
            assert_eq!(message, "method not found: bogus/method");
        }
        _ => panic!("an unknown method fails"),
    }
    assert!(matches!(dispatch(false, ""), McpAction::Fail { code: -32600, .. }));
    assert!(matches!(dispatch(true, "ping"), McpAction::Fail { code: -32600, .. }));
}

#[test]
fn notification_gets_no_body() {
    assert!(matches!(dispatch(false, "notifications/initialized"), McpAction::Accept));
}

// ── pages ────────────────────────────────────────────────────────────────────

fn assets() -> StaticAssets {
    StaticAssets {
        files: vec![
            StaticAsset {
                name: "index.html".to_string(),
                data: b"<html></html>".to_vec(),
            },
            StaticAsset {
                name: "app.js".to_string(),
                data: b"1".to_vec(),
            },
        ],
    }
}

#[test]
fn index_html_served() {
    let page = assets().serve_asset("index.html").unwrap();
    assert_eq!(page.data, b"<html></html>");
    assert_eq!(page.content_type, "text/html");
    assert_ne!(assets().serve_asset("app.js").unwrap().content_type, "text/html");
}

#[test]
fn missing_returns_404() {
    let reply = assets().serve_asset("does-not-exist.js").unwrap_err();
    assert_eq!(reply.status, 404);
    assert_eq!(reply.body, "not found");
}

#[test]
fn robots_disallows_query_and_api_paths() {
    let reply = robots_txt();
    assert_eq!(reply.status, 200);
    assert!(reply.body.contains("Disallow: /*?"), "must block query URLs");
    assert!(reply.body.contains("Disallow: /api/"), "must block the API");
}

#[test]
fn opensearch_embeds_self_url_and_content_type() {
    let reply = opensearch("https://search.example/");
    assert_eq!(
        reply.header,
        Some((
            "content-type".to_string(),
            "application/opensearchdescription+xml".to_string()
        ))
    );
    let body = reply.body;
    // Trailing slash trimmed; both HTML and JSON templates present.
    assert!(
        body.contains(r#"template="https://search.example/?q={searchTerms}""#),
        "html template missing/incorrect: {body}"
    );
    assert!(
        body.contains(r#"template="https://search.example/api/search?q={searchTerms}""#),
        "json template missing/incorrect: {body}"
    );
}

#[test]
fn markup_is_escaped() {
    assert_eq!(html_escape("a<b>&\"c'"), "a&lt;b&gt;&amp;&quot;c&#39;");
    assert!(opensearch("https://x/\"><y>").body.contains("https://x/&quot;&gt;&lt;y&gt;/?q="));
}
