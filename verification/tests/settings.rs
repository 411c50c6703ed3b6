use community_search::auth::token::{choose_token, ensure_admin_token, generate_token, token_of};
use community_search::config::{Config, ConfigError, Environment};
use community_search::db::settings;
use community_search::hash::content_hash;
use community_search::time::Duration;

fn empty() -> Environment {
    Environment {
        bind_addr: None,
        port: None,
        data_dir: None,
        admin_token: None,
        index_path: None,
        home: None,
        max_index_bytes: None,
        crawler_user_agent: None,
        crawler_contact_url: None,
        crawler_request_timeout_ms: None,
        crawler_politeness_delay_ms: None,
        crawler_max_concurrent_domains: None,
        peer_rate_limit_per_minute: None,
        self_url: None,
        self_name: None,
        self_description: None,
        gossip_sync_interval_secs: None,
    }
}

fn some(s: &str) -> Option<String> {
    Some(s.to_string())
}

// ── configuration ────────────────────────────────────────────────────────────

#[test]
fn an_empty_environment_gives_the_defaults() {
    let c = Config::from_env_only(&empty(), "0.1.0").unwrap();
    assert_eq!(c.bind_addr, "127.0.0.1");
    assert_eq!(c.port, 8080);
    assert_eq!(c.data_dir, "./data");
    assert_eq!(c.admin_token, None);
    assert_eq!(c.index_path, "./.community-search/index");
    assert_eq!(c.max_index_bytes, 10_737_418_240);
    assert_eq!(c.crawler_user_agent, "community-search/0.1.0 (bot)");
    assert_eq!(c.crawler_request_timeout_ms, 30_000);
    assert_eq!(c.crawler_politeness_delay_ms, 250);
    assert_eq!(c.crawler_max_concurrent_domains, 4);
    assert_eq!(c.peer_rate_limit_per_minute, 120);
    assert_eq!(c.self_url, "");
    assert_eq!(c.gossip_sync_interval_secs, 86_400);
}

#[test]
fn variables_replace_the_defaults() {
    let env = Environment {
        port: some("9090"),
        home: some("/home/x/"),
        admin_token: some("t"),
        crawler_politeness_delay_ms: some("1000"),
        max_index_bytes: some("not a number"),
        self_url: some("https://me"),
        ..empty()
    };
    let c = Config::from_env_only(&env, "1").unwrap();
    assert_eq!(c.port, 9090);
    assert_eq!(c.index_path, "/home/x/.community-search/index");
    assert_eq!(c.admin_token.as_deref(), Some("t"));
    assert_eq!(c.crawler_politeness_delay_ms, 1000);
    assert_eq!(c.max_index_bytes, 10_737_418_240);
    assert_eq!(c.crawler_user_agent, "community-search/1 (+https://me; bot)");
}

#[test]
fn user_agents_are_told_or_built() {
    let agent = |env: Environment| Config::from_env_only(&env, "1").unwrap().crawler_user_agent;
    assert_eq!(
        agent(Environment {
            crawler_user_agent: some("X/1"),
            crawler_contact_url: some("https://c"),
            ..empty()
        }),
        "X/1"
    );
    assert_eq!(
        agent(Environment {
            crawler_contact_url: some("https://c"),
            self_url: some("https://me"),
            ..empty()
        }),
        "community-search/1 (+https://c; bot)"
    );
    assert_eq!(
        agent(Environment {
            crawler_contact_url: some(""),
            ..empty()
        }),
        "community-search/1 (bot)"
    );
}

#[test]
fn ports_must_be_numbers_in_range() {
    for port in ["x", "", "65536", "-1"] {
        let env = Environment {
            port: some(port),
            ..empty()
        };
        let err = Config::from_env_only(&env, "1").unwrap_err();
        assert_eq!(err, ConfigError::InvalidPort);
        assert_eq!(err.message(), "COMMUNITY_SEARCH_PORT must be a valid u16");
    }
}

#[test]
fn empty_tokens_are_none() {
    let env = Environment {
        admin_token: some(""),
        ..empty()
    };
    assert_eq!(Config::from_env_only(&env, "1").unwrap().admin_token, None);
}

// ── tokens ───────────────────────────────────────────────────────────────────

#[test]
fn first_run_generates_and_persists_token_when_env_unset() {
    let first = ensure_admin_token(&None, &None);
    let token1 = first.token.clone();
    assert!(
        token1.len() >= 32,
        "token should be at least 32 chars, got: {}",
        token1.len()
    );
    assert!(
        token1.chars().all(|c| c.is_ascii_alphanumeric()),
        "token should be alphanumeric, got: {token1}"
    );
    assert!(first.store && first.announce);

    let second = ensure_admin_token(&None, &Some(first.token));
    assert_eq!(
        token1, second.token,
        "second call must return the same persisted token"
    );
    assert!(!second.store && !second.announce);
}

#[test]
fn env_override_replaces_any_stored_token() {
    let initial = ensure_admin_token(&None, &None);
    let override_val = "override-token-for-test";
    let result = ensure_admin_token(&some(override_val), &Some(initial.token));
    assert_eq!(
        result.token, override_val,
        "should return the supplied override token"
    );
    assert!(result.store);

    let result2 = ensure_admin_token(&None, &Some(result.token));
    assert_eq!(
        result2.token, override_val,
        "should return the persisted override on next call with None"
    );
}

#[test]
fn generated_tokens_are_unique() {
    let token1 = ensure_admin_token(&None, &None).token;
    let token2 = ensure_admin_token(&None, &None).token;
    assert_ne!(
        token1, token2,
        "independent DBs must produce different tokens"
    );
    assert_eq!(generate_token().len(), 48);
}

#[test]
fn stored_empty_tokens_are_replaced() {
    let choice = ensure_admin_token(&None, &some(""));
    assert_eq!(choice.token.len(), 48);
    assert!(choice.store && choice.announce);
}

#[test]
fn readable_tokens_hold_no_look_alikes() {
    let (token, new) = settings::ensure_admin_token(&None, &None);
    assert!(new);
    assert_eq!(token.len(), 48);
    assert!(token.chars().all(|c| "ABCDEFGHJKMNPQRSTVWXYZ23456789".contains(c)));
    assert_eq!(
        settings::ensure_admin_token(&None, &Some(token.clone())),
        (token.clone(), false)
    );
    assert_eq!(
        settings::ensure_admin_token(&some("given"), &Some(token)),
        ("given".to_string(), false)
    );
    assert_ne!(settings::generate_token(), settings::generate_token());
}

#[test]
fn only_tokens_that_are_not_stored_yet_are_stored() {
    let made = settings::choose_admin_token(&None, &None);
    assert!(made.store && made.announce);
    let kept = settings::choose_admin_token(&None, &Some(made.token.clone()));
    assert_eq!(kept.token, made.token);
    assert!(!kept.store && !kept.announce);
    let given = settings::choose_admin_token(&some("given"), &Some(made.token));
    assert_eq!(given.token, "given");
    assert!(given.store && !given.announce);
}

#[test]
fn tokens_are_made_of_what_was_drawn() {
    assert_eq!(settings::token_of(&vec![0, 29, 8, 20, 21]), "A9JYZ");
    assert_eq!(settings::token_of(&Vec::new()), "");
    assert_eq!(token_of(&vec!['b', '7', 'Q']), "b7Q");
}

#[test]
fn fresh_tokens_count_where_no_other_does() {
    let fresh = || "fresh".to_string();
    let chosen = settings::choose_token(&None, &None, fresh());
    assert_eq!((chosen.token.as_str(), chosen.store, chosen.announce), ("fresh", true, true));
    let chosen = settings::choose_token(&None, &some("old"), fresh());
    assert_eq!((chosen.token.as_str(), chosen.store, chosen.announce), ("old", false, false));
    let chosen = choose_token(&None, &some(""), fresh());
    assert_eq!((chosen.token.as_str(), chosen.store, chosen.announce), ("fresh", true, true));
    let chosen = choose_token(&some("given"), &some("old"), fresh());
    assert_eq!((chosen.token.as_str(), chosen.store, chosen.announce), ("given", true, false));
}

// ── fingerprints and times ───────────────────────────────────────────────────

#[test]
fn fingerprints_tell_title_from_text() {
    assert_eq!(
        content_hash("", ""),
        "6e340b9cffb37a989ca544e6bb780a2c78901d3fb33738768511a30617afa01d"
    );
    assert_ne!(content_hash("ab", "c"), content_hash("a", "bc"));
    assert_eq!(content_hash("a", "b").len(), 64);
}

#[test]
fn durations_are_split_into_seconds_and_the_rest() {
    let d = Duration::from_millis(2_250);
    assert_eq!(d.as_secs(), 2);
    assert_eq!(d.subsec_nanos(), 250_000_000);
    assert_eq!(d.max(Duration::from_secs(3)), Duration::from_secs(3));
    assert_eq!(d.min(Duration::from_secs(3)), d);
    assert_eq!(Duration::from_millis(3_000), Duration::from_secs(3));
}
