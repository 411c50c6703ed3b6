use community_search::api::auth::{
    authorize, client_ip, constant_time_eq, extract_bearer, refusal, AuthDecision,
};
use community_search::api::auth_attempts::{
    current_state, record_failure, record_success, AttemptState, LOCKOUT_SECONDS,
};
use community_search::api::rate_limit::{
    bucket, check_and_record_key, decode_log, encode_log, rejection, Decision, PeerIpCache,
    RateLimitConfig, RateLimitKey, RateLimitState, PEER_IP_CACHE_TTL_MS,
};
use std::collections::HashMap;

// -- extract_bearer ------------------------------------------------------

#[test]
fn extract_bearer_happy_path() {
    assert_eq!(
        extract_bearer("Bearer mytoken123"),
        Some("mytoken123"),
        "standard Bearer scheme must succeed"
    );
    assert_eq!(
        extract_bearer("bearer mytoken123"),
        Some("mytoken123"),
        "lowercase 'bearer' must succeed (case-insensitive)"
    );
    assert_eq!(
        extract_bearer("BEARER mytoken123"),
        Some("mytoken123"),
        "uppercase 'BEARER' must succeed (case-insensitive)"
    );
}

#[test]
fn extract_bearer_rejects_basic() {
    assert_eq!(
        extract_bearer("Basic dXNlcjpwYXNz"),
        None,
        "Basic scheme must be rejected"
    );
}

#[test]
fn extract_bearer_rejects_empty_value() {
    assert_eq!(
        extract_bearer("Bearer "),
        None,
        "Bearer with only whitespace must be rejected"
    );
    assert_eq!(
        extract_bearer("Bearer"),
        None,
        "Bearer with no value at all must be rejected"
    );
}

#[test]
fn extract_bearer_rejects_no_scheme() {
    assert_eq!(
        extract_bearer("mytoken"),
        None,
        "a bare token with no scheme must be rejected"
    );
}

// -- constant_time_eq ----------------------------------------------------

#[test]
fn constant_time_eq_equal() {
    assert!(
        constant_time_eq(b"supersecret", b"supersecret"),
        "identical slices must be equal"
    );
    assert!(constant_time_eq(b"", b""), "two empty slices must be equal");
}

#[test]
fn constant_time_eq_differ() {
    assert!(
        !constant_time_eq(b"supersecret", b"wrongsecret"),
        "slices with different content must not be equal"
    );
    assert!(
        !constant_time_eq(b"abc", b"xyz"),
        "completely different slices must not be equal"
    );
}

#[test]
fn constant_time_eq_different_length() {
    assert!(
        !constant_time_eq(b"short", b"longer_string"),
        "slices of different lengths must not be equal"
    );
    assert!(
        !constant_time_eq(b"abc", b"ab"),
        "slices where one is a prefix of the other must not be equal"
    );
}

#[test]
fn extract_bearer_trims_and_keeps_inner_spaces() {
    assert_eq!(extract_bearer("Bearer   tok en  "), Some("tok en"));
    assert_eq!(extract_bearer(" Bearer x"), None);
    assert_eq!(extract_bearer("Bearer\tx"), None);
    assert_eq!(extract_bearer(""), None);
}

// -- the client ----------------------------------------------------------------

#[test]
fn clients_count_by_the_first_forwarded_address() {
    let some = |s: &str| Some(s.to_string());
    assert_eq!(client_ip(&some(" 1.2.3.4 , 5.6.7.8"), &some("9.9.9.9")), "1.2.3.4");
    assert_eq!(client_ip(&some("  "), &some("9.9.9.9")), "9.9.9.9");
    assert_eq!(client_ip(&some(",1.1.1.1"), &some("9.9.9.9")), "9.9.9.9");
    assert_eq!(client_ip(&None, &some("9.9.9.9")), "9.9.9.9");
    assert_eq!(client_ip(&None, &None), "unknown");
}

// -- decisions -------------------------------------------------------------------

#[test]
fn the_right_token_opens_and_clears() {
    let stored = Some(AttemptState {
        failed_count: 3,
        lockout_until: 0,
    });
    let header = Some("Bearer s3cret".to_string());
    let (decision, after) = authorize(stored, &header, "s3cret", 1_000);
    assert_eq!(decision, AuthDecision::Granted);
    assert!(after.is_none());
    assert!(refusal(decision).is_none());
}

#[test]
fn wrong_and_missing_tokens_are_counted() {
    for header in [None, Some("Bearer nope".to_string()), Some("Basic s3cret".to_string())] {
        let (decision, after) = authorize(None, &header, "s3cret", 1_000);
        assert_eq!(decision, AuthDecision::Denied);
        assert_eq!(after.unwrap().failed_count, 1);
        let reply = refusal(decision).unwrap();
        assert_eq!(reply.status, 401);
        assert_eq!(reply.body, "unauthorized");
        assert_eq!(
            reply.header,
            Some(("www-authenticate".to_string(), "Bearer realm=\"admin\"".to_string()))
        );
    }
}

#[test]
fn a_lockout_holds_even_for_the_right_token() {
    let stored = Some(AttemptState {
        failed_count: 5,
        lockout_until: 1_900,
    });
    let header = Some("Bearer s3cret".to_string());
    let (decision, after) = authorize(stored, &header, "s3cret", 1_000);
    assert_eq!(decision, AuthDecision::LockedOut { seconds_remaining: 900 });
    assert_eq!(after.unwrap().lockout_until, 1_900);
    let reply = refusal(decision).unwrap();
    assert_eq!(reply.status, 429);
    assert_eq!(reply.header, Some(("retry-after".to_string(), "900".to_string())));
    let (decision, _) = authorize(stored, &header, "s3cret", 1_900);
    assert_eq!(decision, AuthDecision::Granted);
}

// -- attempts --------------------------------------------------------------------

#[test]
fn five_failures_set_lockout() {
    let now: i64 = 1_000_000;
    let mut state = AttemptState {
        failed_count: 0,
        lockout_until: 0,
    };
    let mut stored = None;
    for _ in 0..5 {
        state = record_failure(stored, now);
        stored = Some(state);
    }
    assert_eq!(state.failed_count, 5, "failed_count must be 5 after 5 failures");
    assert!(
        state.lockout_until > now,
        "lockout_until must be in the future after 5 failures, got {}",
        state.lockout_until
    );
    assert_eq!(
        state.lockout_until,
        now + LOCKOUT_SECONDS,
        "lockout_until must equal now + LOCKOUT_SECONDS"
    );
}

#[test]
fn four_failures_no_lockout() {
    let now: i64 = 1_000_000;
    let mut state = AttemptState {
        failed_count: 0,
        lockout_until: 0,
    };
    let mut stored = None;
    for _ in 0..4 {
        state = record_failure(stored, now);
        stored = Some(state);
    }
    assert_eq!(state.failed_count, 4);
    assert_eq!(
        state.lockout_until, 0,
        "lockout_until must still be 0 after only 4 failures"
    );
}

#[test]
fn success_clears_attempts() {
    let now: i64 = 1_000_000;
    let mut stored = None;
    for _ in 0..3 {
        stored = Some(record_failure(stored, now));
    }
    let stored = record_success(stored);
    let state = current_state(stored);
    assert_eq!(state.failed_count, 0, "failed_count must be 0 after record_success");
    assert_eq!(
        state.lockout_until, 0,
        "lockout_until must be 0 after record_success"
    );
}

#[test]
fn unknown_ip_returns_zero_state() {
    let state = current_state(None);
    assert_eq!(state.failed_count, 0);
    assert_eq!(state.lockout_until, 0);
}

// -- rate limits -----------------------------------------------------------------

/// Tiny limit so tests don't need to issue 30 requests each.
fn small_cfg() -> RateLimitConfig {
    RateLimitConfig {
        limit: 3,
        window_seconds: 60,
        cooloff_ladder: vec![60, 300, 3600],
        clean_period_seconds: 3600,
    }
}

#[test]
fn under_limit_allows_request() {
    let mut state = RateLimitState::new();
    let cfg = small_cfg();
    let now: i64 = 1_000_000;
    for i in 0..cfg.limit {
        let d = check_and_record_key(&mut state, now, &cfg);
        assert!(
            matches!(d, Decision::Allow),
            "request {i} (within limit of {}) must return Allow",
            cfg.limit
        );
    }
}

#[test]
fn exceeding_limit_triggers_first_cooloff_60s() {
    let mut state = RateLimitState::new();
    let cfg = small_cfg(); // limit = 3
    let now: i64 = 1_000_000;
    for _ in 0..cfg.limit {
        check_and_record_key(&mut state, now, &cfg);
    }
    let d = check_and_record_key(&mut state, now, &cfg);
    assert!(
        matches!(d, Decision::Cooloff { seconds_remaining: 60 }),
        "first violation must produce a 60 s cooloff"
    );
}

#[test]
fn cooloff_escalates_60_300_3600() {
    let mut state = RateLimitState::new();
    let cfg = small_cfg(); // limit = 3, ladder = [60, 300, 3600], clean = 3600
    let mut now: i64 = 1_000_000;

    // 1st violation → 60 s
    for _ in 0..cfg.limit {
        check_and_record_key(&mut state, now, &cfg);
    }
    let d = check_and_record_key(&mut state, now, &cfg);
    assert!(
        matches!(d, Decision::Cooloff { seconds_remaining: 60 }),
        "1st violation must be 60 s"
    );
    now += 60;

    // 2nd violation → 300 s
    for _ in 0..cfg.limit {
        check_and_record_key(&mut state, now, &cfg);
    }
    let d = check_and_record_key(&mut state, now, &cfg);
    assert!(
        matches!(d, Decision::Cooloff { seconds_remaining: 300 }),
        "2nd violation must be 300 s"
    );
    now += 300;

    // 3rd violation → 3 600 s
    for _ in 0..cfg.limit {
        check_and_record_key(&mut state, now, &cfg);
    }
    let d = check_and_record_key(&mut state, now, &cfg);
    assert!(
        matches!(d, Decision::Cooloff { seconds_remaining: 3600 }),
        "3rd violation must be 3 600 s"
    );
    now += 3600;

    // 4th violation → still 3 600 s (ladder is capped)
    for _ in 0..cfg.limit {
        check_and_record_key(&mut state, now, &cfg);
    }
    let d = check_and_record_key(&mut state, now, &cfg);
    assert!(
        matches!(d, Decision::Cooloff { seconds_remaining: 3600 }),
        "4th violation must stay at 3 600 s (ladder cap)"
    );
}

#[test]
fn clean_period_resets_violations() {
    let mut state = RateLimitState::new();
    let cfg = small_cfg(); // limit = 3, clean_period = 3600
    let mut now: i64 = 1_000_000;
    for _ in 0..cfg.limit {
        check_and_record_key(&mut state, now, &cfg);
    }
    let d = check_and_record_key(&mut state, now, &cfg);
    assert!(
        matches!(d, Decision::Cooloff { .. }),
        "setup: must be in cooloff after saturating"
    );

    // Past the cooloff (60 s) and past the clean period (3 600 s).
    now += 60 + 3601;
    let d = check_and_record_key(&mut state, now, &cfg);
    assert!(
        matches!(d, Decision::Allow),
        "after clean period, first request must return Allow (violations reset)"
    );
    assert_eq!(state.violations, 0);
}

#[test]
fn peer_key_is_tracked_separately_from_ip_key() {
    let cfg = small_cfg(); // limit = 3
    let now: i64 = 1_000_000;
    let addr = "5.5.5.5".to_string();
    let mut table: HashMap<String, RateLimitState> = HashMap::new();
    let mut check = |key: RateLimitKey| {
        let state = table.entry(key.storage_key()).or_insert_with(RateLimitState::new);
        check_and_record_key(state, now, &cfg)
    };

    for _ in 0..3 {
        check(RateLimitKey::Ip(addr.clone()));
    }
    let d = check(RateLimitKey::Ip(addr.clone()));
    assert!(
        matches!(d, Decision::Cooloff { .. }),
        "Ip key should be in cooloff after exceeding limit"
    );
    let d = check(RateLimitKey::Peer(addr.clone()));
    assert!(
        matches!(d, Decision::Allow),
        "Peer key with same address must be tracked independently and return Allow"
    );
}

#[test]
fn per_peer_config_overrides_default() {
    let cfg = RateLimitConfig {
        limit: 5,
        window_seconds: 60,
        cooloff_ladder: vec![60, 300, 3600],
        clean_period_seconds: 3600,
    };
    let now: i64 = 1_000_000;
    let mut state = RateLimitState::new();
    for i in 0..cfg.limit {
        let d = check_and_record_key(&mut state, now, &cfg);
        assert!(
            matches!(d, Decision::Allow),
            "call {} (within limit of {}) must return Allow",
            i + 1,
            cfg.limit
        );
    }
    let d = check_and_record_key(&mut state, now, &cfg);
    assert!(
        matches!(d, Decision::Cooloff { .. }),
        "6th call must return Cooloff when limit is 5"
    );
}

#[test]
fn requests_during_a_cooloff_do_not_prolong_it() {
    let mut state = RateLimitState::new();
    let cfg = small_cfg();
    for _ in 0..4 {
        check_and_record_key(&mut state, 1_000, &cfg);
    }
    for now in [1_001, 1_030, 1_059] {
        let d = check_and_record_key(&mut state, now, &cfg);
        assert_eq!(d, Decision::Cooloff { seconds_remaining: 1_060 - now });
    }
    assert_eq!(state.violations, 1);
    assert_eq!(state.cooloff_until, 1_060);
}

#[test]
fn logs_are_stored_as_json() {
    assert_eq!(encode_log(&vec![1, -2, 3]), "[1,-2,3]");
    assert_eq!(decode_log("[1,-2,3]"), [1, -2, 3]);
    assert_eq!(decode_log("[]"), [0i64; 0]);
    assert_eq!(decode_log("nonsense"), [0i64; 0], "what cannot be read counts as empty");
    assert_eq!(decode_log(&encode_log(&vec![i64::MAX, i64::MIN])), [i64::MAX, i64::MIN]);
}

#[test]
fn keys_are_stored_under_their_kind() {
    assert_eq!(RateLimitKey::Ip("a".to_string()).storage_key(), "ip:a");
    assert_eq!(RateLimitKey::Peer("a".to_string()).storage_key(), "peer:a");
}

#[test]
fn peers_are_known_by_their_hosts() {
    let mut cache = PeerIpCache::new();
    assert!(cache.is_stale(0));
    assert!(!cache.contains("peer.example"));
    cache.refresh(
        &vec![
            "https://Peer.example:8443/x".to_string(),
            "nonsense".to_string(),
            "http://10.0.0.7/".to_string(),
        ],
        1_000,
    );
    assert!(cache.contains("peer.example"));
    assert!(cache.contains("10.0.0.7"));
    assert!(!cache.contains("nonsense"));
    assert!(!cache.is_stale(1_000 + PEER_IP_CACHE_TTL_MS));
    assert!(cache.is_stale(1_001 + PEER_IP_CACHE_TTL_MS));
}

#[test]
fn defaults_allow_thirty_requests_a_minute() {
    let cfg = RateLimitConfig::default();
    assert_eq!(cfg.limit, 30);
    assert_eq!(cfg.window_seconds, 60);
    assert_eq!(cfg.cooloff_ladder, [60, 300, 3600]);
    assert_eq!(cfg.clean_period_seconds, 3600);
    let peers = small_cfg();
    assert_eq!(bucket(true, &peers, &cfg).limit, 3);
    assert_eq!(bucket(false, &peers, &cfg).limit, 30);
}

#[test]
fn rejections_tell_how_long_to_wait() {
    assert!(rejection(Decision::Allow).is_none());
    let reply = rejection(Decision::Cooloff { seconds_remaining: 42 }).unwrap();
    assert_eq!(reply.status, 429);
    assert_eq!(reply.header, Some(("retry-after".to_string(), "42".to_string())));
}

#[test]
fn no_window_lets_more_through_than_the_limit() {
    let cfg = small_cfg();
    let mut state = RateLimitState::new();
    let mut passed: Vec<i64> = Vec::new();
    for i in 0..2_000 {
        let now = 1_000_000 + i * 7;
        if check_and_record_key(&mut state, now, &cfg) == Decision::Allow {
            passed.push(now);
        }
        let recent = passed.iter().filter(|t| **t > now - cfg.window_seconds).count();
        assert!(recent <= cfg.limit as usize, "{recent} requests in the window at {now}");
        assert!(state.request_log.len() <= 2 * cfg.limit as usize);
    }
    assert!(!passed.is_empty());
}

#[test]
fn a_failure_after_a_lockout_locks_out_again() {
    let stored = Some(AttemptState {
        failed_count: 5,
        lockout_until: 1_900,
    });
    let (decision, after) = authorize(stored, &None, "t", 2_000);
    assert_eq!(decision, AuthDecision::Denied);
    assert_eq!(after.unwrap().lockout_until, 2_000 + LOCKOUT_SECONDS);
}
