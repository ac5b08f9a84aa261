use quotaglass::claude_refresh::{
    all_tokens_expired, begin_refresh, choose_credentials, decode_cache, finish_refresh,
    limits_from_cache, load_cache, parse_oauth_blob, read_usage_output, select_token,
    window_expired, CachedLimits, LimitWindow, OauthToken, UsageResponse, RATE_LIMIT_BACKOFF_MS,
};
use quotaglass::json::JsonNumber;
use quotaglass::providers::{ProviderId, ProviderLimit, StaleKind};

fn now_ms() -> u64 {
    std::time::SystemTime::now()
        .duration_since(std::time::UNIX_EPOCH)
        .map(|d| d.as_millis() as u64)
        .unwrap_or(0)
}

/// The stale reason shown when the CLI has no stored OAuth token.
fn missing_reason() -> String {
    format!("No {:?} Code OAuth credentials found", ProviderId::Claude)
}

fn cached_window(id: &str, resets_at: &str) -> ProviderLimit {
    ProviderLimit {
        id: id.to_string(),
        title: id.to_string(),
        utilization: Some(JsonNumber::Float("18.0".to_string())),
        resets_at: Some(resets_at.to_string()),
        window_minutes: Some(10_080),
    }
}

#[test]
fn expired_cached_windows_are_dropped_instead_of_rendered() {
    let cache = CachedLimits {
        windows: vec![
            cached_window("five-hour", "2026-08-11T16:19:59.718872+00:00"),
            cached_window("seven-day", "2099-01-01T00:00:00+00:00"),
        ],
        saved_at: Some(1_786_450_354_868),
        ..CachedLimits::default()
    };
    let limits = limits_from_cache(
        &cache,
        &missing_reason(),
        StaleKind::NotSignedIn,
        now_ms(),
    )
    .unwrap();
    assert!(limits.stale);
    assert_eq!(limits.cached_at, Some(1_786_450_354_868));
    assert_eq!(
        limits.stale_reason.as_deref(),
        Some(missing_reason().as_str())
    );
    assert_eq!(limits.windows.len(), 1);
    assert_eq!(limits.windows[0].id, "seven-day");
}

#[test]
fn an_entirely_expired_cache_surfaces_the_error() {
    let cache = CachedLimits {
        windows: vec![cached_window("five-hour", "2026-08-11T16:19:59+00:00")],
        ..CachedLimits::default()
    };
    assert_eq!(
        limits_from_cache(&cache, "boom", StaleKind::Unknown, now_ms()).unwrap_err(),
        "boom".to_string()
    );
}

#[test]
fn a_cache_written_before_scoped_windows_still_renders() {
    // Upgrading must not blank the card on a first offline start.
    let legacy = r#"{"fiveHour":{"utilization":0.0,"resetsAt":"2099-01-01T00:00:00+00:00"},
            "sevenDay":{"utilization":18.0,"resetsAt":"2099-01-01T00:00:00+00:00"},
            "sevenDaySonnet":{"utilization":1.0,"resetsAt":"2026-07-06T14:59:59+00:00"},
            "savedAt":1786450354868}"#;
    let cache: CachedLimits = decode_cache(legacy).expect("legacy cache should parse");
    let limits = limits_from_cache(&cache, "offline", StaleKind::Unreachable, now_ms()).unwrap();
    let ids: Vec<_> = limits.windows.iter().map(|w| w.id.as_str()).collect();
    // The retired Sonnet window is not carried forward.
    assert_eq!(ids, ["five-hour", "seven-day"]);
}

#[test]
fn oauth_blobs_from_either_storage_parse_identically() {
    let blob = r#"{"claudeAiOauth":{"accessToken":"sk-test","refreshToken":"rt","expiresAt":1786551599000,"scopes":["user:inference"]}}"#;
    let token = parse_oauth_blob(blob).expect("blob should parse");
    assert_eq!(token.access_token, "sk-test");
    assert_eq!(token.expires_at, Some(1_786_551_599_000));
    assert!(parse_oauth_blob("{}").is_none());
}

#[test]
fn oauth_blobs_tolerate_surrounding_whitespace_and_missing_expiry() {
    let token = parse_oauth_blob("\n  {\"claudeAiOauth\":{\"accessToken\":\"sk-x\"}}\n").expect("blob");
    assert_eq!(token.access_token, "sk-x");
    assert_eq!(token.expires_at, None);
    assert!(parse_oauth_blob(r#"{"claudeAiOauth":{"accessToken":7}}"#).is_none());
    assert!(parse_oauth_blob("not json").is_none());
}

fn token(name: &str, expires_at: Option<u64>) -> OauthToken {
    OauthToken { access_token: name.to_string(), expires_at }
}

#[test]
fn the_token_valid_for_longest_is_sent() {
    let now = 1_000;
    let candidates = vec![token("file", Some(2_000)), token("keychain", Some(5_000))];
    assert_eq!(select_token(&candidates, now).as_deref(), Some("keychain"));
    // A token without an expiry counts as valid for longest.
    let candidates = vec![token("file", Some(9_000)), token("keychain", None)];
    assert_eq!(select_token(&candidates, now).as_deref(), Some("keychain"));
    // An expired token is passed over while a valid one exists.
    let candidates = vec![token("file", Some(500)), token("keychain", Some(1_500))];
    assert_eq!(select_token(&candidates, now).as_deref(), Some("keychain"));
    // Ties go to the first store.
    let candidates = vec![token("file", Some(3_000)), token("keychain", Some(3_000))];
    assert_eq!(select_token(&candidates, now).as_deref(), Some("file"));
    assert!(!all_tokens_expired(&candidates, now));
}

#[test]
fn when_every_token_expired_the_newest_is_sent_anyway() {
    let candidates = vec![token("file", Some(300)), token("keychain", Some(900))];
    assert_eq!(select_token(&candidates, 1_000).as_deref(), Some("keychain"));
    assert!(all_tokens_expired(&candidates, 1_000));
    assert_eq!(select_token(&Vec::new(), 1_000), None);
    assert!(!all_tokens_expired(&Vec::new(), 1_000));
}

#[test]
fn curl_output_splits_into_body_and_status() {
    let reply = read_usage_output(b"{\"a\":1}\n200".to_vec()).unwrap();
    assert_eq!(reply.status, 200);
    assert_eq!(reply.body, "{\"a\":1}");
    let reply = read_usage_output(b"line one\nline two\n 429 \n".to_vec()).unwrap();
    // The status is what follows the last line feed: here nothing, so it reads as 0.
    assert_eq!(reply.status, 0);
    assert_eq!(reply.body, "line one\nline two\n 429 ");
    assert_eq!(
        read_usage_output(b"no newline".to_vec()).err().as_deref(),
        Some("Usage endpoint returned no response")
    );
    let bad = read_usage_output(vec![0xff, 0xfe, b'\n', b'2']).unwrap_err();
    assert!(bad.starts_with("UTF-8 error: "));
    assert!(bad.len() > "UTF-8 error: ".len());
}

#[test]
fn cache_files_read_in_both_shapes() {
    let current = r#"{"windows":[{"id":"five-hour","title":"Current session","utilization":12,"resetsAt":"2099-01-01T00:00:00Z","windowMinutes":300}],"savedAt":5,"retryAfter":null}"#;
    let cache = decode_cache(current).expect("current cache");
    assert_eq!(cache.windows.len(), 1);
    assert_eq!(cache.windows[0].window_minutes, Some(300));
    assert_eq!(cache.saved_at, Some(5));
    assert_eq!(cache.retry_after, None);
    assert!(decode_cache(r#"{"windows":[{"title":"no id"}]}"#).is_none());
    assert!(decode_cache(r#"{"savedAt":-1}"#).is_none());
    assert!(decode_cache("[1,2]").is_none());
    let empty = decode_cache("{}").expect("empty object");
    assert!(empty.windows.is_empty() && empty.saved_at.is_none());
    // The current file wins; the earlier one is read only when it is missing or unreadable.
    let loaded = load_cache(&Some("oops".to_string()), &Some(current.to_string()));
    assert_eq!(loaded.saved_at, Some(5));
    let loaded = load_cache(&None, &None);
    assert!(loaded.windows.is_empty() && loaded.saved_at.is_none() && loaded.retry_after.is_none());
}

#[test]
fn window_expiry_reads_the_reset_time() {
    let w = cached_window("w", "1970-01-01T00:00:01Z");
    assert!(window_expired(&w, 1_000));
    assert!(window_expired(&w, 5_000));
    assert!(!window_expired(&w, 999));
    let unreadable = cached_window("w", "soon");
    assert!(!window_expired(&unreadable, u64::MAX));
}

fn live_cache() -> CachedLimits {
    CachedLimits {
        windows: vec![cached_window("seven-day", "2099-01-01T00:00:00+00:00")],
        saved_at: Some(7),
        retry_after: None,
        five_hour: Some(LimitWindow { utilization: None, resets_at: None }),
        seven_day: None,
    }
}

#[test]
fn a_429_backs_off_for_ten_minutes() {
    let now = 1_800_000_000_000;
    let outcome = finish_refresh(
        &live_cache(),
        Ok(UsageResponse { status: 429, body: String::new() }),
        false,
        now,
    );
    let saved = outcome.save.expect("the back-off is saved");
    assert_eq!(saved.retry_after, Some(now + RATE_LIMIT_BACKOFF_MS));
    assert_eq!(saved.windows.len(), 1);
    let answer = outcome.answer.unwrap();
    assert_eq!(answer.stale_kind, Some(StaleKind::RateLimited));
    assert_eq!(answer.stale_reason.as_deref(), Some("Usage endpoint rate limited"));
    // During the back-off no request goes out; the cache is served instead.
    let during = begin_refresh(&saved, now + RATE_LIMIT_BACKOFF_MS - 1).expect("backing off");
    assert_eq!(during.unwrap().stale_kind, Some(StaleKind::RateLimited));
    assert!(begin_refresh(&saved, now + RATE_LIMIT_BACKOFF_MS).is_none());
}

#[test]
fn a_successful_response_replaces_the_cache() {
    let now = 1_800_000_000_000;
    let body = r#"{"limits":[{"kind":"session","percent":3,"resets_at":null,"scope":null}]}"#;
    let outcome = finish_refresh(
        &live_cache(),
        Ok(UsageResponse { status: 200, body: body.to_string() }),
        true,
        now,
    );
    let answer = outcome.answer.unwrap();
    assert!(!answer.stale);
    assert_eq!(answer.stale_kind, None);
    assert_eq!(answer.windows.len(), 1);
    assert_eq!(answer.windows[0].id, "five-hour");
    let saved = outcome.save.unwrap();
    assert_eq!(saved.saved_at, Some(now));
    assert_eq!(saved.retry_after, None);
    assert!(saved.five_hour.is_none());
    assert_eq!(saved.windows[0].id, "five-hour");
}

#[test]
fn failures_are_classified_where_they_happen() {
    let now = 1_800_000_000_000;
    let cache = live_cache();
    let unreachable = finish_refresh(&cache, Err("curl error: boom".to_string()), false, now);
    assert!(unreachable.save.is_none());
    let answer = unreachable.answer.unwrap();
    assert_eq!(answer.stale_kind, Some(StaleKind::Unreachable));
    assert_eq!(answer.stale_reason.as_deref(), Some("curl error: boom"));

    let expired = finish_refresh(
        &cache,
        Ok(UsageResponse {
            status: 401,
            body: r#"{"type":"error","error":{"message":"OAuth token has expired"}}"#.to_string(),
        }),
        true,
        now,
    );
    let answer = expired.answer.unwrap();
    assert_eq!(answer.stale_kind, Some(StaleKind::TokenExpired));
    assert_eq!(answer.stale_reason.as_deref(), Some("OAuth token has expired"));

    let http = finish_refresh(
        &cache,
        Ok(UsageResponse { status: 503, body: "{}".to_string() }),
        false,
        now,
    );
    let answer = http.answer.unwrap();
    assert_eq!(answer.stale_kind, Some(StaleKind::Unknown));
    assert_eq!(answer.stale_reason.as_deref(), Some("Usage endpoint HTTP 503"));

    let garbled = finish_refresh(
        &cache,
        Ok(UsageResponse { status: 200, body: "<html>".to_string() }),
        false,
        now,
    );
    let reason = garbled.answer.unwrap().stale_reason.unwrap();
    assert!(reason.starts_with("JSON error: "));
    assert!(reason.len() > "JSON error: ".len());
}

#[test]
fn without_credentials_the_cache_is_served_as_signed_out() {
    let cache = live_cache();
    let answer = choose_credentials(&cache, &Vec::new(), &missing_reason(), 5).unwrap_err().unwrap();
    assert_eq!(answer.stale_kind, Some(StaleKind::NotSignedIn));
    assert_eq!(
        answer.stale_reason.as_deref(),
        Some(missing_reason().as_str())
    );
    let credentials = choose_credentials(&cache, &vec![token("a", Some(1))], &missing_reason(), 5).ok().unwrap();
    assert_eq!(credentials.token, "a");
    assert!(credentials.all_expired);
}
