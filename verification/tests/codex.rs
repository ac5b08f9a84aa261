use quotaglass::codex_limits::{decode_rpc_cache, get_limits, parse_limits, request_with_cache, window_title};
use quotaglass::codex_stats::{
    combine_sessions, daily_buckets, get_stats, lifetime_tokens,
    summarize_session, summary_is_current, LocalStats,
};
use quotaglass::codex_limits::Fetched;
use quotaglass::json::{read_json, Json};
use quotaglass::tally::DayCounts;

fn json(text: &str) -> Json {
    read_json(text).expect("test JSON should parse")
}

#[test]
fn parses_dynamic_rate_limit_windows() {
    let value = json(
        r#"{"rateLimits": {
            "primary": {"usedPercent": 24, "windowDurationMins": 300, "resetsAt": 1753356000},
            "secondary": {"usedPercent": 51, "windowDurationMins": 10080, "resetsAt": 1753356000},
            "planType": "plus",
            "credits": {"balance": "3.50", "hasCredits": true, "unlimited": false}
        }}"#,
    );
    let parsed = parse_limits(&value, false, None).unwrap();
    assert_eq!(parsed.windows[0].title, "5-hour usage");
    assert_eq!(parsed.windows[1].title, "Weekly usage");
    assert_eq!(parsed.plan.as_deref(), Some("plus"));
    assert_eq!(parsed.credit_balance.as_deref(), Some("3.50"));
}

#[test]
fn labels_single_primary_window_by_duration() {
    let value = json(
        r#"{"rateLimits": {
            "primary": {"usedPercent": 22, "windowDurationMins": 10080, "resetsAt": 1785385956},
            "secondary": null,
            "planType": "prolite"
        }}"#,
    );
    let parsed = parse_limits(&value, false, None).unwrap();
    assert_eq!(parsed.windows.len(), 1);
    assert_eq!(parsed.windows[0].title, "Weekly usage");
}

#[test]
fn window_titles_follow_the_window_length() {
    assert_eq!(window_title("primary", Some(300)), "5-hour usage");
    assert_eq!(window_title("primary", Some(10_080)), "Weekly usage");
    assert_eq!(window_title("secondary", Some(2_880)), "2-day usage");
    assert_eq!(window_title("secondary", Some(120)), "2-hour usage");
    assert_eq!(window_title("primary", Some(45)), "Primary usage");
    assert_eq!(window_title("secondary", None), "Secondary usage");
    assert_eq!(window_title("other", Some(-60)), "Usage");
}

#[test]
fn the_codex_snapshot_wins_over_the_fallback() {
    let value = json(
        r#"{"rateLimits": {"primary": {"usedPercent": 1}},
            "rateLimitsByLimitId": {"codex": {"primary": {"usedPercent": 2, "resetsAt": 0}, "planType": "pro"}}}"#,
    );
    let parsed = parse_limits(&value, true, Some(9)).unwrap();
    assert_eq!(parsed.windows.len(), 1);
    assert_eq!(parsed.windows[0].id, "primary");
    assert_eq!(parsed.windows[0].resets_at.as_deref(), Some("1970-01-01T00:00:00Z"));
    assert_eq!(parsed.plan.as_deref(), Some("pro"));
    assert!(parsed.stale);
    assert_eq!(parsed.cached_at, Some(9));
}

#[test]
fn missing_snapshots_and_windows_are_errors() {
    assert_eq!(
        parse_limits(&json("{}"), false, None).unwrap_err(),
        "Codex returned no rate-limit data"
    );
    assert_eq!(
        parse_limits(&json(r#"{"rateLimits": {"primary": null}}"#), false, None).unwrap_err(),
        "Codex returned no active rate-limit windows"
    );
}

#[test]
fn a_failed_request_falls_back_to_the_cached_answer() {
    let cached = Some(r#"{"savedAt": 42, "value": {"rateLimits": {"primary": {"windowDurationMins": 60}}}}"#.to_string());
    let (save, answer) = get_limits(Err("down".to_string()), &cached, 100);
    assert_eq!(save, None);
    let limits = answer.unwrap();
    assert!(limits.stale);
    assert_eq!(limits.cached_at, Some(42));
    assert_eq!(limits.windows[0].title, "1-hour usage");
    let (save, answer) = get_limits(Err("down".to_string()), &None, 100);
    assert_eq!(save, None);
    assert_eq!(answer.unwrap_err(), "down");
    let live = json(r#"{"rateLimits": {"primary": {}}}"#);
    let (save, answer) = get_limits(Ok(live), &cached, 100);
    assert_eq!(save, Some(100));
    assert!(!answer.unwrap().stale);
    assert!(decode_rpc_cache(r#"{"savedAt": 1}"#).is_none());
    let request = request_with_cache(Err("x".to_string()), &Some("{".to_string()), 3);
    assert_eq!(request.answer.err().as_deref(), Some("x"));
}

fn log_lines() -> Vec<String> {
    [
        r#"{"payload":{},"timestamp":"2026-07-24T01:00:00Z","type":"session_meta"}"#,
        r#"{"payload":{"model":"gpt-5"},"timestamp":"2026-07-24T01:01:00Z","type":"turn_context"}"#,
        r#"{"payload":{"content":"private","role":"user","type":"message"},"timestamp":"2026-07-24T01:02:00Z","type":"response_item"}"#,
        r#"{"payload":{"type":"function_call"},"timestamp":"2026-07-24T01:03:00Z","type":"response_item"}"#,
        r#"{"payload":{"info":{"last_token_usage":{"output_tokens":42}},"type":"token_count"},"timestamp":"2026-07-24T01:04:00Z","type":"event_msg"}"#,
    ]
    .iter()
    .map(|line| line.to_string())
    .collect()
}

fn day(summary_daily: &[(String, DayCounts)], date: &str) -> Option<DayCounts> {
    summary_daily.iter().find(|(d, _)| d == date).map(|(_, c)| *c)
}

#[test]
fn scans_session_metadata_without_retaining_content() {
    let summary = summarize_session(&log_lines(), 1, 2);
    let day = day(&summary.daily, "2026-07-24").unwrap();
    assert_eq!((day.messages, day.sessions, day.tools), (1, 1, 1));
    assert_eq!(
        summary.model_tokens.iter().find(|(m, _)| m == "gpt-5").map(|(_, t)| *t),
        Some(42)
    );
}

#[test]
fn summaries_keep_dates_and_model_names_only() {
    let summary = summarize_session(&log_lines(), 1, 2);
    assert!(summary.daily.iter().all(|(date, _)| date == "2026-07-24"));
    assert!(summary.model_tokens.iter().all(|(model, _)| model == "gpt-5"));
    assert!(!format!("{:?}", summary).contains("private"));
}

#[test]
fn a_log_without_session_meta_counts_its_session_on_the_first_date() {
    let lines: Vec<String> = vec![
        "not json".to_string(),
        r#"{"timestamp":"2026-07-20T09:00:00Z","type":"event_msg","payload":{"type":"token_count","info":{"last_token_usage":{"output_tokens":5}}}}"#.to_string(),
        r#"{"timestamp":"2026-07-21T09:00:00Z","type":"response_item","payload":{"type":"web_search_call"}}"#.to_string(),
    ];
    let summary = summarize_session(&lines, 0, 0);
    assert_eq!(day(&summary.daily, "2026-07-20").unwrap().sessions, 1);
    assert_eq!(day(&summary.daily, "2026-07-21").unwrap().tools, 1);
    assert_eq!(summary.model_tokens, vec![("unknown".to_string(), 5)]);
    assert!(summary_is_current(&summary, 0, 0));
    assert!(!summary_is_current(&summary, 1, 0));
}

#[test]
fn an_undated_first_line_leaves_the_session_to_the_first_dated_line() {
    let lines: Vec<String> = vec![
        r#"{"type":"turn_context","payload":{"model":"gpt-5"}}"#.to_string(),
        r#"{"timestamp":"2026-07-22T09:00:00Z","type":"event_msg","payload":{"type":"agent_message"}}"#.to_string(),
    ];
    let summary = summarize_session(&lines, 0, 0);
    assert_eq!(summary.daily.len(), 1);
    assert_eq!(day(&summary.daily, "2026-07-22").unwrap().sessions, 1);
}

#[test]
fn malformed_lines_are_skipped_and_later_lines_still_read() {
    let lines: Vec<String> = vec![
        r#"{"timestamp":"2026-07-2é","type":"session_meta"}"#.to_string(),
        r#"{"timestamp":"2026-07-23T09:00:00Z","type":"response_item","payload":{"type":"message","role":"user"}}"#.to_string(),
        r#"{"timestamp":"2026-07-23T09:01:00Z","type":"response_it"#.to_string(),
        r#"{"timestamp":"2026-07-23T09:02:00Z","type":"response_item","payload":{"type":"function_call"}}"#.to_string(),
    ];
    let summary = summarize_session(&lines, 0, 0);
    assert_eq!(summary.daily.len(), 1);
    let counts = day(&summary.daily, "2026-07-23").unwrap();
    assert_eq!((counts.messages, counts.sessions, counts.tools), (1, 1, 1));
    let clean = summarize_session(&vec![lines[1].clone(), lines[3].clone()], 0, 0);
    assert_eq!(summary.daily, clean.daily);
    assert_eq!(summary.model_tokens, clean.model_tokens);
}

#[test]
fn content_fields_do_not_change_a_summary() {
    let a = vec![
        r#"{"timestamp":"2026-07-24T09:00:00Z","type":"response_item","payload":{"type":"message","role":"user","content":"first secret"}}"#.to_string(),
    ];
    let b = vec![
        r#"{"timestamp":"2026-07-24T09:00:00Z","type":"response_item","payload":{"type":"message","role":"user","content":"another text entirely"},"extra":[1,2]}"#.to_string(),
    ];
    let sa = summarize_session(&a, 3, 4);
    let sb = summarize_session(&b, 3, 4);
    assert_eq!(sa.daily, sb.daily);
    assert_eq!(sa.model_tokens, sb.model_tokens);
}

#[test]
fn local_sessions_combine_across_files() {
    let a = summarize_session(&log_lines(), 1, 1);
    let b = summarize_session(&log_lines()[..3].to_vec(), 2, 2);
    let local = combine_sessions(&vec![a, b]);
    let day = day(&local.daily, "2026-07-24").unwrap();
    assert_eq!((day.messages, day.sessions, day.tools), (2, 2, 1));
    assert_eq!(local.session_count, 2);
    assert_eq!(local.since.as_deref(), Some("2026-07-24"));
    assert_eq!(local.model_tokens, vec![("gpt-5".to_string(), 42)]);
    let none = combine_sessions(&Vec::new());
    assert_eq!(none.since, None);
    assert_eq!(none.session_count, 0);
}

#[test]
fn account_buckets_are_the_last_fourteen_by_date() {
    let mut buckets = Vec::new();
    for d in (1..=20).rev() {
        buckets.push(format!(r#"{{"startDate":"2026-07-{:02}T00:00:00Z","tokens":{}}}"#, d, d * 10));
    }
    buckets.push(r#"{"startDate":"2026-07-30"}"#.to_string());
    let value = json(&format!(r#"{{"dailyUsageBuckets":[{}]}}"#, buckets.join(",")));
    let points = daily_buckets(&value);
    assert_eq!(points.len(), 14);
    assert_eq!(points[0].date, "2026-07-07");
    assert_eq!(points[13].date, "2026-07-20");
    assert_eq!(points[13].value, 200);
    assert!(daily_buckets(&json("{}")).is_empty());
}

fn local_stats() -> LocalStats {
    combine_sessions(&vec![summarize_session(&log_lines(), 1, 1)])
}

const TODAY_SECS: i64 = 1_784_851_200; // 2026-07-24

#[test]
fn the_codex_card_joins_account_and_local_usage() {
    let value = json(
        r#"{"dailyUsageBuckets":[{"startDate":"2026-07-24","tokens":900},{"startDate":"2026-07-23","tokens":100}],
            "summary":{"lifetimeTokens":1234567,"currentStreakDays":3}}"#,
    );
    assert_eq!(lifetime_tokens(&value), Some(1_234_567));
    let stats = get_stats(
        Ok(Fetched { value, stale: true, cached_at: Some(1) }),
        Ok(local_stats()),
        Some("1.2M".to_string()),
        TODAY_SECS,
    )
    .unwrap();
    assert_eq!(stats.metrics[0].label, "Tokens");
    assert_eq!(stats.metrics[0].value, 900);
    assert_eq!(stats.metrics[1].value, 1);
    assert_eq!(stats.metrics[2].value, 1);
    assert_eq!(stats.activity_label, "14-Day Token Activity");
    assert_eq!(stats.daily14.len(), 2);
    assert_eq!(stats.daily14[0].date, "2026-07-23");
    assert_eq!(
        stats.footer,
        vec!["1.2M lifetime tokens", "3-day streak", "1 local sessions"]
    );
    assert_eq!(stats.data_scope.as_deref(), Some("Cached account usage + local sessions"));
    assert_eq!(stats.breakdown[0].key, "gpt-5");
    assert_eq!(stats.last_updated, "2026-07-24");
    assert_eq!(stats.since.as_deref(), Some("2026-07-24"));
}

#[test]
fn without_account_usage_the_card_shows_local_prompts() {
    let stats = get_stats(Err("down".to_string()), Ok(local_stats()), None, TODAY_SECS).unwrap();
    assert_eq!(stats.metrics[0].label, "Prompts");
    assert_eq!(stats.metrics[0].value, 1);
    assert_eq!(stats.activity_label, "14-Day Prompt Activity");
    assert_eq!(stats.daily14.len(), 1);
    assert_eq!(stats.footer, vec!["1 local sessions"]);
    assert_eq!(stats.data_scope.as_deref(), Some("Local sessions only"));
    assert_eq!(
        get_stats(Err("a".to_string()), Err("b".to_string()), None, TODAY_SECS).unwrap_err(),
        "Codex account and local session usage are unavailable"
    );
}
