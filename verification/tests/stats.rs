use quotaglass::claude_stats::{get_stats, stats_input_panics, SessionFile};

const NOW: i64 = 1_786_465_199; // 2026-08-11

fn file(modified_secs: Option<i64>, lines: &[&str]) -> SessionFile {
    SessionFile { modified_secs, contents: lines.join("\n") }
}

const CACHE: &str = r#"{"lastComputedDate":"2026-08-09",
    "dailyActivity":[
        {"date":"2026-08-08","messageCount":3,"sessionCount":1,"toolCallCount":2},
        {"date":"2026-08-09","messageCount":5,"sessionCount":2,"toolCallCount":0},
        {"messageCount":99}
    ],
    "modelUsage":{"opus-4":{"outputTokens":100},"haiku-4":{"outputTokens":7}},
    "totalSessions":10,"totalMessages":40,"firstSessionDate":"2026-01-02T03:04:05Z"}"#;

fn transcript() -> SessionFile {
    file(
        Some(NOW),
        &[
            r#"{"timestamp":"2026-08-09T10:00:00Z","type":"user","sessionId":"old"}"#,
            r#"{"timestamp":"2026-08-10T10:00:00Z","type":"user","sessionId":"s1"}"#,
            r#"{"timestamp":"2026-08-11T10:00:00Z","type":"user","sessionId":"s1"}"#,
            r#"{"timestamp":"2026-08-11T10:05:00Z","type":"user","parentUuid":"p2"}"#,
            r#"  {"timestamp":"2026-08-11T10:06:00Z","type":"assistant","message":{"model":"haiku-4","usage":{"output_tokens":50},"content":[{"type":"tool_use"},{"type":"text"},{"type":"tool_use"}]}}  "#,
            r#"{"timestamp":"2026-08-11T10:07:00Z","type":"assistant","message":{"model":"sonnet-4","usage":{"output_tokens":0}}}"#,
            "not json",
            "",
        ],
    )
}

#[test]
fn claude_stats_bring_the_cache_up_to_date() {
    let files = vec![transcript(), file(Some(0), &[r#"{"timestamp":"2026-08-11T00:00:00Z","type":"user"}"#])];
    let cache = Some(CACHE.to_string());
    assert!(!stats_input_panics(&cache, &files));
    let stats = get_stats(&cache, &files, NOW);
    let metrics: Vec<_> = stats.metrics.iter().map(|m| (m.label.as_str(), m.value)).collect();
    assert_eq!(metrics, [("Messages", 2), ("Sessions", 2), ("Tools", 2)]);
    let days: Vec<_> = stats.daily14.iter().map(|p| (p.date.as_str(), p.value)).collect();
    assert_eq!(days, [("2026-08-08", 3), ("2026-08-09", 5), ("2026-08-10", 1), ("2026-08-11", 2)]);
    let rows: Vec<_> = stats.breakdown.iter().map(|r| (r.key.as_str(), r.value)).collect();
    assert_eq!(rows, [("opus-4", 100), ("haiku-4", 57)]);
    assert_eq!(stats.footer, vec!["13 sessions", "43 messages"]);
    assert_eq!(stats.since.as_deref(), Some("2026-01-02"));
    assert_eq!(stats.activity_label, "14-Day Activity");
    assert_eq!(stats.breakdown_label, "Tokens by Model");
    assert_eq!(stats.last_updated, "2026-08-11");
    assert_eq!(stats.data_scope, None);
}

#[test]
fn without_a_stats_cache_everything_after_2000_counts() {
    let stats = get_stats(&None, &vec![transcript()], NOW);
    let days: Vec<_> = stats.daily14.iter().map(|p| (p.date.as_str(), p.value)).collect();
    assert_eq!(days, [("2026-08-09", 1), ("2026-08-10", 1), ("2026-08-11", 2)]);
    assert_eq!(stats.footer, vec!["4 sessions", "4 messages"]);
    assert_eq!(stats.since, None);
    let rows: Vec<_> = stats.breakdown.iter().map(|r| (r.key.as_str(), r.value)).collect();
    assert_eq!(rows, [("haiku-4", 50)]);
}

#[test]
fn only_the_last_fourteen_days_are_charted() {
    let lines: Vec<String> = (1..=20)
        .map(|d| format!(r#"{{"timestamp":"2026-07-{:02}T10:00:00Z","type":"user"}}"#, d))
        .collect();
    let refs: Vec<&str> = lines.iter().map(|l| l.as_str()).collect();
    let stats = get_stats(&None, &vec![file(None, &refs)], NOW);
    assert_eq!(stats.daily14.len(), 14);
    assert_eq!(stats.daily14[0].date, "2026-07-07");
    assert_eq!(stats.daily14[13].date, "2026-07-20");
}

#[test]
fn a_timestamp_cut_inside_a_character_is_detected() {
    let files = vec![file(None, &[r#"{"timestamp":"2026-08-1é","type":"user"}"#])];
    assert!(stats_input_panics(&None, &files));
    // A file modified before the cache's date is not read at all.
    let files = vec![file(Some(0), &[r#"{"timestamp":"2026-08-1é","type":"user"}"#])];
    assert!(!stats_input_panics(&Some(CACHE.to_string()), &files));
}
