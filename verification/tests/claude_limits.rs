use quotaglass::claude_limits::{api_error_message, parse_legacy_windows, parse_limit_entry, parse_live_windows, window_slug};
use quotaglass::json::{read_json, Json, JsonNumber};

fn json(text: &str) -> Json {
    read_json(text).expect("test JSON should parse")
}

fn number(n: &Option<JsonNumber>) -> Option<f64> {
    match n {
        Some(JsonNumber::PosInt(u)) => Some(*u as f64),
        Some(JsonNumber::NegInt(i)) => Some(*i as f64),
        Some(JsonNumber::Float(t)) => Some(t.parse::<f64>().expect("float text")),
        None => None,
    }
}

const SESSION: &str = r#"{"kind": "session", "group": "session", "percent": 9, "resets_at": "2026-08-12T05:00:00.219750+00:00", "scope": null}"#;
const WEEKLY: &str = r#"{"kind": "weekly_all", "group": "weekly", "percent": 19, "resets_at": "2026-08-17T15:00:00.219772+00:00", "scope": null}"#;
const SCOPED: &str = r#"{"kind": "weekly_scoped", "group": "weekly", "percent": 19, "resets_at": "2026-08-17T15:00:00.219979+00:00", "scope": {"model": {"id": null, "display_name": "Fable"}}}"#;

// Mirrors a real payload: every legacy per-model field is null and the
// model-scoped window is only described by the `limits` array.
fn live_payload(entries: &[&str]) -> Json {
    let text = format!(
        r#"{{"five_hour": {{"utilization": 9.0, "resets_at": "2026-08-12T05:00:00.219750+00:00"}},
            "seven_day": {{"utilization": 19.0, "resets_at": "2026-08-17T15:00:00.219772+00:00"}},
            "seven_day_opus": null,
            "seven_day_sonnet": null,
            "limits": [{}]}}"#,
        entries.join(",")
    );
    json(&text)
}

#[test]
fn model_scoped_window_becomes_the_third_row() {
    let windows = parse_live_windows(&live_payload(&[SESSION, WEEKLY, SCOPED]));
    assert_eq!(windows.len(), 3);
    assert_eq!(windows[0].id, "five-hour");
    assert_eq!(windows[0].title, "Current session");
    assert_eq!(windows[1].id, "seven-day");
    assert_eq!(windows[2].id, "seven-day-fable");
    assert_eq!(windows[2].title, "Current week (Fable only)");
    assert_eq!(number(&windows[2].utilization), Some(19.0));
    assert_eq!(windows[2].window_minutes, Some(10_080));
}

#[test]
fn window_order_does_not_depend_on_the_arrays_order() {
    let windows = parse_live_windows(&live_payload(&[SCOPED, WEEKLY, SESSION]));
    let ids: Vec<_> = windows.iter().map(|window| window.id.as_str()).collect();
    assert_eq!(ids, ["five-hour", "seven-day", "seven-day-fable"]);
}

#[test]
fn a_scoped_window_without_a_model_name_is_skipped() {
    // Nothing legible to title the row with, so it is dropped rather than
    // rendered as an unlabelled bar.
    let data = json(
        r#"{"limits": [
            {"kind": "weekly_all", "percent": 19, "resets_at": null, "scope": null},
            {"kind": "weekly_scoped", "percent": 19, "resets_at": null, "scope": null},
            {"kind": "something_new", "percent": 5, "resets_at": null, "scope": null}
        ]}"#,
    );
    let windows = parse_live_windows(&data);
    assert_eq!(windows.len(), 1);
    assert_eq!(windows[0].id, "seven-day");
}

#[test]
fn falls_back_to_legacy_fields_when_the_array_is_absent() {
    let data = json(
        r#"{"five_hour": {"utilization": 4.0, "resets_at": "2026-08-12T05:00:00+00:00"},
            "seven_day": {"utilization": 18.0, "resets_at": "2026-08-17T14:59:59+00:00"},
            "seven_day_sonnet": null}"#,
    );
    let windows = parse_live_windows(&data);
    assert_eq!(windows.len(), 2);
    assert_eq!(windows[0].id, "five-hour");
    assert_eq!(number(&windows[1].utilization), Some(18.0));
}

#[test]
fn scoped_ids_stay_unique_and_url_safe_across_model_names() {
    assert_eq!(window_slug("Fable"), "fable");
    assert_eq!(window_slug("Fable Opus 4.8"), "fable-opus-4-8");
    assert_ne!(window_slug("Opus"), window_slug("Sonnet"));
}

#[test]
fn rate_limit_and_bare_error_bodies_are_detected() {
    let bare = json(r#"{"error": {"type": "rate_limit_error", "message": "Rate limited. Please try again later."}}"#);
    let discriminated = json(
        r#"{"type": "error", "error": {"type": "authentication_error", "message": "invalid bearer token"}}"#,
    );
    assert_eq!(
        api_error_message(&bare).as_deref(),
        Some("Rate limited. Please try again later.")
    );
    assert_eq!(
        api_error_message(&discriminated).as_deref(),
        Some("invalid bearer token")
    );
    assert_eq!(api_error_message(&json(r#"{"five_hour": null}"#)), None);
}

#[test]
fn an_error_without_a_message_still_counts_as_an_error() {
    assert_eq!(
        api_error_message(&json(r#"{"error": {"type": "overloaded"}}"#)).as_deref(),
        Some("Usage unavailable")
    );
    assert_eq!(api_error_message(&json(r#"{"error": null}"#)), None);
}

#[test]
fn slugs_drop_outer_punctuation_and_lower_case_ascii() {
    assert_eq!(window_slug("  (Haiku) "), "haiku");
    assert_eq!(window_slug("---"), "");
    assert_eq!(window_slug("Ünïcode Model"), "n-code-model");
    assert_eq!(window_slug("GPT_5.1"), "gpt-5-1");
}

#[test]
fn limit_entries_keep_their_percent_and_reset_time() {
    let (rank, window) = parse_limit_entry(&json(SESSION)).expect("session entry");
    assert_eq!(rank, 0);
    assert_eq!(window.id, "five-hour");
    assert_eq!(window.resets_at.as_deref(), Some("2026-08-12T05:00:00.219750+00:00"));
    assert_eq!(window.window_minutes, Some(300));
    assert_eq!(number(&window.utilization), Some(9.0));
    let (rank, window) = parse_limit_entry(&json(SCOPED)).expect("scoped entry");
    assert_eq!(rank, 2);
    assert_eq!(window.title, "Current week (Fable only)");
    assert!(parse_limit_entry(&json(r#"{"percent": 3}"#)).is_none());
}

#[test]
fn legacy_windows_skip_null_and_missing_fields() {
    let windows = parse_legacy_windows(&json(r#"{"five_hour": null, "seven_day": {"utilization": 2}}"#));
    assert_eq!(windows.len(), 1);
    assert_eq!(windows[0].id, "seven-day");
    assert_eq!(windows[0].title, "Current week (all models)");
    assert_eq!(windows[0].resets_at, None);
    assert!(parse_legacy_windows(&json("[]")).is_empty());
}

#[test]
fn an_empty_limits_array_falls_back_to_the_legacy_fields() {
    let data = json(r#"{"limits": [], "five_hour": {"utilization": 1.5, "resets_at": null}}"#);
    let windows = parse_live_windows(&data);
    assert_eq!(windows.len(), 1);
    assert_eq!(windows[0].id, "five-hour");
    assert_eq!(number(&windows[0].utilization), Some(1.5));
}

#[test]
fn slugs_are_short_stable_and_lower_case() {
    for model in ["Fable Opus 4.8", "  (Haiku) ", "---", "Ünïcode Model", "GPT_5.1", ""] {
        let slug = window_slug(model);
        assert!(slug.chars().count() <= model.chars().count());
        assert_eq!(window_slug(&slug), slug);
        assert!(!slug.starts_with('-') && !slug.ends_with('-'));
        assert!(slug.chars().all(|c| c.is_ascii_lowercase() || c.is_ascii_digit() || c == '-'));
    }
    assert_eq!(window_slug("Opus41"), "opus41");
    assert_eq!(window_slug("SONNET5"), "sonnet5");
}
