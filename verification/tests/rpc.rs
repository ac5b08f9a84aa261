use quotaglass::json::read_json;
use quotaglass::rpc::{
    after_attempt, codex_candidates, keep_recent, no_response_message, pick_executable, reply_for,
    remaining_wait_ms, response_id, wait_step, AttemptStep, Reply, RequestIds, WaitStep,
    RESPONSE_TIMEOUT_MS,
};

#[test]
fn response_id_ignores_notifications() {
    assert_eq!(response_id(&read_json(r#"{"method": "account/updated"}"#).unwrap()), None);
    assert_eq!(response_id(&read_json(r#"{"id": 4, "result": {}}"#).unwrap()), Some(4));
}

#[test]
fn only_the_matching_response_answers_a_request() {
    assert!(matches!(reply_for("garbage", 3), Reply::Skip));
    assert!(matches!(reply_for(r#"{"method":"account/updated"}"#, 3), Reply::Skip));
    assert!(matches!(reply_for(r#"{"id":2,"result":{}}"#, 3), Reply::Skip));
    match reply_for(r#"{"id":3,"result":{"rateLimits":{}}}"#, 3) {
        Reply::Answered(value) => assert!(value.member("rateLimits").is_some()),
        _ => panic!("expected an answer"),
    }
    match reply_for(r#"{"id":3,"error":{"code":-32600,"message":"bad"}}"#, 3) {
        Reply::Failed(message) => assert_eq!(
            message,
            r#"Codex app-server returned an error: {"code":-32600,"message":"bad"}"#
        ),
        _ => panic!("expected a failure"),
    }
    match reply_for(r#"{"id":3}"#, 3) {
        Reply::Failed(message) => assert_eq!(message, "Codex app-server response had no result"),
        _ => panic!("expected a failure"),
    }
}

#[test]
fn request_ids_count_up_from_one() {
    let mut ids = RequestIds::new();
    assert_eq!(ids.next_request_id(), 1);
    assert_eq!(ids.next_request_id(), 2);
}

#[test]
fn a_failed_request_is_retried_once() {
    assert!(matches!(after_attempt(0, Err("x".to_string())), AttemptStep::Restart));
    assert!(matches!(after_attempt(1, Err("x".to_string())), AttemptStep::Done(Err(_))));
    assert!(matches!(after_attempt(0, Ok(read_json("1").unwrap())), AttemptStep::Done(Ok(_))));
}

#[test]
fn the_first_installed_codex_is_started() {
    let candidates = codex_candidates(Some("/tmp/codex".to_string()));
    assert_eq!(candidates.len(), 4);
    assert_eq!(candidates[0], "/tmp/codex");
    assert_eq!(pick_executable(&candidates, &vec![false, false, true, true]), "/usr/local/bin/codex");
    assert_eq!(pick_executable(&candidates, &vec![false; 4]), "codex");
    assert_eq!(codex_candidates(None)[0], "/opt/homebrew/bin/codex");
}

#[test]
fn the_last_eight_lines_of_error_output_are_kept() {
    let mut lines = Vec::new();
    for n in 0..10 {
        keep_recent(&mut lines, format!("line {n}"));
    }
    assert_eq!(lines.len(), 8);
    assert_eq!(lines[0], "line 2");
    assert_eq!(
        no_response_message("timed out", &lines[6..].to_vec()),
        "Codex app-server did not respond: timed out (line 8 line 9)"
    );
    assert_eq!(
        no_response_message("timed out", &Vec::new()),
        "Codex app-server did not respond: timed out"
    );
}

#[test]
fn waiting_passes_over_other_lines_and_ends_on_an_answer_or_silence() {
    let stderr = vec!["boom".to_string()];
    assert!(matches!(wait_step(Ok("garbage".to_string()), 0, 3, &stderr), WaitStep::Wait));
    assert!(matches!(
        wait_step(Ok(r#"{"id": 2, "result": {}}"#.to_string()), 7_999, 3, &stderr),
        WaitStep::Wait
    ));
    match wait_step(Ok(r#"{"id": 3, "result": {"ok": true}}"#.to_string()), 9_000, 3, &stderr) {
        WaitStep::Done(Ok(value)) => assert!(value.member("ok").is_some()),
        other => panic!("unexpected {other:?}"),
    }
    match wait_step(Ok(r#"{"id": 3, "error": {"code": 1}}"#.to_string()), 10, 3, &stderr) {
        WaitStep::Done(Err(message)) => {
            assert_eq!(message, r#"Codex app-server returned an error: {"code":1}"#)
        }
        other => panic!("unexpected {other:?}"),
    }
    match wait_step(Err("timed out".to_string()), 8_000, 3, &stderr) {
        WaitStep::Done(Err(message)) => {
            assert_eq!(message, "Codex app-server did not respond: timed out (boom)")
        }
        other => panic!("unexpected {other:?}"),
    }
    assert_eq!(RESPONSE_TIMEOUT_MS, 8000);
}

#[test]
fn a_request_gets_eight_seconds_in_all_however_many_other_lines_arrive() {
    assert_eq!(remaining_wait_ms(0), 8000);
    assert_eq!(remaining_wait_ms(7_500), 500);
    assert_eq!(remaining_wait_ms(8_000), 0);
    assert_eq!(remaining_wait_ms(u64::MAX), 0);
    let notification = r#"{"method": "account/updated"}"#.to_string();
    assert!(matches!(wait_step(Ok(notification.clone()), 7_999, 3, &Vec::new()), WaitStep::Wait));
    match wait_step(Ok(notification), 8_000, 3, &Vec::new()) {
        WaitStep::Done(Err(message)) => {
            assert_eq!(message, "Codex app-server did not respond: timed out waiting on channel")
        }
        other => panic!("unexpected {other:?}"),
    }
}
