use quilt_mesh::json::{json_text, parse_or_empty, Json};
use quilt_mesh::reasons::{
    failure_message, is_runtime_non_terminal, is_runtime_terminal_failure,
    is_runtime_terminal_success, normalize_reason_code, parse_dispatch_error,
    RC_IDEMPOTENCY_REPLAY, RC_ORCH_DEPENDENCY_UNAVAILABLE,
};
use quilt_mesh::runtime::{parse_runtime_response, read_runtime_reply};

#[test]
fn every_status_word_is_of_one_kind() {
    let words = [
        "accepted", "queued", "running", "succeeded", "failed", "cancelled", "timed_out",
    ];
    for word in words {
        let kinds = [
            is_runtime_non_terminal(word),
            is_runtime_terminal_success(word),
            is_runtime_terminal_failure(word),
        ];
        assert_eq!(kinds.iter().filter(|kind| **kind).count(), 1, "{}", word);
    }
    for word in ["pending", "", "Accepted", "succeeded "] {
        assert!(!is_runtime_non_terminal(word));
        assert!(!is_runtime_terminal_success(word));
        assert!(!is_runtime_terminal_failure(word));
    }
}

#[test]
fn unknown_codes_are_kept() {
    assert_eq!(normalize_reason_code(Some("SOMETHING_ELSE")), "SOMETHING_ELSE");
}

fn reference(message: &str) -> (String, Option<bool>, String) {
    let parts: Vec<&str> = message.splitn(3, '|').collect();
    if parts.len() == 3 && parts[1].starts_with("retryable=") {
        let hint = match parts[1].trim_start_matches("retryable=") {
            "true" => Some(true),
            "false" => Some(false),
            _ => None,
        };
        return (parts[0].to_string(), hint, parts[2].to_string());
    }
    for code in [
        "ELASTICITY_INVALID_ARGUMENT",
        "ELASTICITY_TARGET_NOT_FOUND",
        "ELASTICITY_RESOURCE_PRESSURE",
        "ELASTICITY_OPERATION_FAILED",
        "ELASTICITY_IDEMPOTENCY_REPLAY",
        "ORCH_ACTION_UNSUPPORTED",
        "ORCH_DEPENDENCY_UNAVAILABLE",
    ] {
        if message.starts_with(code) {
            return (code.to_string(), None, message.to_string());
        }
    }
    ("ORCH_DEPENDENCY_UNAVAILABLE".to_string(), None, message.to_string())
}

#[test]
fn messages_are_taken_apart() {
    for message in [
        "",
        "|",
        "||",
        "a|b|c",
        "a|retryable=true",
        "a|retryable=true|",
        "|retryable=false|x|y|z",
        "a|retryable=retryable=true|d",
        "a|retryable=maybe|d",
        "a|xretryable=true|d",
        "ELASTICITY_TARGET_NOT_FOUND: gone",
        "ELASTICITY_RESOURCE_PRESSURE|busy",
        "ORCH_ACTION_UNSUPPORTED",
        "ORCH_DEPENDENCY_UNAVAILABLE",
        "runtime request failed",
        "é|retryable=true|ü",
    ] {
        assert_eq!(parse_dispatch_error(message), reference(message), "{}", message);
    }
}

#[test]
fn a_failure_is_read_back_from_its_message() {
    for hint in [Some(true), Some(false), None] {
        let message = failure_message("CODE", hint, "the|detail");
        assert_eq!(
            parse_dispatch_error(&message),
            ("CODE".to_string(), hint, "the|detail".to_string())
        );
    }
    assert_eq!(failure_message("C", None, "d"), "C|retryable=unknown|d");
}

#[test]
fn a_server_error_says_that_the_runtime_is_unavailable() {
    for status in [500u16, 503, 599] {
        match parse_runtime_response(status, "{\"operation_id\":\"x\"}".to_string()) {
            Ok(_) => panic!("an error was expected"),
            Err(message) => assert_eq!(
                message,
                "ORCH_DEPENDENCY_UNAVAILABLE|retryable=true|{\"operation_id\":\"x\"}"
            ),
        }
    }
}

#[test]
fn a_refusal_carries_its_reason() {
    let body = "{\"reason_code\":\"ELASTICITY_TARGET_NOT_FOUND\",\"reason_message\":\"gone\",\"retryable\":false}";
    match parse_runtime_response(404, body.to_string()) {
        Ok(_) => panic!("an error was expected"),
        Err(message) => {
            assert_eq!(message, "ELASTICITY_TARGET_NOT_FOUND|retryable=false|gone")
        }
    }
    match parse_runtime_response(400, "no document".to_string()) {
        Ok(_) => panic!("an error was expected"),
        Err(message) => assert_eq!(
            message,
            "ELASTICITY_OPERATION_FAILED|retryable=unknown|client_error"
        ),
    }
}

#[test]
fn a_replay_without_an_operation_is_refused() {
    let body = Json::empty_object()
        .with("reason_code", Json::text(RC_IDEMPOTENCY_REPLAY))
        .with("operation_id", Json::text(""));
    assert!(parse_runtime_response(409, json_text(&body)).is_err());
    let named = body.with("operation_id", Json::text("op"));
    assert!(parse_runtime_response(499, json_text(&named)).is_ok());
}

#[test]
fn success_reports_the_operation() {
    let document = parse_or_empty("{\"operation_id\":\"op\",\"status\":\"running\"}");
    for status in [100u16, 200, 202, 302, 399, 600] {
        match read_runtime_reply(status, "", &document) {
            Ok(op) => {
                assert_eq!(op.operation_id, "op");
                assert_eq!(op.status, "running");
                assert_eq!(op.operation_type, None);
                assert_eq!(op.reason_code, None);
                assert_eq!(op.reason_message, None);
            }
            Err(message) => panic!("{}", message),
        }
    }
    match parse_runtime_response(200, "not json".to_string()) {
        Ok(op) => {
            assert_eq!(op.operation_id, "");
            assert_eq!(op.status, "accepted");
        }
        Err(message) => panic!("{}", message),
    }
    assert_eq!(RC_ORCH_DEPENDENCY_UNAVAILABLE, "ORCH_DEPENDENCY_UNAVAILABLE");
}
