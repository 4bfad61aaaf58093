use pilotty::error::ApiError;

fn assert_has_suggestion(err: &ApiError, context: &str) {
    assert!(
        err.suggestion.is_some(),
        "{} should have a suggestion, but got None",
        context
    );
}

#[test]
fn test_session_not_found_has_suggestion() {
    let err = ApiError::session_not_found("test-123");
    assert_has_suggestion(&err, "session_not_found");
    assert!(err.suggestion.as_ref().unwrap().contains("list-sessions"));
    assert!(err.message.contains("test-123"));
}

#[test]
fn test_command_failed_has_suggestion() {
    let err = ApiError::command_failed("something broke");
    assert_has_suggestion(&err, "command_failed");
    assert!(err.message.contains("something broke"));
}

#[test]
fn test_command_failed_with_stderr() {
    let err = ApiError::command_failed_with_stderr("spawn failed", Some("permission denied"));
    assert_has_suggestion(&err, "command_failed_with_stderr");
    assert!(err.message.contains("spawn failed"));
    assert!(err.message.contains("permission denied"));
}

#[test]
fn test_command_failed_with_stderr_empty() {
    let err = ApiError::command_failed_with_stderr("spawn failed", Some("  "));
    assert_has_suggestion(&err, "command_failed_with_stderr (empty stderr)");
    assert!(!err.message.contains("stderr:"));
}

#[test]
fn test_command_failed_with_stderr_none() {
    let err = ApiError::command_failed_with_stderr("spawn failed", None);
    assert_has_suggestion(&err, "command_failed_with_stderr (None)");
    assert!(!err.message.contains("stderr:"));
}

#[test]
fn test_invalid_input_has_suggestion() {
    let err = ApiError::invalid_input("bad argument");
    assert_has_suggestion(&err, "invalid_input");
}

#[test]
fn test_invalid_input_with_custom_suggestion() {
    let err = ApiError::invalid_input_with_suggestion("unknown key", "Try Enter, Tab, or Ctrl+C");
    assert_has_suggestion(&err, "invalid_input_with_suggestion");
    assert!(err.suggestion.as_ref().unwrap().contains("Enter"));
}

#[test]
fn test_duplicate_session_name_has_suggestion() {
    let err = ApiError::duplicate_session_name("my-session");
    assert_has_suggestion(&err, "duplicate_session_name");
    assert!(err.message.contains("my-session"));
}

#[test]
fn test_no_sessions_has_suggestion() {
    let err = ApiError::no_sessions();
    assert_has_suggestion(&err, "no_sessions");
    assert!(err.suggestion.as_ref().unwrap().contains("spawn"));
}

#[test]
fn test_internal_has_suggestion() {
    let err = ApiError::internal("unexpected state");
    assert_has_suggestion(&err, "internal");
}

#[test]
fn test_spawn_failed_has_suggestion() {
    let cmd = vec!["vim".to_string(), "file.txt".to_string()];
    let err = ApiError::spawn_failed(&cmd, "command not found");
    assert_has_suggestion(&err, "spawn_failed");
    assert!(err.message.contains("vim file.txt"));
    assert!(err.message.contains("command not found"));
    assert!(err.suggestion.as_ref().unwrap().contains("vim"));
}

#[test]
fn test_spawn_failed_empty_command() {
    let err = ApiError::spawn_failed(&vec![], "no command");
    assert_has_suggestion(&err, "spawn_failed (empty)");
    assert!(err.message.contains("(empty command)"));
}

#[test]
fn test_write_failed_has_suggestion() {
    let err = ApiError::write_failed("broken pipe");
    assert_has_suggestion(&err, "write_failed");
    assert!(err.message.contains("broken pipe"));
    assert!(err.suggestion.as_ref().unwrap().contains("list-sessions"));
}

#[test]
fn test_display_format_with_suggestion() {
    let err = ApiError::session_not_found("abc");
    let display = err.display_string();
    assert!(display.contains("[SESSION_NOT_FOUND]"));
    assert!(display.contains("abc"));
    assert!(display.contains("(hint:"));
}

#[test]
fn test_session_limit_message_names_the_cap() {
    let err = ApiError::session_limit_reached(100);
    assert!(err.message.contains("100"));
    assert!(err.suggestion.as_ref().unwrap().contains("kill"));
}
