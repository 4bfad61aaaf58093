use pilotty::classify::{detect, ClassifyContext};
use pilotty::elements::ElementKind;
use pilotty::error::ErrorCode;
use pilotty::grid::ScreenGrid;
use pilotty::input::{encode_mouse_click_combined, encode_text};
use pilotty::protocol::{default_snapshot_timeout, Response, ResponseData};
use pilotty::server::{
    check_scroll_amount, detect_regions, format_text_snapshot, frame_step, stale_socket_action,
    text_contains, wait_for_outcome, BindAction, FrameStep, TermSize,
};
use pilotty::session::{SessionRegistry, MAX_SESSIONS};
use pilotty::snapshot::compute_content_hash;

#[test]
fn content_hash_of_empty_is_offset_basis() {
    assert_eq!(compute_content_hash(""), 0xcbf29ce484222325);
}

#[test]
fn content_hash_is_deterministic_fnv1a() {
    // Reference value computed by folding the UTF-8 bytes by hand.
    let mut expected: u64 = 0xcbf29ce484222325;
    for b in "hello".as_bytes() {
        expected = (expected ^ (*b as u64)).wrapping_mul(0x100000001b3);
    }
    assert_eq!(compute_content_hash("hello"), expected);
    assert_eq!(compute_content_hash("hello"), compute_content_hash("hello"));
    assert_ne!(compute_content_hash("hello"), compute_content_hash("hellp"));
}

#[test]
fn registry_rejects_duplicate_names() {
    let mut reg = SessionRegistry::new();
    assert!(reg.try_insert("id-1", "t1", vec!["echo".to_string()], "now").is_ok());
    let err = reg
        .try_insert("id-2", "t1", vec!["cat".to_string()], "now")
        .expect_err("duplicate name must be rejected");
    assert_eq!(err.code, ErrorCode::InvalidInput);
    assert_eq!(reg.session_count(), 1);
}

#[test]
fn registry_enforces_session_cap() {
    let mut reg = SessionRegistry::new();
    for i in 0..MAX_SESSIONS {
        let id = format!("id-{}", i);
        let name = format!("name-{}", i);
        assert!(reg.try_insert(&id, &name, vec![], "now").is_ok());
    }
    let err = reg
        .try_insert("id-extra", "name-extra", vec![], "now")
        .expect_err("the session over the cap must be rejected");
    assert_eq!(err.code, ErrorCode::CommandFailed);
    assert!(err.message.contains("100"));
    assert_eq!(reg.session_count(), MAX_SESSIONS);
}

#[test]
fn registry_resolves_by_id_then_name() {
    let mut reg = SessionRegistry::new();
    reg.try_insert("abc-123", "editor", vec![], "now").unwrap();
    reg.try_insert("def-456", "default", vec![], "now").unwrap();

    let by_id = reg.resolve_session(Some("abc-123")).unwrap();
    assert_eq!(by_id.0, "abc-123");

    let by_name = reg.resolve_session(Some("editor")).unwrap();
    assert_eq!(by_name.0, "abc-123");

    let default = reg.resolve_session(None).unwrap();
    assert_eq!(default.0, "def-456");

    // Resolution is unchanged by operations that leave the registry alone.
    let _ = reg.list_sessions();
    let _ = reg.find_by_name("editor");
    let again = reg.resolve_session(Some("editor")).unwrap();
    assert_eq!(again.0, "abc-123");

    let missing = reg.resolve_session(Some("nope")).unwrap_err();
    assert_eq!(missing.code, ErrorCode::SessionNotFound);
}

#[test]
fn registry_remove_makes_session_absent() {
    let mut reg = SessionRegistry::new();
    reg.try_insert("abc", "t1", vec![], "now").unwrap();
    reg.try_insert("def", "t2", vec![], "now").unwrap();

    reg.remove("abc").unwrap();
    assert_eq!(reg.session_count(), 1);
    assert!(reg.resolve_session(Some("abc")).is_err());
    assert!(reg.resolve_session(Some("t2")).is_ok());

    let err = reg.remove("abc").unwrap_err();
    assert_eq!(err.code, ErrorCode::SessionNotFound);
}

#[test]
fn frame_step_consumes_through_newline() {
    let chunk = b"{\"id\":\"1\"}\nrest";
    match frame_step(chunk, 0, 1024) {
        FrameStep::Consume { count, done } => {
            assert_eq!(count, 11);
            assert!(done);
        }
        FrameStep::TooLarge => panic!("should fit"),
    }
}

#[test]
fn frame_step_rejects_oversized_frame() {
    // One byte over the cap with no newline in sight drops the connection.
    let chunk = [b'x'; 64];
    match frame_step(&chunk, 1048576 - 63, 1048576) {
        FrameStep::TooLarge => {}
        FrameStep::Consume { .. } => panic!("must reject a frame over the cap"),
    }
}

#[test]
fn frame_step_buffers_partial_frames() {
    let chunk = b"partial";
    match frame_step(chunk, 0, 1024) {
        FrameStep::Consume { count, done } => {
            assert_eq!(count, 7);
            assert!(!done);
        }
        FrameStep::TooLarge => panic!("should fit"),
    }
}

#[test]
fn malformed_frame_response_uses_unknown_id() {
    let err = pilotty::error::ApiError::invalid_input("Invalid JSON request");
    let resp = Response::error("unknown", err);
    assert_eq!(resp.id, "unknown");
    assert!(!resp.success);
    assert!(resp.error.is_some());
}

#[test]
fn cursor_past_end_renders_spaces_then_marker() {
    let size = TermSize { cols: 80, rows: 24 };
    let out = format_text_snapshot("ab\ncd", 0, 5, size);
    assert!(out.contains("--- Terminal 80x24 | Cursor: (0, 5) ---\n"));
    // Row 0 holds "ab", the cursor sits at column 5: three pad spaces, then the marker.
    assert!(out.contains("ab   [_]\n"), "got: {:?}", out);
    assert!(out.contains("cd\n"));
}

#[test]
fn cursor_on_text_is_bracketed() {
    let size = TermSize { cols: 80, rows: 24 };
    let out = format_text_snapshot("hello", 0, 1, size);
    assert!(out.contains("h[e]llo\n"), "got: {:?}", out);
}

#[test]
fn cursor_below_text_opens_blank_rows() {
    let size = TermSize { cols: 80, rows: 24 };
    let out = format_text_snapshot("top", 2, 1, size);
    assert!(out.ends_with("top\n\n [_]\n"), "got: {:?}", out);
}

#[test]
fn snapshot_header_names_the_terminal_size() {
    let size = TermSize::default();
    let out = format_text_snapshot("hello from test", 1, 0, size);
    assert!(out.contains("Terminal 80x24"), "got: {:?}", out);
    assert!(out.contains("hello from test"));
}

#[test]
fn typed_ascii_text_round_trips_to_bytes() {
    // Plain ASCII without backslashes passes through encode_text verbatim,
    // so what is typed into a program is exactly what its PTY receives.
    let t = "Hello World";
    assert_eq!(encode_text(t), t.as_bytes());
}

#[test]
fn click_at_detected_button_center_is_one_indexed() {
    let grid = ScreenGrid::from_text(&["[ OK ]  [ Cancel ]"], 20);
    let elements = detect(&grid, &ClassifyContext::new());
    let ok = elements
        .iter()
        .find(|e| e.kind == ElementKind::Button && e.text.contains("OK"))
        .expect("the OK button is detected");
    let center_col = ok.col + ok.width / 2;
    let bytes = encode_mouse_click_combined(center_col, ok.row);
    let expected_press = format!("\x1b[<0;{};{}M", center_col + 1, ok.row + 1);
    assert!(bytes.starts_with(expected_press.as_bytes()));
}

#[test]
fn scroll_cap_rejects_excess_amount() {
    assert!(check_scroll_amount(1000).is_ok());
    let err = check_scroll_amount(1001).unwrap_err();
    assert_eq!(err.code, ErrorCode::InvalidInput);
    assert!(err.message.contains("1001"));
}

#[test]
fn stale_socket_rule_never_unlinks_foreign_files() {
    assert_eq!(stale_socket_action(true, false, true), BindAction::RefuseAlive);
    assert_eq!(stale_socket_action(false, true, true), BindAction::RefuseSymlink);
    assert_eq!(stale_socket_action(false, false, false), BindAction::RefuseNotSocket);
    assert_eq!(stale_socket_action(false, false, true), BindAction::UnlinkAndRetry);
}

#[test]
fn detect_regions_composes_the_detectors() {
    let mut cells = Vec::new();
    let mut row = Vec::new();
    for c in "[ OK ]".chars() {
        row.push(pilotty::region::Cell::new(c));
    }
    cells.push(row);
    let regions = detect_regions(cells);
    assert_eq!(regions.len(), 1);
    assert_eq!(regions[0].text, "[ OK ]");
}

#[test]
fn default_timeout_is_thirty_seconds() {
    assert_eq!(default_snapshot_timeout(), 30000);
}

#[test]
fn success_and_error_responses_carry_the_request_id() {
    let ok = Response::success("req-9", ResponseData::Okay { message: "done".to_string() });
    assert_eq!(ok.id, "req-9");
    assert!(ok.success);
    let err = Response::error("req-9", pilotty::error::ApiError::no_sessions());
    assert_eq!(err.id, "req-9");
    assert!(!err.success);
    assert_eq!(err.error.unwrap().code, ErrorCode::SessionNotFound);
}

#[test]
fn wide_characters_shift_element_columns() {
    // The column of a token is the display width of what precedes it.
    let grid = ScreenGrid::from_text(&["你好[OK]"], 10);
    let elements = detect(&grid, &ClassifyContext::new());
    let btn = elements.iter().find(|e| e.text == "[OK]").expect("button found");
    assert_eq!(btn.col, 4, "two wide characters occupy four columns");
}

#[test]
fn text_contains_finds_substrings() {
    assert!(text_contains("version 1.2.3 ready", "1.2.3"));
    assert!(text_contains("abc", ""));
    assert!(text_contains("abc", "abc"));
    assert!(!text_contains("abc", "abd"));
    assert!(!text_contains("ab", "abc"));
}

#[test]
fn wait_for_match_reports_found_text() {
    let r = wait_for_outcome("version", Some("version 1.2.3".to_string()), false, 120)
        .expect("a match yields a result");
    match r {
        ResponseData::WaitForResult { found, matched_text, elapsed_ms } => {
            assert!(found);
            assert_eq!(matched_text.as_deref(), Some("version 1.2.3"));
            assert!(elapsed_ms < 5000);
        }
        _ => panic!("expected a wait-for result"),
    }
}

#[test]
fn wait_for_timeout_is_an_error_not_a_falsy_result() {
    let e = wait_for_outcome("Done", None, true, 30000).expect_err("a timeout is an error");
    assert_eq!(e.code, ErrorCode::CommandFailed);
    assert!(e.message.contains("Done"));
}
