use pilotty::paths::{get_pid_path, get_socket_path, sanitize_session_name};

#[test]
fn test_sanitize_valid_names() {
    assert_eq!(sanitize_session_name("default"), "default");
    assert_eq!(sanitize_session_name("session1"), "session1");
    assert_eq!(sanitize_session_name("MySession"), "MySession");

    assert_eq!(sanitize_session_name("my-session"), "my-session");
    assert_eq!(sanitize_session_name("my_session"), "my_session");
    assert_eq!(sanitize_session_name("my-session_123"), "my-session_123");

    assert_eq!(sanitize_session_name("_private"), "_private");
}

#[test]
fn test_sanitize_path_traversal_attacks() {
    assert_eq!(sanitize_session_name("../../../etc/passwd"), "default");
    assert_eq!(sanitize_session_name(".."), "default");
    assert_eq!(sanitize_session_name("foo/../bar"), "default");

    assert_eq!(sanitize_session_name("foo/bar"), "default");
    assert_eq!(sanitize_session_name("/etc/passwd"), "default");
    assert_eq!(sanitize_session_name("..\\..\\windows"), "default");
}

#[test]
fn test_sanitize_empty_and_whitespace() {
    assert_eq!(sanitize_session_name(""), "default");
    assert_eq!(sanitize_session_name(" "), "default");
    assert_eq!(sanitize_session_name("  "), "default");
    assert_eq!(sanitize_session_name("\t"), "default");
    assert_eq!(sanitize_session_name("\n"), "default");
}

#[test]
fn test_sanitize_hyphen_at_start() {
    assert_eq!(sanitize_session_name("-session"), "default");
    assert_eq!(sanitize_session_name("--session"), "default");
    assert_eq!(sanitize_session_name("-"), "default");
}

#[test]
fn test_sanitize_special_characters() {
    assert_eq!(sanitize_session_name("session!"), "default");
    assert_eq!(sanitize_session_name("session@home"), "default");
    assert_eq!(sanitize_session_name("session#1"), "default");
    assert_eq!(sanitize_session_name("session$var"), "default");
    assert_eq!(sanitize_session_name("session%20"), "default");
    assert_eq!(sanitize_session_name("session&more"), "default");
    assert_eq!(sanitize_session_name("session;rm -rf"), "default");
    assert_eq!(sanitize_session_name("session|cat"), "default");
    assert_eq!(sanitize_session_name("session`id`"), "default");
    assert_eq!(sanitize_session_name("$(whoami)"), "default");
}

#[test]
fn test_sanitize_null_bytes() {
    assert_eq!(sanitize_session_name("session\0evil"), "default");
    assert_eq!(sanitize_session_name("\0"), "default");
}

#[test]
fn test_socket_path_sanitizes_session() {
    assert_eq!(
        get_socket_path("/tmp/test", "../../../etc/passwd"),
        "/tmp/test/default.sock"
    );
}

#[test]
fn test_socket_and_pid_paths() {
    assert_eq!(get_socket_path("/tmp/test", "my-session"), "/tmp/test/my-session.sock");
    assert_eq!(get_pid_path("/tmp/test", "my-session"), "/tmp/test/my-session.pid");
    assert_eq!(get_socket_path("/tmp/test", "default"), "/tmp/test/default.sock");
}
