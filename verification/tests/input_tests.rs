use pilotty::input::{
    encode_mouse_click, encode_mouse_click_combined, encode_scroll, encode_text, key_to_bytes,
    parse_key_combo, parse_key_sequence,
};
use pilotty::protocol::ScrollDirection;

#[test]
fn test_encode_text_plain() {
    assert_eq!(encode_text("hello"), b"hello");
    assert_eq!(encode_text("Hello World"), b"Hello World");
}

#[test]
fn test_encode_text_newline() {
    assert_eq!(encode_text("line1\\nline2"), b"line1\nline2");
}

#[test]
fn test_encode_text_tab() {
    assert_eq!(encode_text("col1\\tcol2"), b"col1\tcol2");
}

#[test]
fn test_encode_text_carriage_return() {
    assert_eq!(encode_text("text\\r"), b"text\r");
}

#[test]
fn test_encode_text_backslash() {
    assert_eq!(encode_text("path\\\\file"), b"path\\file");
}

#[test]
fn test_encode_text_hex_escape() {
    assert_eq!(encode_text("\\x1b"), vec![0x1b]);
    assert_eq!(encode_text("\\x00\\xff"), vec![0x00, 0xff]);
}

#[test]
fn test_encode_text_unicode() {
    let result = encode_text("hello 世界");
    assert_eq!(result, "hello 世界".as_bytes());
}

#[test]
fn test_key_to_bytes_enter() {
    assert_eq!(key_to_bytes("Enter", false), Some(b"\r".to_vec()));
    assert_eq!(key_to_bytes("ENTER", false), Some(b"\r".to_vec()));
    assert_eq!(key_to_bytes("enter", false), Some(b"\r".to_vec()));
}

#[test]
fn test_key_to_bytes_escape() {
    assert_eq!(key_to_bytes("Escape", false), Some(vec![0x1b]));
    assert_eq!(key_to_bytes("Esc", false), Some(vec![0x1b]));
}

#[test]
fn test_key_to_bytes_arrows_normal_mode() {
    assert_eq!(key_to_bytes("Up", false), Some(b"\x1b[A".to_vec()));
    assert_eq!(key_to_bytes("Down", false), Some(b"\x1b[B".to_vec()));
    assert_eq!(key_to_bytes("Right", false), Some(b"\x1b[C".to_vec()));
    assert_eq!(key_to_bytes("Left", false), Some(b"\x1b[D".to_vec()));
}

#[test]
fn test_key_to_bytes_arrows_application_mode() {
    assert_eq!(key_to_bytes("Up", true), Some(b"\x1bOA".to_vec()));
    assert_eq!(key_to_bytes("Down", true), Some(b"\x1bOB".to_vec()));
    assert_eq!(key_to_bytes("Right", true), Some(b"\x1bOC".to_vec()));
    assert_eq!(key_to_bytes("Left", true), Some(b"\x1bOD".to_vec()));
}

#[test]
fn test_key_to_bytes_function_keys() {
    assert_eq!(key_to_bytes("F1", false), Some(b"\x1bOP".to_vec()));
    assert_eq!(key_to_bytes("F5", false), Some(b"\x1b[15~".to_vec()));
    assert_eq!(key_to_bytes("F12", false), Some(b"\x1b[24~".to_vec()));
}

#[test]
fn test_key_to_bytes_unknown() {
    assert_eq!(key_to_bytes("NotAKey", false), None);
}

#[test]
fn test_key_to_bytes_plus() {
    assert_eq!(key_to_bytes("plus", false), Some(b"+".to_vec()));
    assert_eq!(key_to_bytes("Plus", false), Some(b"+".to_vec()));
    assert_eq!(key_to_bytes("PLUS", false), Some(b"+".to_vec()));
}

#[test]
fn test_parse_key_combo_ctrl_c() {
    assert_eq!(parse_key_combo("Ctrl+C", false), Some(vec![0x03]));
    assert_eq!(parse_key_combo("ctrl+c", false), Some(vec![0x03]));
}

#[test]
fn test_parse_key_combo_ctrl_letters() {
    assert_eq!(parse_key_combo("Ctrl+A", false), Some(vec![0x01]));
    assert_eq!(parse_key_combo("Ctrl+Z", false), Some(vec![0x1a]));
    assert_eq!(parse_key_combo("Ctrl+S", false), Some(vec![0x13]));
    assert_eq!(parse_key_combo("Ctrl+Q", false), Some(vec![0x11]));
}

#[test]
fn test_parse_key_combo_alt_letter() {
    assert_eq!(parse_key_combo("Alt+f", false), Some(vec![0x1b, b'f']));
    assert_eq!(parse_key_combo("Alt+F", false), Some(vec![0x1b, b'F']));
}

#[test]
fn test_parse_key_combo_ctrl_alt() {
    assert_eq!(parse_key_combo("Ctrl+Alt+C", false), Some(vec![0x1b, 0x03]));
}

#[test]
fn test_parse_key_combo_named_key() {
    assert_eq!(parse_key_combo("Enter", false), Some(b"\r".to_vec()));
    assert_eq!(parse_key_combo("Tab", false), Some(b"\t".to_vec()));
}

#[test]
fn test_parse_key_combo_alt_named_key() {
    let result = parse_key_combo("Alt+Enter", false);
    assert_eq!(result, Some(vec![0x1b, b'\r']));
}

#[test]
fn test_parse_key_combo_shift() {
    assert_eq!(parse_key_combo("Shift+a", false), Some(b"A".to_vec()));
}

#[test]
fn test_parse_key_combo_ctrl_special() {
    assert_eq!(parse_key_combo("Ctrl+[", false), Some(vec![0x1b]));
    assert_eq!(parse_key_combo("Ctrl+Space", false), Some(vec![0x00]));
}

#[test]
fn test_parse_key_combo_alt_arrow_application_mode() {
    let result = parse_key_combo("Alt+Up", true);
    assert_eq!(result, Some(vec![0x1b, 0x1b, b'O', b'A']));
}

#[test]
fn test_encode_mouse_click() {
    let (press, release) = encode_mouse_click(0, 0);
    assert_eq!(press, b"\x1b[<0;1;1M");
    assert_eq!(release, b"\x1b[<0;1;1m");
}

#[test]
fn test_encode_mouse_click_position() {
    let (press, release) = encode_mouse_click(10, 5);
    assert_eq!(press, b"\x1b[<0;11;6M");
    assert_eq!(release, b"\x1b[<0;11;6m");
}

#[test]
fn test_encode_mouse_click_combined() {
    let combined = encode_mouse_click_combined(5, 3);
    assert!(combined.starts_with(b"\x1b[<0;6;4M"));
    assert!(combined.ends_with(b"\x1b[<0;6;4m"));
}

#[test]
fn test_encode_scroll_up() {
    let scroll = encode_scroll(ScrollDirection::Up, 10, 5);
    assert_eq!(scroll, b"\x1b[<64;11;6M");
}

#[test]
fn test_encode_scroll_down() {
    let scroll = encode_scroll(ScrollDirection::Down, 10, 5);
    assert_eq!(scroll, b"\x1b[<65;11;6M");
}

#[test]
fn test_parse_key_sequence_single_key() {
    let seq = parse_key_sequence("Enter", false).unwrap();
    assert_eq!(seq.len(), 1);
    assert_eq!(seq[0], b"\r".to_vec());
}

#[test]
fn test_parse_key_sequence_single_combo() {
    let seq = parse_key_sequence("Ctrl+C", false).unwrap();
    assert_eq!(seq.len(), 1);
    assert_eq!(seq[0], vec![0x03]);
}

#[test]
fn test_parse_key_sequence_emacs_chord() {
    let seq = parse_key_sequence("Ctrl+X m", false).unwrap();
    assert_eq!(seq.len(), 2);
    assert_eq!(seq[0], vec![0x18]);
    assert_eq!(seq[1], b"m".to_vec());
}

#[test]
fn test_parse_key_sequence_vim_wq() {
    let seq = parse_key_sequence("Escape : w q Enter", false).unwrap();
    assert_eq!(seq.len(), 5);
    assert_eq!(seq[0], vec![0x1b]);
    assert_eq!(seq[1], b":".to_vec());
    assert_eq!(seq[2], b"w".to_vec());
    assert_eq!(seq[3], b"q".to_vec());
    assert_eq!(seq[4], b"\r".to_vec());
}

#[test]
fn test_parse_key_sequence_emacs_save() {
    let seq = parse_key_sequence("Ctrl+X Ctrl+S", false).unwrap();
    assert_eq!(seq.len(), 2);
    assert_eq!(seq[0], vec![0x18]);
    assert_eq!(seq[1], vec![0x13]);
}

#[test]
fn test_parse_key_sequence_with_space_key() {
    let seq = parse_key_sequence("a Space b", false).unwrap();
    assert_eq!(seq.len(), 3);
    assert_eq!(seq[0], b"a".to_vec());
    assert_eq!(seq[1], b" ".to_vec());
    assert_eq!(seq[2], b"b".to_vec());
}

#[test]
fn test_parse_key_sequence_handles_extra_whitespace() {
    let seq = parse_key_sequence("Ctrl+X   m", false).unwrap();
    assert_eq!(seq.len(), 2);
    assert_eq!(seq[0], vec![0x18]);
    assert_eq!(seq[1], b"m".to_vec());
}

#[test]
fn test_parse_key_sequence_empty_returns_none() {
    assert!(parse_key_sequence("", false).is_none());
    assert!(parse_key_sequence("   ", false).is_none());
}

#[test]
fn test_parse_key_sequence_invalid_key_returns_none() {
    assert!(parse_key_sequence("Ctrl+X NotAKey", false).is_none());
}

#[test]
fn test_parse_key_sequence_application_cursor_mode() {
    let seq = parse_key_sequence("Up Down", true).unwrap();
    assert_eq!(seq.len(), 2);
    assert_eq!(seq[0], b"\x1bOA".to_vec());
    assert_eq!(seq[1], b"\x1bOB".to_vec());
}
