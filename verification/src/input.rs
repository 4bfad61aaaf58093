//! Input encoding for terminal sessions: text with escape sequences, named
//! keys and modifier combos, and SGR mouse events.

use vstd::prelude::*;

use crate::chars::{
    chars_of, spec_lower_seq, spec_split, spec_split_ws, split_char, split_whitespace_chars,
    ascii_upper_char,
};
use crate::protocol::ScrollDirection;

verus! {

/// The value of a hexadecimal digit, or -1.
pub open spec fn spec_hex_val(c: char) -> int {
    if 0x30 <= (c as u32) && (c as u32) <= 0x39 {
        (c as u32) - 0x30
    } else if 0x61 <= (c as u32) && (c as u32) <= 0x66 {
        (c as u32) - 0x57
    } else if 0x41 <= (c as u32) && (c as u32) <= 0x46 {
        (c as u32) - 0x37
    } else {
        -1
    }
}

fn hex_val(c: char) -> (r: Option<u8>)
    ensures
        spec_hex_val(c) >= 0 ==> (r matches Some(v) && v == spec_hex_val(c)),
        spec_hex_val(c) < 0 ==> r is None,
{
    let u = c as u32;
    if 0x30 <= u && u <= 0x39 {
        Some((u - 0x30) as u8)
    } else if 0x61 <= u && u <= 0x66 {
        Some((u - 0x57) as u8)
    } else if 0x41 <= u && u <= 0x46 {
        Some((u - 0x37) as u8)
    } else {
        None
    }
}

/// The UTF-8 bytes of one character, by the standard leading-byte and
/// continuation-byte formulas.
fn char_utf8_bytes(c: char) -> (v: Vec<u8>)
    ensures
        v@ == vstd::utf8::encode_scalar(c as u32),
{
    proof {
        vstd::utf8::char_is_scalar(c);
    }
    let u = c as u32;
    let mut v: Vec<u8> = Vec::new();
    if u <= 0x7f {
        v.push((u & 0x7f) as u8);
        proof {
            assert(v@ =~= vstd::utf8::encode_scalar(c as u32));
        }
    } else if u <= 0x7ff {
        v.push(0xc0u8 | ((u >> 6) & 0x1f) as u8);
        v.push(0x80u8 | (u & 0x3f) as u8);
        proof {
            assert(v@ =~= vstd::utf8::encode_scalar(c as u32));
        }
    } else if u <= 0xffff {
        v.push(0xe0u8 | ((u >> 12) & 0x0f) as u8);
        v.push(0x80u8 | ((u >> 6) & 0x3f) as u8);
        v.push(0x80u8 | (u & 0x3f) as u8);
        proof {
            assert(v@ =~= vstd::utf8::encode_scalar(c as u32));
        }
    } else {
        v.push(0xf0u8 | ((u >> 18) & 0x7) as u8);
        v.push(0x80u8 | ((u >> 12) & 0x3f) as u8);
        v.push(0x80u8 | ((u >> 6) & 0x3f) as u8);
        v.push(0x80u8 | (u & 0x3f) as u8);
        proof {
            assert(v@ =~= vstd::utf8::encode_scalar(c as u32));
        }
    }
    v
}

/// Text encoded for PTY input. Backslash escapes `\n`, `\r`, `\t`, `\\`
/// and `\xNN` become single bytes; a failed `\x` escape is passed through
/// literally; everything else is passed through as UTF-8.
pub open spec fn spec_encode_text(s: Seq<char>) -> Seq<u8>
    decreases s.len(),
{
    if s.len() == 0 {
        Seq::empty()
    } else if s[0] == '\\' && s.len() >= 2 && s[1] == 'n' {
        seq![0x0au8] + spec_encode_text(s.skip(2))
    } else if s[0] == '\\' && s.len() >= 2 && s[1] == 'r' {
        seq![0x0du8] + spec_encode_text(s.skip(2))
    } else if s[0] == '\\' && s.len() >= 2 && s[1] == 't' {
        seq![0x09u8] + spec_encode_text(s.skip(2))
    } else if s[0] == '\\' && s.len() >= 2 && s[1] == '\\' {
        seq![0x5cu8] + spec_encode_text(s.skip(2))
    } else if s[0] == '\\' && s.len() >= 2 && s[1] == 'x' {
        if s.len() >= 4 && spec_hex_val(s[2]) >= 0 && spec_hex_val(s[3]) >= 0 {
            seq![(16 * spec_hex_val(s[2]) + spec_hex_val(s[3])) as u8] + spec_encode_text(
                s.skip(4),
            )
        } else {
            // the taken characters are echoed back after a literal `\x`
            seq![0x5cu8, 0x78u8] + vstd::utf8::encode_utf8(s.subrange(2, spec_min4(s.len() as int)))
                + spec_encode_text(s.skip(spec_min4(s.len() as int)))
        }
    } else if s[0] == '\\' {
        seq![0x5cu8] + spec_encode_text(s.skip(1))
    } else {
        vstd::utf8::encode_scalar(s[0] as u32) + spec_encode_text(s.skip(1))
    }
}

/// Text without backslashes passes through text encoding verbatim: what
/// a client types reaches the PTY as exactly its UTF-8 bytes, so text
/// echoed back by a program reads the same.
pub proof fn lemma_encode_text_plain(s: Seq<char>)
    requires
        forall|i: int| 0 <= i < s.len() ==> s[i] != '\\',
    ensures
        spec_encode_text(s) == vstd::utf8::encode_utf8(s),
    decreases s.len(),
{
    if s.len() > 0 {
        assert(s[0] != '\\');
        assert forall|i: int| 0 <= i < s.drop_first().len() implies s.drop_first()[i] != '\\' by {
            assert(s.drop_first()[i] == s[i + 1]);
        }
        lemma_encode_text_plain(s.drop_first());
        assert(s.skip(1) =~= s.drop_first());
        assert(vstd::utf8::encode_utf8(s) == vstd::utf8::encode_scalar(s[0] as u32)
            + vstd::utf8::encode_utf8(s.drop_first()));
    } else {
        assert(vstd::utf8::encode_utf8(s) =~= Seq::<u8>::empty());
    }
}

/// The smaller of `n` and 4.
pub open spec fn spec_min4(n: int) -> int {
    if n < 4 {
        n
    } else {
        4
    }
}

/// Encode text for PTY input, decoding the escape sequences `\n`, `\r`,
/// `\t`, `\\` and `\xNN`; other text passes through as UTF-8.
pub fn encode_text(text: &str) -> (r: Vec<u8>)
    ensures
        r@ == spec_encode_text(text@),
{
    let v = chars_of(text);
    let n = v.len();
    let mut out: Vec<u8> = Vec::new();
    let mut i: usize = 0;
    assert(v@.skip(0) =~= v@);
    while i < n
        invariant
            n == v@.len(),
            i <= n,
            spec_encode_text(v@) =~= out@ + spec_encode_text(v@.skip(i as int)),
        decreases n - i,
    {
        let ghost rest = v@.skip(i as int);
        proof {
            assert(rest[0] == v@[i as int]);
        }
        let c = v[i];
        if c == '\\' && i + 1 >= n {
            out.push(0x5c);
            proof {
                assert(rest.skip(1) =~= v@.skip(i + 1));
            }
            i = i + 1;
        } else if c == '\\' {
            let e = v[i + 1];
            proof {
                assert(rest[1] == v@[i + 1]);
            }
            if e == 'n' {
                out.push(0x0a);
                proof {
                    assert(rest.skip(2) =~= v@.skip(i + 2));
                }
                i = i + 2;
            } else if e == 'r' {
                out.push(0x0d);
                proof {
                    assert(rest.skip(2) =~= v@.skip(i + 2));
                }
                i = i + 2;
            } else if e == 't' {
                out.push(0x09);
                proof {
                    assert(rest.skip(2) =~= v@.skip(i + 2));
                }
                i = i + 2;
            } else if e == '\\' {
                out.push(0x5c);
                proof {
                    assert(rest.skip(2) =~= v@.skip(i + 2));
                }
                i = i + 2;
            } else if e == 'x' {
                let have_two = n - i > 3;
                let h1: Option<u8> = if have_two {
                    hex_val(v[i + 2])
                } else {
                    None
                };
                let h2: Option<u8> = if have_two {
                    hex_val(v[i + 3])
                } else {
                    None
                };
                proof {
                    if n - i > 3 {
                        assert(rest[2] == v@[i + 2]);
                        assert(rest[3] == v@[i + 3]);
                    } else if n - i > 2 {
                        assert(rest[2] == v@[i + 2]);
                    }
                }
                match (h1, h2) {
                    (Some(a), Some(b)) => {
                        out.push(16 * a + b);
                        proof {
                            assert(rest.skip(4) =~= v@.skip(i + 4));
                        }
                        i = i + 4;
                    },
                    _ => {
                        out.push(0x5c);
                        out.push(0x78);
                        let take: usize = if n - i < 4 {
                            n - i
                        } else {
                            4
                        };
                        let ghost sub = rest.subrange(2, spec_min4(rest.len() as int));
                        proof {
                            assert(sub =~= v@.subrange(i + 2, i + take));
                            assert(rest.skip(spec_min4(rest.len() as int)) =~= v@.skip(
                                i + take,
                            ));
                        }
                        if n - i > 2 {
                            let mut b1 = char_utf8_bytes(v[i + 2]);
                            out.append(&mut b1);
                            proof {
                                assert(sub[0] == v@[i + 2]);
                            }
                        }
                        if n - i > 3 {
                            let mut b2 = char_utf8_bytes(v[i + 3]);
                            out.append(&mut b2);
                            proof {
                                assert(sub[1] == v@[i + 3]);
                            }
                        }
                        proof {
                            assert(vstd::utf8::encode_utf8(Seq::<char>::empty()) =~= Seq::<
                                u8,
                            >::empty());
                            if sub.len() == 0 {
                                assert(vstd::utf8::encode_utf8(sub) =~= Seq::<u8>::empty());
                            } else if sub.len() == 1 {
                                assert(sub.drop_first() =~= Seq::<char>::empty());
                                assert(vstd::utf8::encode_utf8(sub) == vstd::utf8::encode_scalar(
                                    sub[0] as u32,
                                ) + vstd::utf8::encode_utf8(sub.drop_first()));
                                assert(vstd::utf8::encode_utf8(sub)
                                    =~= vstd::utf8::encode_scalar(sub[0] as u32));
                            } else {
                                let s1 = sub.drop_first();
                                assert(sub.len() == 2);
                                assert(s1.drop_first() =~= Seq::<char>::empty());
                                assert(s1[0] == sub[1]);
                                assert(vstd::utf8::encode_utf8(s1) == vstd::utf8::encode_scalar(
                                    s1[0] as u32,
                                ) + vstd::utf8::encode_utf8(s1.drop_first()));
                                assert(vstd::utf8::encode_utf8(sub) == vstd::utf8::encode_scalar(
                                    sub[0] as u32,
                                ) + vstd::utf8::encode_utf8(s1));
                                assert(vstd::utf8::encode_utf8(sub)
                                    =~= vstd::utf8::encode_scalar(sub[0] as u32)
                                    + vstd::utf8::encode_scalar(sub[1] as u32));
                            }
                        }
                        i = i + take;
                    },
                }
            } else {
                out.push(0x5c);
                proof {
                    assert(rest.skip(1) =~= v@.skip(i + 1));
                }
                i = i + 1;
            }
        } else {
            let mut bs = char_utf8_bytes(c);
            out.append(&mut bs);
            proof {
                assert(rest.skip(1) =~= v@.skip(i + 1));
            }
            i = i + 1;
        }
    }
    assert(v@.skip(n as int).len() == 0);
    out
}

/// The byte sequence of a named key, compared case-insensitively, or
/// `None` for an unrecognized name. Arrow keys use CSI encodings in normal
/// mode and SS3 encodings when application-cursor mode is on.
pub open spec fn spec_key_bytes(k: Seq<char>, app: bool) -> Option<Seq<u8>> {
    let lk = spec_lower_seq(k);
    if lk == "up"@ || lk == "arrowup"@ {
        Some(
            if app {
                seq![0x1bu8, 0x4fu8, 0x41u8]
            } else {
                seq![0x1bu8, 0x5bu8, 0x41u8]
            },
        )
    } else if lk == "down"@ || lk == "arrowdown"@ {
        Some(
            if app {
                seq![0x1bu8, 0x4fu8, 0x42u8]
            } else {
                seq![0x1bu8, 0x5bu8, 0x42u8]
            },
        )
    } else if lk == "right"@ || lk == "arrowright"@ {
        Some(
            if app {
                seq![0x1bu8, 0x4fu8, 0x43u8]
            } else {
                seq![0x1bu8, 0x5bu8, 0x43u8]
            },
        )
    } else if lk == "left"@ || lk == "arrowleft"@ {
        Some(
            if app {
                seq![0x1bu8, 0x4fu8, 0x44u8]
            } else {
                seq![0x1bu8, 0x5bu8, 0x44u8]
            },
        )
    } else if lk == "enter"@ || lk == "return"@ {
        Some(seq![0x0du8])
    } else if lk == "tab"@ {
        Some(seq![0x09u8])
    } else if lk == "escape"@ || lk == "esc"@ {
        Some(seq![0x1bu8])
    } else if lk == "backspace"@ {
        Some(seq![0x7fu8])
    } else if lk == "delete"@ || lk == "del"@ {
        Some(seq![0x1bu8, 0x5bu8, 0x33u8, 0x7eu8])
    } else if lk == "space"@ {
        Some(seq![0x20u8])
    } else if lk == "plus"@ {
        Some(seq![0x2bu8])
    } else if lk == "home"@ {
        Some(seq![0x1bu8, 0x5bu8, 0x48u8])
    } else if lk == "end"@ {
        Some(seq![0x1bu8, 0x5bu8, 0x46u8])
    } else if lk == "pageup"@ || lk == "pgup"@ {
        Some(seq![0x1bu8, 0x5bu8, 0x35u8, 0x7eu8])
    } else if lk == "pagedown"@ || lk == "pgdn"@ {
        Some(seq![0x1bu8, 0x5bu8, 0x36u8, 0x7eu8])
    } else if lk == "insert"@ || lk == "ins"@ {
        Some(seq![0x1bu8, 0x5bu8, 0x32u8, 0x7eu8])
    } else if lk == "f1"@ {
        Some(seq![0x1bu8, 0x4fu8, 0x50u8])
    } else if lk == "f2"@ {
        Some(seq![0x1bu8, 0x4fu8, 0x51u8])
    } else if lk == "f3"@ {
        Some(seq![0x1bu8, 0x4fu8, 0x52u8])
    } else if lk == "f4"@ {
        Some(seq![0x1bu8, 0x4fu8, 0x53u8])
    } else if lk == "f5"@ {
        Some(seq![0x1bu8, 0x5bu8, 0x31u8, 0x35u8, 0x7eu8])
    } else if lk == "f6"@ {
        Some(seq![0x1bu8, 0x5bu8, 0x31u8, 0x37u8, 0x7eu8])
    } else if lk == "f7"@ {
        Some(seq![0x1bu8, 0x5bu8, 0x31u8, 0x38u8, 0x7eu8])
    } else if lk == "f8"@ {
        Some(seq![0x1bu8, 0x5bu8, 0x31u8, 0x39u8, 0x7eu8])
    } else if lk == "f9"@ {
        Some(seq![0x1bu8, 0x5bu8, 0x32u8, 0x30u8, 0x7eu8])
    } else if lk == "f10"@ {
        Some(seq![0x1bu8, 0x5bu8, 0x32u8, 0x31u8, 0x7eu8])
    } else if lk == "f11"@ {
        Some(seq![0x1bu8, 0x5bu8, 0x32u8, 0x33u8, 0x7eu8])
    } else if lk == "f12"@ {
        Some(seq![0x1bu8, 0x5bu8, 0x32u8, 0x34u8, 0x7eu8])
    } else {
        None
    }
}

/// The escape sequence for a named key such as `Enter`, `F5` or `Up`,
/// case-insensitively, or `None` if the name is not recognized.
pub fn key_to_bytes(key: &str, application_cursor: bool) -> (r: Option<Vec<u8>>)
    ensures
        match spec_key_bytes(key@, application_cursor) {
            Some(b) => r matches Some(v) && v@ == b,
            None => r is None,
        },
{
    let ks = chars_of(key);
    let lk = crate::chars::lower_chars(&ks);
    let app = application_cursor;
    if crate::chars::chars_eq_str(&lk, "up") || crate::chars::chars_eq_str(&lk, "arrowup") {
        Some(
            if app {
                vec![0x1b, 0x4f, 0x41]
            } else {
                vec![0x1b, 0x5b, 0x41]
            },
        )
    } else if crate::chars::chars_eq_str(&lk, "down") || crate::chars::chars_eq_str(
        &lk,
        "arrowdown",
    ) {
        Some(
            if app {
                vec![0x1b, 0x4f, 0x42]
            } else {
                vec![0x1b, 0x5b, 0x42]
            },
        )
    } else if crate::chars::chars_eq_str(&lk, "right") || crate::chars::chars_eq_str(
        &lk,
        "arrowright",
    ) {
        Some(
            if app {
                vec![0x1b, 0x4f, 0x43]
            } else {
                vec![0x1b, 0x5b, 0x43]
            },
        )
    } else if crate::chars::chars_eq_str(&lk, "left") || crate::chars::chars_eq_str(
        &lk,
        "arrowleft",
    ) {
        Some(
            if app {
                vec![0x1b, 0x4f, 0x44]
            } else {
                vec![0x1b, 0x5b, 0x44]
            },
        )
    } else if crate::chars::chars_eq_str(&lk, "enter") || crate::chars::chars_eq_str(
        &lk,
        "return",
    ) {
        Some(vec![0x0d])
    } else if crate::chars::chars_eq_str(&lk, "tab") {
        Some(vec![0x09])
    } else if crate::chars::chars_eq_str(&lk, "escape") || crate::chars::chars_eq_str(
        &lk,
        "esc",
    ) {
        Some(vec![0x1b])
    } else if crate::chars::chars_eq_str(&lk, "backspace") {
        Some(vec![0x7f])
    } else if crate::chars::chars_eq_str(&lk, "delete") || crate::chars::chars_eq_str(
        &lk,
        "del",
    ) {
        Some(vec![0x1b, 0x5b, 0x33, 0x7e])
    } else if crate::chars::chars_eq_str(&lk, "space") {
        Some(vec![0x20])
    } else if crate::chars::chars_eq_str(&lk, "plus") {
        Some(vec![0x2b])
    } else if crate::chars::chars_eq_str(&lk, "home") {
        Some(vec![0x1b, 0x5b, 0x48])
    } else if crate::chars::chars_eq_str(&lk, "end") {
        Some(vec![0x1b, 0x5b, 0x46])
    } else if crate::chars::chars_eq_str(&lk, "pageup") || crate::chars::chars_eq_str(
        &lk,
        "pgup",
    ) {
        Some(vec![0x1b, 0x5b, 0x35, 0x7e])
    } else if crate::chars::chars_eq_str(&lk, "pagedown") || crate::chars::chars_eq_str(
        &lk,
        "pgdn",
    ) {
        Some(vec![0x1b, 0x5b, 0x36, 0x7e])
    } else if crate::chars::chars_eq_str(&lk, "insert") || crate::chars::chars_eq_str(
        &lk,
        "ins",
    ) {
        Some(vec![0x1b, 0x5b, 0x32, 0x7e])
    } else if crate::chars::chars_eq_str(&lk, "f1") {
        Some(vec![0x1b, 0x4f, 0x50])
    } else if crate::chars::chars_eq_str(&lk, "f2") {
        Some(vec![0x1b, 0x4f, 0x51])
    } else if crate::chars::chars_eq_str(&lk, "f3") {
        Some(vec![0x1b, 0x4f, 0x52])
    } else if crate::chars::chars_eq_str(&lk, "f4") {
        Some(vec![0x1b, 0x4f, 0x53])
    } else if crate::chars::chars_eq_str(&lk, "f5") {
        Some(vec![0x1b, 0x5b, 0x31, 0x35, 0x7e])
    } else if crate::chars::chars_eq_str(&lk, "f6") {
        Some(vec![0x1b, 0x5b, 0x31, 0x37, 0x7e])
    } else if crate::chars::chars_eq_str(&lk, "f7") {
        Some(vec![0x1b, 0x5b, 0x31, 0x38, 0x7e])
    } else if crate::chars::chars_eq_str(&lk, "f8") {
        Some(vec![0x1b, 0x5b, 0x31, 0x39, 0x7e])
    } else if crate::chars::chars_eq_str(&lk, "f9") {
        Some(vec![0x1b, 0x5b, 0x32, 0x30, 0x7e])
    } else if crate::chars::chars_eq_str(&lk, "f10") {
        Some(vec![0x1b, 0x5b, 0x32, 0x31, 0x7e])
    } else if crate::chars::chars_eq_str(&lk, "f11") {
        Some(vec![0x1b, 0x5b, 0x32, 0x33, 0x7e])
    } else if crate::chars::chars_eq_str(&lk, "f12") {
        Some(vec![0x1b, 0x5b, 0x32, 0x34, 0x7e])
    } else {
        None
    }
}

/// Whether a combo part names the Ctrl modifier.
pub open spec fn spec_is_ctrl(p: Seq<char>) -> bool {
    spec_lower_seq(p) == "ctrl"@ || spec_lower_seq(p) == "control"@
}

/// Whether a combo part names the Alt modifier.
pub open spec fn spec_is_alt(p: Seq<char>) -> bool {
    spec_lower_seq(p) == "alt"@ || spec_lower_seq(p) == "meta"@ || spec_lower_seq(p)
        == "option"@
}

/// Whether a combo part names the Shift modifier.
pub open spec fn spec_is_shift(p: Seq<char>) -> bool {
    spec_lower_seq(p) == "shift"@
}

/// Whether a combo part names any modifier.
pub open spec fn spec_is_mod(p: Seq<char>) -> bool {
    spec_is_ctrl(p) || spec_is_alt(p) || spec_is_shift(p)
}

/// The last part of a combo that is not a modifier name, or empty.
pub open spec fn spec_key_part(parts: Seq<Seq<char>>) -> Seq<char>
    decreases parts.len(),
{
    if parts.len() == 0 {
        Seq::empty()
    } else if !spec_is_mod(parts.last()) {
        parts.last()
    } else {
        spec_key_part(parts.drop_last())
    }
}

/// The control byte sent for Ctrl plus a character, or `None`.
pub open spec fn spec_ctrl_byte(c: char) -> Option<u8> {
    if crate::chars::spec_is_ascii_alpha(c) {
        Some(((crate::chars::spec_ascii_upper(c) as u32) - 0x40) as u8)
    } else if c == '[' || c == '3' {
        Some(0x1bu8)
    } else if c == '\\' || c == '4' {
        Some(0x1cu8)
    } else if c == ']' || c == '5' {
        Some(0x1du8)
    } else if c == '^' || c == '6' {
        Some(0x1eu8)
    } else if c == '_' || c == '7' {
        Some(0x1fu8)
    } else if c == '@' || c == '2' || c == ' ' {
        Some(0x00u8)
    } else if c == '?' {
        Some(0x7fu8)
    } else {
        None
    }
}

/// The bytes sent for a key combo such as `Ctrl+C` or `Alt+Enter`:
/// the combo is split on `+`; the last non-modifier part is the key.
/// Ctrl turns a character into its control byte, Alt prefixes an escape,
/// Shift upper-cases an ASCII letter; a named key takes only the Alt
/// prefix. `None` when no key remains or the key is unknown.
pub open spec fn spec_parse_combo(k: Seq<char>, app: bool) -> Option<Seq<u8>> {
    let parts = spec_split(k, '+');
    let ctrl = exists|i: int| 0 <= i < parts.len() && spec_is_ctrl(#[trigger] parts[i]);
    let alt = exists|i: int| 0 <= i < parts.len() && spec_is_alt(#[trigger] parts[i]);
    let shift = exists|i: int| 0 <= i < parts.len() && spec_is_shift(#[trigger] parts[i]);
    let kp = spec_key_part(parts);
    let esc: Seq<u8> = if alt {
        seq![0x1bu8]
    } else {
        Seq::empty()
    };
    if kp.len() == 0 {
        None
    } else if ctrl && spec_lower_seq(kp) == "space"@ {
        Some(esc + seq![0x00u8])
    } else if spec_key_bytes(kp, app) is Some {
        Some(esc + spec_key_bytes(kp, app)->Some_0)
    } else if kp.len() == 1 {
        let c = if shift {
            crate::chars::spec_ascii_upper(kp[0])
        } else {
            kp[0]
        };
        if ctrl {
            match spec_ctrl_byte(c) {
                Some(b) => Some(esc + seq![b]),
                None => None,
            }
        } else if alt {
            Some(seq![0x1bu8] + vstd::utf8::encode_scalar(c as u32))
        } else {
            Some(vstd::utf8::encode_scalar(c as u32))
        }
    } else {
        None
    }
}

/// Parse a key combo like `Ctrl+C` or `Alt+F` into the bytes it sends.
pub fn parse_key_combo(combo: &str, application_cursor: bool) -> (r: Option<Vec<u8>>)
    ensures
        match spec_parse_combo(combo@, application_cursor) {
            Some(b) => r matches Some(v) && v@ == b,
            None => r is None,
        },
{
    let cs = chars_of(combo);
    let parts = split_char(&cs, '+');
    let ghost sparts = spec_split(combo@, '+');
    proof {
        assert(parts@.map_values(|p: Vec<char>| p@) == sparts);
    }
    let n = parts.len();
    let mut ctrl = false;
    let mut alt = false;
    let mut shift = false;
    let mut key_idx: Option<usize> = None;
    assert(sparts.take(0) =~= Seq::<Seq<char>>::empty());
    for i in 0..n
        invariant
            n == parts@.len(),
            parts@.map_values(|p: Vec<char>| p@) == sparts,
            ctrl == exists|j: int|
                0 <= j < i && spec_is_ctrl(#[trigger] sparts[j]),
            alt == exists|j: int| 0 <= j < i && spec_is_alt(#[trigger] sparts[j]),
            shift == exists|j: int| 0 <= j < i && spec_is_shift(#[trigger] sparts[j]),
            match key_idx {
                Some(ki) => ki < i && !spec_is_mod(sparts[ki as int]) && spec_key_part(
                    sparts.take(i as int),
                ) == sparts[ki as int],
                None => spec_key_part(sparts.take(i as int)) =~= Seq::<char>::empty()
                    && spec_key_part(sparts.take(i as int)).len() == 0,
            },
    {
        let low = crate::chars::lower_chars(&parts[i]);
        proof {
            assert(parts@.map_values(|p: Vec<char>| p@)[i as int] == parts@[i as int]@);
            assert(sparts.take(i + 1).drop_last() =~= sparts.take(i as int));
            assert(sparts.take(i + 1).last() == sparts[i as int]);
        }
        let is_c = crate::chars::chars_eq_str(&low, "ctrl") || crate::chars::chars_eq_str(
            &low,
            "control",
        );
        let is_a = crate::chars::chars_eq_str(&low, "alt") || crate::chars::chars_eq_str(
            &low,
            "meta",
        ) || crate::chars::chars_eq_str(&low, "option");
        let is_s = crate::chars::chars_eq_str(&low, "shift");
        if is_c {
            ctrl = true;
        }
        if is_a {
            alt = true;
        }
        if is_s {
            shift = true;
        }
        if !is_c && !is_a && !is_s {
            key_idx = Some(i);
        }
    }
    proof {
        assert(sparts.take(n as int) =~= sparts);
    }
    let kp: &Vec<char> = match key_idx {
        Some(ki) => &parts[ki],
        None => {
            return None;
        },
    };
    proof {
        assert(kp@ == sparts[key_idx->Some_0 as int]);
    }
    if kp.len() == 0 {
        return None;
    }
    let lkp = crate::chars::lower_chars(kp);
    if ctrl && crate::chars::chars_eq_str(&lkp, "space") {
        let mut out: Vec<u8> = Vec::new();
        if alt {
            out.push(0x1b);
        }
        out.push(0x00);
        assert(out@ =~= (if alt {
            seq![0x1bu8]
        } else {
            Seq::<u8>::empty()
        }) + seq![0x00u8]);
        return Some(out);
    }
    let kps = crate::chars::string_of(kp);
    match key_to_bytes(kps.as_str(), application_cursor) {
        Some(bytes) => {
            if alt {
                let mut out: Vec<u8> = vec![0x1b];
                let mut b = bytes;
                out.append(&mut b);
                assert(out@ =~= seq![0x1bu8] + spec_key_bytes(kp@, application_cursor)->Some_0);
                return Some(out);
            }
            assert(bytes@ =~= (if false {
                seq![0x1bu8]
            } else {
                Seq::<u8>::empty()
            }) + spec_key_bytes(kp@, application_cursor)->Some_0);
            return Some(bytes);
        },
        None => {},
    }
    if kp.len() != 1 {
        return None;
    }
    let mut c = kp[0];
    if shift {
        c = ascii_upper_char(c);
    }
    if ctrl {
        let cb: Option<u8> = if crate::chars::is_ascii_alpha_char(c) {
            let up = ascii_upper_char(c);
            Some(((up as u32) - 0x40) as u8)
        } else if c == '[' || c == '3' {
            Some(0x1b)
        } else if c == '\\' || c == '4' {
            Some(0x1c)
        } else if c == ']' || c == '5' {
            Some(0x1d)
        } else if c == '^' || c == '6' {
            Some(0x1e)
        } else if c == '_' || c == '7' {
            Some(0x1f)
        } else if c == '@' || c == '2' || c == ' ' {
            Some(0x00)
        } else if c == '?' {
            Some(0x7f)
        } else {
            None
        };
        match cb {
            Some(b) => {
                let mut out: Vec<u8> = Vec::new();
                if alt {
                    out.push(0x1b);
                }
                out.push(b);
                assert(out@ =~= (if alt {
                    seq![0x1bu8]
                } else {
                    Seq::<u8>::empty()
                }) + seq![b]);
                return Some(out);
            },
            None => {
                return None;
            },
        }
    }
    if alt {
        let mut out: Vec<u8> = vec![0x1b];
        let mut b = char_utf8_bytes(c);
        out.append(&mut b);
        assert(out@ =~= seq![0x1bu8] + vstd::utf8::encode_scalar(c as u32));
        return Some(out);
    }
    Some(char_utf8_bytes(c))
}

/// The bytes sent for one token of a key sequence: a combo, a named key,
/// or a single character.
pub open spec fn spec_token_bytes(t: Seq<char>, app: bool) -> Option<Seq<u8>> {
    if spec_parse_combo(t, app) is Some {
        spec_parse_combo(t, app)
    } else if spec_key_bytes(t, app) is Some {
        spec_key_bytes(t, app)
    } else if t.len() == 1 {
        Some(vstd::utf8::encode_scalar(t[0] as u32))
    } else {
        None
    }
}

/// Whether every token of a sequence parses to bytes.
pub open spec fn spec_all_tokens_parse(toks: Seq<Seq<char>>, app: bool) -> bool {
    forall|i: int| 0 <= i < toks.len() ==> spec_token_bytes(#[trigger] toks[i], app) is Some
}

/// A key sequence split on whitespace: each token parsed independently;
/// `None` when the sequence is empty or any token fails to parse.
pub open spec fn spec_parse_sequence(s: Seq<char>, app: bool) -> Option<Seq<Seq<u8>>> {
    let toks = spec_split_ws(s);
    if toks.len() == 0 {
        None
    } else if spec_all_tokens_parse(toks, app) {
        Some(Seq::new(toks.len(), |i: int| spec_token_bytes(toks[i], app)->Some_0))
    } else {
        None
    }
}

/// Parse a key sequence like `Ctrl+X m` into the list of byte sequences
/// to send, one per whitespace-separated token.
pub fn parse_key_sequence(sequence: &str, application_cursor: bool) -> (r: Option<Vec<Vec<u8>>>)
    ensures
        match spec_parse_sequence(sequence@, application_cursor) {
            Some(bs) => r matches Some(v) && v@.map_values(|b: Vec<u8>| b@) == bs,
            None => r is None,
        },
{
    let cs = chars_of(sequence);
    let toks = split_whitespace_chars(&cs);
    let ghost stoks = spec_split_ws(sequence@);
    proof {
        assert(toks@.map_values(|p: Vec<char>| p@) == stoks);
    }
    let n = toks.len();
    if n == 0 {
        return None;
    }
    let mut result: Vec<Vec<u8>> = Vec::new();
    for i in 0..n
        invariant
            n == toks@.len(),
            n > 0,
            stoks == spec_split_ws(sequence@),
            toks@.map_values(|p: Vec<char>| p@) == stoks,
            result@.len() == i,
            forall|j: int|
                0 <= j < i ==> spec_token_bytes(#[trigger] stoks[j], application_cursor) is Some,
            forall|j: int|
                0 <= j < i ==> #[trigger] result@[j]@ == spec_token_bytes(
                    stoks[j],
                    application_cursor,
                )->Some_0,
    {
        proof {
            assert(toks@.map_values(|p: Vec<char>| p@)[i as int] == toks@[i as int]@);
        }
        let ts = crate::chars::string_of(&toks[i]);
        let bytes: Option<Vec<u8>> = match parse_key_combo(ts.as_str(), application_cursor) {
            Some(b) => Some(b),
            None => match key_to_bytes(ts.as_str(), application_cursor) {
                Some(b) => Some(b),
                None => {
                    if toks[i].len() == 1 {
                        Some(char_utf8_bytes(toks[i][0]))
                    } else {
                        None
                    }
                },
            },
        };
        match bytes {
            Some(b) => {
                result.push(b);
            },
            None => {
                proof {
                    assert(spec_token_bytes(stoks[i as int], application_cursor) is None);
                    if spec_all_tokens_parse(stoks, application_cursor) {
                        assert(spec_token_bytes(stoks[i as int], application_cursor) is Some);
                        assert(false);
                    }
                }
                return None;
            },
        }
    }
    proof {
        let bs = spec_parse_sequence(sequence@, application_cursor)->Some_0;
        assert(result@.map_values(|b: Vec<u8>| b@) =~= bs);
    }
    Some(result)
}

/// `v + 1`, saturating at `u16::MAX`.
pub open spec fn spec_sat_inc(v: u16) -> nat {
    if v == 0xffff {
        0xffffnat
    } else {
        (v + 1) as nat
    }
}

/// An SGR mouse event: `ESC [ < button ; X ; Y` and a final byte, with the
/// 0-indexed coordinates shifted to 1-indexed, saturating.
pub open spec fn spec_mouse_seq(button: nat, x: u16, y: u16, fin: u8) -> Seq<u8> {
    seq![0x1bu8, 0x5bu8, 0x3cu8] + crate::chars::spec_dec_bytes(button) + seq![0x3bu8]
        + crate::chars::spec_dec_bytes(spec_sat_inc(x)) + seq![0x3bu8]
        + crate::chars::spec_dec_bytes(spec_sat_inc(y)) + seq![fin]
}

fn push_mouse_seq(out: &mut Vec<u8>, button: u64, x: u16, y: u16, fin: u8)
    ensures
        final(out)@ == old(out)@ + spec_mouse_seq(button as nat, x, y, fin),
{
    out.push(0x1b);
    out.push(0x5b);
    out.push(0x3c);
    crate::chars::push_dec_bytes_u64(out, button);
    out.push(0x3b);
    let x1: u16 = if x == 0xffff {
        0xffff
    } else {
        x + 1
    };
    crate::chars::push_dec_bytes_u64(out, x1 as u64);
    out.push(0x3b);
    let y1: u16 = if y == 0xffff {
        0xffff
    } else {
        y + 1
    };
    crate::chars::push_dec_bytes_u64(out, y1 as u64);
    out.push(fin);
    assert(final(out)@ =~= old(out)@ + spec_mouse_seq(button as nat, x, y, fin));
}

/// SGR mouse press and release sequences for a left click at the
/// 0-indexed position `(x, y)`: `ESC[<0;X;YM` and `ESC[<0;X;Ym` with
/// `X = x + 1`, `Y = y + 1`, saturating.
pub fn encode_mouse_click(x: u16, y: u16) -> (r: (Vec<u8>, Vec<u8>))
    ensures
        r.0@ == spec_mouse_seq(0, x, y, 0x4d),
        r.1@ == spec_mouse_seq(0, x, y, 0x6d),
{
    let mut press: Vec<u8> = Vec::new();
    push_mouse_seq(&mut press, 0, x, y, 0x4d);
    let mut release: Vec<u8> = Vec::new();
    push_mouse_seq(&mut release, 0, x, y, 0x6d);
    assert(press@ =~= spec_mouse_seq(0, x, y, 0x4d));
    assert(release@ =~= spec_mouse_seq(0, x, y, 0x6d));
    (press, release)
}

/// A complete mouse click: the press immediately followed by the release.
pub fn encode_mouse_click_combined(x: u16, y: u16) -> (r: Vec<u8>)
    ensures
        r@ == spec_mouse_seq(0, x, y, 0x4d) + spec_mouse_seq(0, x, y, 0x6d),
{
    let mut out: Vec<u8> = Vec::new();
    push_mouse_seq(&mut out, 0, x, y, 0x4d);
    push_mouse_seq(&mut out, 0, x, y, 0x6d);
    out
}

/// One SGR scroll-wheel event at `(x, y)`: button 64 scrolls up, 65 down.
pub fn encode_scroll(direction: ScrollDirection, x: u16, y: u16) -> (r: Vec<u8>)
    ensures
        direction is Up ==> r@ == spec_mouse_seq(64, x, y, 0x4d),
        direction is Down ==> r@ == spec_mouse_seq(65, x, y, 0x4d),
{
    let button: u64 = match direction {
        ScrollDirection::Up => 64,
        ScrollDirection::Down => 65,
    };
    let mut out: Vec<u8> = Vec::new();
    push_mouse_seq(&mut out, button, x, y, 0x4d);
    out
}

} // verus!
