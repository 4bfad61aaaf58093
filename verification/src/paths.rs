//! Socket and PID-file path construction, and the session-name validation
//! that keeps every such file inside the socket directory.

use vstd::prelude::*;
use vstd::string::StringExecFns;

use crate::chars::{chars_of, is_ascii_alnum_char, spec_is_ascii_alnum};

verus! {

/// A safe session name: non-empty, only ASCII alphanumerics, hyphen and
/// underscore, and not starting with a hyphen.
pub open spec fn spec_valid_session_name(s: Seq<char>) -> bool {
    &&& s.len() > 0
    &&& s[0] != '-'
    &&& forall|i: int|
        0 <= i < s.len() ==> (spec_is_ascii_alnum(#[trigger] s[i]) || s[i] == '-' || s[i] == '_')
}

/// The name a session file is created under: the name itself when safe,
/// `default` otherwise.
pub open spec fn spec_sanitized(s: Seq<char>) -> Seq<char> {
    if spec_valid_session_name(s) {
        s
    } else {
        "default"@
    }
}

/// Validates a session name against path traversal: an invalid name is
/// replaced with `default`. The caller logs a warning on replacement.
pub fn sanitize_session_name(name: &str) -> (r: String)
    ensures
        r@ == spec_sanitized(name@),
{
    let v = chars_of(name);
    let n = v.len();
    let mut ok = n > 0 && v[0] != '-';
    if ok {
        for i in 0..n
            invariant
                n == v@.len(),
                v@ == name@,
                n > 0,
                v@[0] != '-',
                forall|j: int|
                    0 <= j < i ==> (spec_is_ascii_alnum(#[trigger] v@[j]) || v@[j] == '-'
                        || v@[j] == '_'),
        {
            let c = v[i];
            if !(is_ascii_alnum_char(c) || c == '-' || c == '_') {
                return String::from_str("default");
            }
        }
        String::from_str(name)
    } else {
        String::from_str("default")
    }
}

/// The socket path for a session: `<dir>/<name>.sock`, the name sanitized.
pub fn get_socket_path(dir: &str, session: &str) -> (r: String)
    ensures
        r@ == dir@ + "/"@ + spec_sanitized(session@) + ".sock"@,
{
    let safe = sanitize_session_name(session);
    let r = String::from_str(dir).concat("/").concat(safe.as_str()).concat(".sock");
    assert(r@ =~= dir@ + "/"@ + spec_sanitized(session@) + ".sock"@);
    r
}

/// The PID-file path for a session: `<dir>/<name>.pid`, the name sanitized.
pub fn get_pid_path(dir: &str, session: &str) -> (r: String)
    ensures
        r@ == dir@ + "/"@ + spec_sanitized(session@) + ".pid"@,
{
    let safe = sanitize_session_name(session);
    let r = String::from_str(dir).concat("/").concat(safe.as_str()).concat(".pid");
    assert(r@ =~= dir@ + "/"@ + spec_sanitized(session@) + ".pid"@);
    r
}

/// A name holding `/`, holding `..`, or starting with `-` is never used as
/// a file name: it sanitizes to `default`, so no file is created outside
/// the socket directory.
pub proof fn lemma_unsafe_name_sanitized(s: Seq<char>)
    requires
        s.contains('/') || (exists|i: int| 0 <= i < s.len() - 1 && s[i] == '.' && #[trigger] s[i + 1] == '.')
            || (s.len() > 0 && s[0] == '-'),
    ensures
        spec_sanitized(s) == "default"@,
{
    if spec_valid_session_name(s) {
        if s.contains('/') {
            let i = choose|i: int| 0 <= i < s.len() && s[i] == '/';
            assert(spec_is_ascii_alnum(s[i]) || s[i] == '-' || s[i] == '_');
            assert(false);
        } else if exists|i: int| 0 <= i < s.len() - 1 && s[i] == '.' && #[trigger] s[i + 1] == '.' {
            let i = choose|i: int| 0 <= i < s.len() - 1 && s[i] == '.' && #[trigger] s[i + 1] == '.';
            assert(spec_is_ascii_alnum(s[i]) || s[i] == '-' || s[i] == '_');
            assert(false);
        }
    }
}

} // verus!
