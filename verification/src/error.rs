//! Error taxonomy for protocol responses: four codes, a human-readable
//! message, and an actionable suggestion wherever one exists.

use vstd::prelude::*;
use vstd::string::StringExecFns;

use crate::chars::{push_dec_u64, spec_dec, spec_trim, string_of, trim_chars, chars_of, spec_all_whitespace, all_whitespace};

verus! {

/// Error codes carried by protocol responses.
#[derive(Debug, Clone, PartialEq, Eq, Structural)]
pub enum ErrorCode {
    SessionNotFound,
    CommandFailed,
    InvalidInput,
    InternalError,
}

impl ErrorCode {
    /// The wire form of the code, in upper snake case.
    pub fn as_str(&self) -> (r: &'static str)
        ensures
            self is SessionNotFound ==> r@ == "SESSION_NOT_FOUND"@,
            self is CommandFailed ==> r@ == "COMMAND_FAILED"@,
            self is InvalidInput ==> r@ == "INVALID_INPUT"@,
            self is InternalError ==> r@ == "INTERNAL_ERROR"@,
    {
        match self {
            ErrorCode::SessionNotFound => "SESSION_NOT_FOUND",
            ErrorCode::CommandFailed => "COMMAND_FAILED",
            ErrorCode::InvalidInput => "INVALID_INPUT",
            ErrorCode::InternalError => "INTERNAL_ERROR",
        }
    }
}

/// An error response with a code, message, and suggestion.
#[derive(Debug, Clone)]
pub struct ApiError {
    pub code: ErrorCode,
    pub message: String,
    pub suggestion: Option<String>,
}

/// The rendered form of an error: `[CODE] message (hint: suggestion)`.
pub open spec fn spec_error_display(e: ApiError) -> Seq<char> {
    let code = match e.code {
        ErrorCode::SessionNotFound => "SESSION_NOT_FOUND"@,
        ErrorCode::CommandFailed => "COMMAND_FAILED"@,
        ErrorCode::InvalidInput => "INVALID_INPUT"@,
        ErrorCode::InternalError => "INTERNAL_ERROR"@,
    };
    let base = "["@ + code + "] "@ + e.message@;
    match e.suggestion {
        Some(s) => base + " (hint: "@ + s@ + ")"@,
        None => base,
    }
}

impl ApiError {
    /// The error rendered for human readers.
    pub fn display_string(&self) -> (r: String)
        ensures
            r@ == spec_error_display(*self),
    {
        let mut out = String::from_str("[").concat(self.code.as_str()).concat("] ").concat(
            self.message.as_str(),
        );
        match &self.suggestion {
            Some(s) => {
                out = out.concat(" (hint: ").concat(s.as_str()).concat(")");
            },
            None => {},
        }
        out
    }

    pub fn session_not_found(session_id: &str) -> (e: ApiError)
        ensures
            e.code == ErrorCode::SessionNotFound,
            e.message@ == "Session '"@ + session_id@ + "' not found"@,
            e.suggestion matches Some(s) && s@
                == "Run 'pilotty list-sessions' to see available sessions"@,
    {
        ApiError {
            code: ErrorCode::SessionNotFound,
            message: String::from_str("Session '").concat(session_id).concat("' not found"),
            suggestion: Some(
                String::from_str("Run 'pilotty list-sessions' to see available sessions"),
            ),
        }
    }

    pub fn command_failed(message: &str) -> (e: ApiError)
        ensures
            e.code == ErrorCode::CommandFailed,
            e.message@ == message@,
            e.suggestion matches Some(s) && s@
                == "Check that the command exists and is executable"@,
    {
        ApiError {
            code: ErrorCode::CommandFailed,
            message: String::from_str(message),
            suggestion: Some(String::from_str("Check that the command exists and is executable")),
        }
    }

    /// A command failure carrying trimmed stderr output when any is present.
    pub fn command_failed_with_stderr(message: &str, stderr: Option<&str>) -> (e: ApiError)
        ensures
            e.code == ErrorCode::CommandFailed,
            e.message@ == match stderr {
                Some(err) => if spec_all_whitespace(err@) {
                    message@
                } else {
                    message@ + "\nstderr: "@ + spec_trim(err@)
                },
                None => message@,
            },
            e.suggestion matches Some(s) && s@
                == "Check that the command exists and has correct arguments"@,
    {
        let msg = String::from_str(message);
        let full_message = match stderr {
            Some(err) => {
                let cs = chars_of(err);
                if !all_whitespace(&cs) {
                    let trimmed = string_of(&trim_chars(&cs));
                    msg.concat("\nstderr: ").concat(trimmed.as_str())
                } else {
                    msg
                }
            },
            None => msg,
        };
        ApiError {
            code: ErrorCode::CommandFailed,
            message: full_message,
            suggestion: Some(
                String::from_str("Check that the command exists and has correct arguments"),
            ),
        }
    }

    pub fn command_failed_with_suggestion(message: &str, suggestion: &str) -> (e: ApiError)
        ensures
            e.code == ErrorCode::CommandFailed,
            e.message@ == message@,
            e.suggestion matches Some(s) && s@ == suggestion@,
    {
        ApiError {
            code: ErrorCode::CommandFailed,
            message: String::from_str(message),
            suggestion: Some(String::from_str(suggestion)),
        }
    }

    pub fn invalid_input(message: &str) -> (e: ApiError)
        ensures
            e.code == ErrorCode::InvalidInput,
            e.message@ == message@,
            e.suggestion matches Some(s) && s@ == "Check the command syntax and try again"@,
    {
        ApiError {
            code: ErrorCode::InvalidInput,
            message: String::from_str(message),
            suggestion: Some(String::from_str("Check the command syntax and try again")),
        }
    }

    pub fn invalid_input_with_suggestion(message: &str, suggestion: &str) -> (e: ApiError)
        ensures
            e.code == ErrorCode::InvalidInput,
            e.message@ == message@,
            e.suggestion matches Some(s) && s@ == suggestion@,
    {
        ApiError {
            code: ErrorCode::InvalidInput,
            message: String::from_str(message),
            suggestion: Some(String::from_str(suggestion)),
        }
    }

    pub fn duplicate_session_name(name: &str) -> (e: ApiError)
        ensures
            e.code == ErrorCode::InvalidInput,
            e.message@ == "Session name '"@ + name@ + "' already exists"@,
            e.suggestion matches Some(s) && s@ == "Choose a different name with --name, or kill the existing '"@
                + name@ + "' session first"@,
    {
        ApiError {
            code: ErrorCode::InvalidInput,
            message: String::from_str("Session name '").concat(name).concat("' already exists"),
            suggestion: Some(
                String::from_str("Choose a different name with --name, or kill the existing '")
                    .concat(name)
                    .concat("' session first"),
            ),
        }
    }

    pub fn no_sessions() -> (e: ApiError)
        ensures
            e.code == ErrorCode::SessionNotFound,
            e.message@ == "No active sessions"@,
            e.suggestion matches Some(s) && s@
                == "Run 'pilotty spawn <command>' to create a session"@,
    {
        ApiError {
            code: ErrorCode::SessionNotFound,
            message: String::from_str("No active sessions"),
            suggestion: Some(String::from_str("Run 'pilotty spawn <command>' to create a session")),
        }
    }

    /// The error raised when the live-session cap is already full.
    pub fn session_limit_reached(max: usize) -> (e: ApiError)
        ensures
            e.code == ErrorCode::CommandFailed,
            e.message@ == "Maximum session limit ("@ + spec_dec(max as nat) + ") reached"@,
            e.suggestion matches Some(s) && s@
                == "Kill an existing session with 'pilotty kill' before creating a new one"@,
    {
        let mut digits: Vec<char> = Vec::new();
        push_dec_u64(&mut digits, max as u64);
        let message = String::from_str("Maximum session limit (").concat(
            string_of(&digits).as_str(),
        ).concat(") reached");
        ApiError {
            code: ErrorCode::CommandFailed,
            message,
            suggestion: Some(
                String::from_str(
                    "Kill an existing session with 'pilotty kill' before creating a new one",
                ),
            ),
        }
    }

    pub fn internal(message: &str) -> (e: ApiError)
        ensures
            e.code == ErrorCode::InternalError,
            e.message@ == message@,
            e.suggestion matches Some(s) && s@
                == "This is an internal error. Please report it if it persists."@,
    {
        ApiError {
            code: ErrorCode::InternalError,
            message: String::from_str(message),
            suggestion: Some(
                String::from_str("This is an internal error. Please report it if it persists."),
            ),
        }
    }

    /// The spawn-failure message names the full argv, or `(empty command)`.
    pub fn spawn_failed(command: &Vec<String>, error: &str) -> (e: ApiError)
        ensures
            e.code == ErrorCode::CommandFailed,
            command@.len() == 0 ==> e.message@ == "Failed to spawn '(empty command)': "@
                + error@,
            command@.len() > 0 ==> e.message@ == "Failed to spawn '"@ + spec_join_space(
                command@.map_values(|s: String| s@),
            ) + "': "@ + error@,
            e.suggestion matches Some(s) && (command@.len() == 0 ==> s@
                == "Verify 'the command' exists in your PATH and is executable. Try running it directly in your terminal first."@)
                && (command@.len() > 0 ==> s@ == "Verify '"@ + command@[0]@
                + "' exists in your PATH and is executable. Try running it directly in your terminal first."@),
    {
        let cmd_str = if command.len() == 0 {
            String::from_str("(empty command)")
        } else {
            join_space(command)
        };
        let first: &str = if command.len() == 0 {
            "the command"
        } else {
            command[0].as_str()
        };
        let message = String::from_str("Failed to spawn '").concat(cmd_str.as_str()).concat(
            "': ",
        ).concat(error);
        let sugg = String::from_str("Verify '").concat(first).concat(
            "' exists in your PATH and is executable. Try running it directly in your terminal first.",
        );
        proof {
            if command@.len() == 0 {
                assert(message@ =~= "Failed to spawn '(empty command)': "@ + error@) by {
                    reveal_strlit("Failed to spawn '");
                    reveal_strlit("(empty command)");
                    reveal_strlit("': ");
                    reveal_strlit("Failed to spawn '(empty command)': ");
                }
                assert(sugg@ =~= "Verify 'the command' exists in your PATH and is executable. Try running it directly in your terminal first."@)
                    by {
                    reveal_strlit("Verify '");
                    reveal_strlit("the command");
                    reveal_strlit(
                        "' exists in your PATH and is executable. Try running it directly in your terminal first.",
                    );
                    reveal_strlit(
                        "Verify 'the command' exists in your PATH and is executable. Try running it directly in your terminal first.",
                    );
                }
            } else {
                assert(message@ =~= "Failed to spawn '"@ + spec_join_space(
                    command@.map_values(|s: String| s@),
                ) + "': "@ + error@);
                assert(sugg@ =~= "Verify '"@ + command@[0]@
                    + "' exists in your PATH and is executable. Try running it directly in your terminal first."@);
            }
        }
        ApiError { code: ErrorCode::CommandFailed, message, suggestion: Some(sugg) }
    }

    pub fn write_failed(error: &str) -> (e: ApiError)
        ensures
            e.code == ErrorCode::CommandFailed,
            e.message@ == "Failed to write to terminal: "@ + error@,
            e.suggestion matches Some(s) && s@
                == "The terminal session may have exited. Run 'pilotty list-sessions' to check."@,
    {
        ApiError {
            code: ErrorCode::CommandFailed,
            message: String::from_str("Failed to write to terminal: ").concat(error),
            suggestion: Some(
                String::from_str(
                    "The terminal session may have exited. Run 'pilotty list-sessions' to check.",
                ),
            ),
        }
    }
}

/// The elements of `parts` joined with single spaces.
pub open spec fn spec_join_space(parts: Seq<Seq<char>>) -> Seq<char>
    decreases parts.len(),
{
    if parts.len() == 0 {
        Seq::empty()
    } else if parts.len() == 1 {
        parts[0]
    } else {
        spec_join_space(parts.drop_last()) + " "@ + parts.last()
    }
}

/// Joins strings with single spaces between them.
pub fn join_space(parts: &Vec<String>) -> (r: String)
    ensures
        r@ == spec_join_space(parts@.map_values(|s: String| s@)),
{
    let ghost m = parts@.map_values(|s: String| s@);
    let mut out = String::new();
    let n = parts.len();
    for i in 0..n
        invariant
            n == parts@.len(),
            m == parts@.map_values(|s: String| s@),
            out@ == spec_join_space(m.take(i as int)),
    {
        if i > 0 {
            out = out.concat(" ");
        }
        out = out.concat(parts[i].as_str());
        proof {
            let t = m.take(i + 1);
            assert(t.drop_last() =~= m.take(i as int));
            assert(t.last() == m[i as int]);
            if i == 0 {
                assert(spec_join_space(t) == t[0]);
                assert(out@ =~= t[0]);
            }
        }
    }
    assert(m.take(n as int) =~= m);
    out
}

} // verus!
