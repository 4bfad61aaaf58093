//! Protocol types for client-daemon communication: one request and one
//! response object per line, both directions.

use vstd::prelude::*;
use vstd::string::StringExecFns;

use crate::error::ApiError;
use crate::snapshot::ScreenState;

verus! {

/// Default timeout for snapshot await-change and settle operations.
pub fn default_snapshot_timeout() -> (r: u64)
    ensures
        r == 30000,
{
    30000
}

/// A request from a client to the daemon.
#[derive(Debug, Clone)]
pub struct Request {
    pub id: String,
    pub command: Command,
}

/// Commands the daemon can execute.
#[derive(Debug, Clone)]
pub enum Command {
    /// Spawn a new PTY session, optionally named, optionally in `cwd`.
    Spawn { command: Vec<String>, session_name: Option<String>, cwd: Option<String> },
    /// Kill a session.
    Kill { session: Option<String> },
    /// Capture the terminal screen, optionally waiting for a change from a
    /// baseline hash or for the screen to settle.
    Snapshot {
        session: Option<String>,
        format: Option<SnapshotFormat>,
        await_change: Option<u64>,
        settle_ms: u64,
        timeout_ms: u64,
    },
    /// Type text at the cursor.
    Type { text: String, session: Option<String> },
    /// Send a key, key combo, or key sequence, with `delay_ms` between the
    /// keys of a sequence.
    Key { key: String, delay_ms: u32, session: Option<String> },
    /// Click at a 0-indexed row and column.
    Click { row: u16, col: u16, session: Option<String> },
    /// Scroll the terminal.
    Scroll { direction: ScrollDirection, amount: u32, session: Option<String> },
    /// List all active sessions.
    ListSessions,
    /// Resize the terminal.
    Resize { cols: u16, rows: u16, session: Option<String> },
    /// Wait for text to appear on screen.
    WaitFor {
        pattern: String,
        timeout_ms: Option<u64>,
        regex: Option<bool>,
        session: Option<String>,
    },
    /// Shut the daemon down gracefully.
    Shutdown,
}

/// Snapshot output format.
#[derive(Debug, Clone, Copy, PartialEq, Eq, Structural)]
pub enum SnapshotFormat {
    /// Full JSON with all metadata including text and elements.
    Full,
    /// Metadata only, without text and elements.
    Compact,
    /// Plain text with the cursor cell bracketed.
    Text,
}

impl Default for SnapshotFormat {
    fn default() -> (r: Self)
        ensures
            r == SnapshotFormat::Full,
    {
        SnapshotFormat::Full
    }
}

/// Scroll direction.
#[derive(Debug, Clone, Copy, PartialEq, Eq, Structural)]
pub enum ScrollDirection {
    Up,
    Down,
}

/// A response from the daemon to a client.
#[derive(Debug, Clone)]
pub struct Response {
    pub id: String,
    pub success: bool,
    pub data: Option<ResponseData>,
    pub error: Option<ApiError>,
}

impl Response {
    /// A successful response carrying `data` under the request's id.
    pub fn success(id: &str, data: ResponseData) -> (r: Response)
        ensures
            r.id@ == id@,
            r.success,
            r.data == Some(data),
            r.error is None,
    {
        Response { id: String::from_str(id), success: true, data: Some(data), error: None }
    }

    /// A failed response carrying `error` under the request's id.
    pub fn error(id: &str, error: ApiError) -> (r: Response)
        ensures
            r.id@ == id@,
            !r.success,
            r.data is None,
            r.error matches Some(e) && e == error,
    {
        Response { id: String::from_str(id), success: false, data: None, error: Some(error) }
    }
}

/// Response payload variants.
#[derive(Debug, Clone)]
pub enum ResponseData {
    /// Full screen state snapshot.
    ScreenState(ScreenState),
    /// Text-format snapshot.
    Snapshot { format: SnapshotFormat, content: String },
    /// Session created.
    SessionCreated { session_id: String, message: String },
    /// The list of active sessions.
    Sessions { sessions: Vec<SessionInfo> },
    /// Wait-for result with match information.
    WaitForResult { found: bool, matched_text: Option<String>, elapsed_ms: u64 },
    /// Generic success message.
    Okay { message: String },
}

/// Information about an active session.
#[derive(Debug, Clone)]
pub struct SessionInfo {
    pub id: String,
    pub name: Option<String>,
    pub command: Vec<String>,
    pub created_at: String,
}

} // verus!
