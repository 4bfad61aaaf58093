//! The socket server's pure decisions: rendering text snapshots with the
//! cursor marked, bounded frame scanning, the stale-socket rule at bind
//! time, the scroll cap, and the composite region detector.

use vstd::prelude::*;
use vstd::string::StringExecFns;

use crate::chars::{
    chars_of, string_of, split_char, spec_split, spec_dec, push_dec_u64, sub_chars,
};
use crate::error::ApiError;
use crate::region::{
    Cell, Screen, spec_strip_cr, spec_text_lines, detect_boxes, detect_highlighted_regions,
    detect_patterns, detect_underlined_shortcuts, deduplicate_regions,
};
use crate::snapshot::Region;

verus! {

/// Terminal dimensions for a PTY.
#[derive(Debug, Clone, Copy, PartialEq, Eq, Structural)]
pub struct TermSize {
    pub cols: u16,
    pub rows: u16,
}

impl Default for TermSize {
    /// The conventional 80 by 24 terminal.
    fn default() -> (r: Self)
        ensures
            r.cols == 80,
            r.rows == 24,
    {
        TermSize { cols: 80, rows: 24 }
    }
}

/// Most bytes one request frame may hold.
pub const MAX_REQUEST_SIZE: usize = 1048576;

/// Most lines one scroll request may cover.
pub const MAX_SCROLL_AMOUNT: u32 = 1000;

/// Whether a scroll request is within the cap; a rejected amount yields
/// the invalid-input error naming the cap.
pub fn check_scroll_amount(amount: u32) -> (r: Result<(), ApiError>)
    ensures
        amount <= MAX_SCROLL_AMOUNT <==> r is Ok,
        amount > MAX_SCROLL_AMOUNT ==> (r matches Err(e) && e.code
            == crate::error::ErrorCode::InvalidInput),
{
    if amount > MAX_SCROLL_AMOUNT {
        let mut msg: Vec<char> = Vec::new();
        let mut head = chars_of("Scroll amount ");
        msg.append(&mut head);
        push_dec_u64(&mut msg, amount as u64);
        let mut mid = chars_of(" exceeds maximum ");
        msg.append(&mut mid);
        push_dec_u64(&mut msg, MAX_SCROLL_AMOUNT as u64);
        let ms = string_of(&msg);
        Err(
            ApiError::invalid_input_with_suggestion(
                ms.as_str(),
                "Use a smaller scroll amount (<= 1000).",
            ),
        )
    } else {
        Ok(())
    }
}

/// What to do with one chunk of buffered input while reading a frame:
/// how many bytes to consume, whether a full frame is now complete, or
/// that the frame exceeds the size cap and the connection must drop.
#[derive(Debug, Clone, Copy, PartialEq, Eq, Structural)]
pub enum FrameStep {
    /// Consume this many bytes; the frame is complete when `done`.
    Consume { count: usize, done: bool },
    /// The frame exceeds the cap; the connection is dropped.
    TooLarge,
}

/// The index of the first newline byte, or -1.
pub open spec fn spec_find_nl(bytes: Seq<u8>) -> int
    decreases bytes.len(),
{
    if bytes.len() == 0 {
        -1
    } else if bytes[0] == 10 {
        0
    } else {
        let r = spec_find_nl(bytes.drop_first());
        if r < 0 {
            -1
        } else {
            r + 1
        }
    }
}

/// Decides one step of bounded frame reading: consume up to and
/// including the first newline, or the whole chunk when none; a frame
/// that would exceed `max_size` is rejected instead. This keeps request
/// parsing within bounded memory.
pub fn frame_step(available: &[u8], total: usize, max_size: usize) -> (r: FrameStep)
    requires
        total <= max_size,
        available@.len() > 0,
    ensures
        ({
            let nl = spec_find_nl(available@);
            let consume: int = if nl >= 0 {
                nl + 1
            } else {
                available@.len() as int
            };
            if total + consume > max_size {
                r == FrameStep::TooLarge
            } else {
                r == (FrameStep::Consume { count: consume as usize, done: nl >= 0 })
            }
        }),
{
    let n = available.len();
    let mut i: usize = 0;
    let mut nl_pos: Option<usize> = None;
    while i < n
        invariant
            n == available@.len(),
            i <= n,
            nl_pos is None,
            forall|j: int| 0 <= j < i ==> available@[j] != 10,
        decreases n - i,
    {
        if available[i] == 10 {
            nl_pos = Some(i);
            break ;
        }
        i = i + 1;
    }
    proof {
        lemma_find_nl_exact(available@, i as int);
    }
    let (consume, done): (usize, bool) = match nl_pos {
        Some(p) => (p + 1, true),
        None => (n, false),
    };
    if consume > max_size - total {
        FrameStep::TooLarge
    } else {
        FrameStep::Consume { count: consume, done }
    }
}

proof fn lemma_find_nl_exact(bytes: Seq<u8>, i: int)
    requires
        0 <= i <= bytes.len(),
        forall|j: int| 0 <= j < i ==> bytes[j] != 10,
        i == bytes.len() || bytes[i] == 10,
    ensures
        spec_find_nl(bytes) == if i == bytes.len() {
            -1int
        } else {
            i
        },
    decreases i + 1,
{
    if bytes.len() > 0 && i > 0 {
        assert(bytes[0] != 10);
        assert forall|j: int| 0 <= j < i - 1 implies bytes.drop_first()[j] != 10 by {
            assert(bytes.drop_first()[j] == bytes[j + 1]);
        }
        if i < bytes.len() {
            assert(bytes.drop_first()[i - 1] == bytes[i]);
        }
        lemma_find_nl_exact(bytes.drop_first(), i - 1);
    }
}

/// What to do when binding finds the address in use: refuse while a live
/// daemon holds it; refuse a symlink or a non-socket file rather than
/// delete it; unlink a stale socket and retry.
#[derive(Debug, Clone, Copy, PartialEq, Eq, Structural)]
pub enum BindAction {
    /// Another daemon is alive; fail startup.
    RefuseAlive,
    /// The path is a symlink; never delete it.
    RefuseSymlink,
    /// The path is not a socket; never delete it.
    RefuseNotSocket,
    /// A stale socket from a dead daemon: unlink it and bind again.
    UnlinkAndRetry,
}

/// Decides how to treat an occupied socket path: only a genuine stale
/// socket of a dead daemon is ever unlinked, so no unrelated file is
/// deleted.
pub fn stale_socket_action(daemon_alive: bool, is_symlink: bool, is_socket: bool) -> (r:
    BindAction)
    ensures
        daemon_alive ==> r == BindAction::RefuseAlive,
        !daemon_alive && is_symlink ==> r == BindAction::RefuseSymlink,
        !daemon_alive && !is_symlink && !is_socket ==> r == BindAction::RefuseNotSocket,
        !daemon_alive && !is_symlink && is_socket ==> r == BindAction::UnlinkAndRetry,
        r == BindAction::UnlinkAndRetry ==> !daemon_alive && !is_symlink && is_socket,
{
    if daemon_alive {
        BindAction::RefuseAlive
    } else if is_symlink {
        BindAction::RefuseSymlink
    } else if !is_socket {
        BindAction::RefuseNotSocket
    } else {
        BindAction::UnlinkAndRetry
    }
}

/// What the composite detector produces: a screen showing the cells,
/// the box regions exactly as the box model numbered from one, the
/// highlight regions non-blank and numbered next, the pattern regions
/// exactly as the pattern model, the underlined-shortcut regions last,
/// and the result their concatenation deduplicated.
pub open spec fn spec_detectors_output(
    cells: Seq<Vec<Cell>>,
    s: Screen,
    b: Seq<Region>,
    h: Seq<Region>,
    p: Seq<Region>,
    u: Seq<Region>,
    out: Seq<Region>,
) -> bool {
    &&& crate::region::spec_screen_of_cells(&s, cells)
    &&& crate::region::spec_regions_match(b, crate::region::spec_boxes(&s, 0), 0)
    &&& forall|k: int|
        0 <= k < h.len() ==> (#[trigger] h[k]).text@.len() > 0 && h[k].ref_id@ == "@e"@
            + spec_dec((b.len() + k + 1) as nat)
    &&& crate::region::spec_regions_match(
        p,
        crate::region::spec_patterns(&s, 0),
        (b.len() + h.len()) as int,
    )
    &&& forall|k: int|
        0 <= k < u.len() ==> (#[trigger] u[k]).region_type
            == crate::snapshot::RegionType::MenuItem && !u[k].focused && u[k].bounds.height == 1
            && !crate::chars::spec_all_whitespace(u[k].text@) && u[k].ref_id@ == "@e"@
            + spec_dec((b.len() + h.len() + p.len() + k + 1) as nat)
    &&& out == (if (b + h + p + u).len() <= 1 {
        b + h + p + u
    } else {
        crate::region::spec_dedup_regions(b + h + p + u, Seq::empty())
    })
}

/// Runs the four region detectors over attributed cells with one shared
/// reference counter — boxes, highlights, patterns, underlined
/// shortcuts — and deduplicates the overlap.
pub fn detect_regions(cells: Vec<Vec<Cell>>) -> (r: Vec<Region>)
    requires
        cells@.len() <= 4096,
        forall|i: int| 0 <= i < cells@.len() ==> (#[trigger] cells@[i])@.len() <= 4096,
    ensures
        exists|s: Screen, b: Seq<Region>, h: Seq<Region>, p: Seq<Region>, u: Seq<Region>|
            spec_detectors_output(cells@, s, b, h, p, u, r@),
{
    let screen = Screen::from_cells(cells);
    proof {
        assert(screen.spec_width() <= 4096);
        assert(screen.spec_width() * screen.spec_height() <= 4096 * 4096) by (nonlinear_arith)
            requires
                0 <= screen.spec_width() <= 4096,
                0 <= screen.spec_height() <= 4096,
        ;
    }
    let mut ref_counter: u32 = 0;
    let mut regions: Vec<Region> = Vec::new();
    let mut boxes = detect_boxes(&screen, &mut ref_counter);
    let ghost boxes_view = boxes@;
    regions.append(&mut boxes);
    let mut highlights = detect_highlighted_regions(&screen, &mut ref_counter);
    let ghost highlights_view = highlights@;
    regions.append(&mut highlights);
    proof {
        let w = screen.spec_width() as int;
        let h = screen.spec_height() as int;
        assert(2 * w * h == 2 * (w * h)) by (nonlinear_arith);
        assert(ref_counter as int <= 2 * (w * h));
    }
    let mut patterns = detect_patterns(&screen, &mut ref_counter);
    let ghost patterns_view = patterns@;
    regions.append(&mut patterns);
    proof {
        let w = screen.spec_width() as int;
        let h = screen.spec_height() as int;
        assert(2 * w * h == 2 * (w * h)) by (nonlinear_arith);
        assert(ref_counter as int <= 4 * (w * h));
    }
    let ghost bsv = boxes_view;
    let ghost hsv = highlights_view;
    let ghost psv = patterns_view;
    let mut shortcuts = detect_underlined_shortcuts(&screen, &mut ref_counter);
    let ghost usv = shortcuts@;
    let ghost gs = screen;
    regions.append(&mut shortcuts);
    let ghost all = regions@;
    let out = deduplicate_regions(regions);
    proof {
        assert(all =~= bsv + hsv + psv + usv);
        assert(spec_detectors_output(cells@, gs, bsv, hsv, psv, usv, out@));
    }
    out
}


/// Whether `p` occurs as a contiguous substring of `t`.
pub open spec fn spec_contains(t: Seq<char>, p: Seq<char>) -> bool {
    exists|i: int|
        0 <= i <= t.len() - p.len() && #[trigger] t.subrange(i, i + p.len() as int) == p
}

/// Whether `pattern` occurs verbatim in `text`: the literal match test
/// of the wait-for command.
pub fn text_contains(text: &str, pattern: &str) -> (r: bool)
    ensures
        r == spec_contains(text@, pattern@),
{
    let t = chars_of(text);
    let p = chars_of(pattern);
    let n = t.len();
    let m = p.len();
    if m > n {
        proof {
            assert(!spec_contains(text@, pattern@));
        }
        return false;
    }
    if m == 0 {
        proof {
            assert(t@.subrange(0, 0 + p@.len() as int) =~= p@);
            assert(spec_contains(text@, pattern@));
        }
        return true;
    }
    let mut i: usize = 0;
    while i <= n - m
        invariant
            n == t@.len(),
            m == p@.len(),
            1 <= m <= n,
            i <= n - m + 1,
            t@ == text@,
            p@ == pattern@,
            forall|w: int|
                0 <= w < i ==> #[trigger] t@.subrange(w, w + m as int) != p@,
        decreases n - m + 1 - i,
    {
        let mut matched = true;
        let mut j: usize = 0;
        while j < m && matched
            invariant
                n == t@.len(),
                m == p@.len(),
                i + m <= n,
                j <= m,
                matched ==> forall|w: int| 0 <= w < j ==> #[trigger] t@[i + w] == p@[w],
                !matched ==> t@.subrange(i as int, i + m as int) != p@,
            decreases m - j,
        {
            if t[i + j] != p[j] {
                proof {
                    assert(t@.subrange(i as int, i + m as int)[j as int] == t@[i + j]);
                }
                matched = false;
            }
            j = j + 1;
        }
        if matched {
            proof {
                assert forall|w: int|
                    0 <= w < m implies t@.subrange(i as int, i + m as int)[w] == p@[w] by {
                    assert(t@[i + w] == p@[w]);
                }
                assert(t@.subrange(i as int, i + m as int) =~= p@);
            }
            return true;
        }
        i = i + 1;
    }
    proof {
        assert forall|w: int|
            0 <= w <= t@.len() - p@.len() implies #[trigger] t@.subrange(
            w,
            w + p@.len() as int,
        ) != p@ by {
            assert(w < i);
        }
    }
    false
}

/// The outcome of a wait-for poll: a match yields the found result with
/// the matched text and elapsed time; no match with the deadline passed
/// yields the command-failed timeout error naming the pattern.
pub fn wait_for_outcome(
    pattern: &str,
    matched: Option<String>,
    timed_out: bool,
    elapsed: u64,
) -> (r: Result<crate::protocol::ResponseData, ApiError>)
    ensures
        matched matches Some(m) ==> (r matches Ok(d) && (d matches
            crate::protocol::ResponseData::WaitForResult { found, matched_text, elapsed_ms }
            && found && matched_text == Some(m) && elapsed_ms == elapsed)),
        matched is None ==> r is Err,
        matched is None && timed_out ==> (r matches Err(e) && e.code
            == crate::error::ErrorCode::CommandFailed && e.message@
            == "Timed out waiting for '"@ + pattern@ + "'"@),
{
    match matched {
        Some(m) => Ok(
            crate::protocol::ResponseData::WaitForResult {
                found: true,
                matched_text: Some(m),
                elapsed_ms: elapsed,
            },
        ),
        None => {
            let message = String::from_str("Timed out waiting for '").concat(pattern).concat(
                "'",
            );
            proof {
                assert(message@ =~= "Timed out waiting for '"@ + pattern@ + "'"@);
            }
            Err(
                ApiError::command_failed_with_suggestion(
                    message.as_str(),
                    "Increase the timeout, or check the pattern against a snapshot",
                ),
            )
        },
    }
}

/// A run of `n` spaces.
pub open spec fn spec_spaces(n: int) -> Seq<char>
    decreases n,
{
    if n <= 0 {
        Seq::empty()
    } else {
        spec_spaces(n - 1).push(' ')
    }
}

/// A run of `n` newlines.
pub open spec fn spec_newlines(n: int) -> Seq<char>
    decreases n,
{
    if n <= 0 {
        Seq::empty()
    } else {
        spec_newlines(n - 1).push('\n')
    }
}

/// One rendered snapshot line: on the cursor's row, the cursor cell is
/// bracketed; a cursor at or past the end of the row is rendered as
/// trailing spaces followed by `[_]`.
pub open spec fn spec_cursor_line(line: Seq<char>, ccol: int) -> Seq<char> {
    if ccol < line.len() {
        line.take(ccol) + seq!['['] + seq![line[ccol]] + seq![']'] + line.skip(ccol + 1)
    } else {
        line + spec_spaces(ccol - line.len()) + seq!['[', '_', ']']
    }
}

/// The rendered body rows from `i` on, each followed by a newline.
pub open spec fn spec_fts_rows(
    lines: Seq<Seq<char>>,
    i: int,
    crow: int,
    ccol: int,
    acc: Seq<char>,
) -> Seq<char>
    decreases lines.len() - i,
{
    if i < 0 || i >= lines.len() {
        acc
    } else {
        let rendered = if i == crow {
            spec_cursor_line(lines[i], ccol)
        } else {
            lines[i]
        };
        spec_fts_rows(lines, i + 1, crow, ccol, acc + rendered + seq!['\n'])
    }
}

/// The header of a text snapshot.
pub open spec fn spec_fts_header(crow: u16, ccol: u16, size: TermSize) -> Seq<char> {
    "--- Terminal "@ + spec_dec(size.cols as nat) + "x"@ + spec_dec(size.rows as nat)
        + " | Cursor: ("@ + spec_dec(crow as nat) + ", "@ + spec_dec(ccol as nat) + ") ---\n"@
}

/// The whole text snapshot: header, rendered rows, and — when the cursor
/// sits below the last text row — blank rows down to it and a trailing
/// `[_]` at its column.
pub open spec fn spec_format_text_snapshot(
    t: Seq<char>,
    crow: u16,
    ccol: u16,
    size: TermSize,
) -> Seq<char> {
    let lines = spec_text_lines(t);
    let body = spec_fts_rows(lines, 0, crow as int, ccol as int, Seq::empty());
    let tail: Seq<char> = if crow >= lines.len() {
        spec_newlines(crow - lines.len()) + spec_spaces(ccol as int) + seq!['[', '_', ']', '\n']
    } else {
        Seq::empty()
    };
    spec_fts_header(crow, ccol, size) + body + tail
}

fn push_str_chars(out: &mut Vec<char>, s: &str)
    ensures
        final(out)@ == old(out)@ + s@,
{
    let mut v = chars_of(s);
    out.append(&mut v);
}

fn push_spaces(out: &mut Vec<char>, n: usize)
    ensures
        final(out)@ == old(out)@ + spec_spaces(n as int),
{
    for k in 0..n
        invariant
            out@ == old(out)@ + spec_spaces(k as int),
    {
        out.push(' ');
    }
}

fn push_newlines(out: &mut Vec<char>, n: usize)
    ensures
        final(out)@ == old(out)@ + spec_newlines(n as int),
{
    for k in 0..n
        invariant
            out@ == old(out)@ + spec_newlines(k as int),
    {
        out.push('\n');
    }
}


/// Appends one rendered snapshot row (cursor handling included) and its
/// newline.
fn push_fts_row(out: &mut Vec<char>, line: &Vec<char>, is_cursor_row: bool, cursor_col: u16)
    ensures
        final(out)@ == old(out)@ + (if is_cursor_row {
            spec_cursor_line(line@, cursor_col as int)
        } else {
            line@
        }) + seq!['\n'],
{
    let ghost base = out@;
    if is_cursor_row {
        let ccol = cursor_col as usize;
        if ccol < line.len() {
            let mut before = sub_chars(line, 0, ccol);
            out.append(&mut before);
            out.push('[');
            out.push(line[ccol]);
            out.push(']');
            let mut after = sub_chars(line, ccol + 1, line.len());
            out.append(&mut after);
            proof {
                assert(line@.skip(ccol + 1) =~= line@.subrange(ccol + 1, line@.len() as int));
                assert(line@.take(ccol as int) =~= line@.subrange(0, ccol as int));
                assert(out@ =~= base + spec_cursor_line(line@, cursor_col as int));
            }
        } else {
            let mut whole = sub_chars(line, 0, line.len());
            out.append(&mut whole);
            if ccol > line.len() {
                push_spaces(out, ccol - line.len());
            }
            out.push('[');
            out.push('_');
            out.push(']');
            proof {
                assert(line@.subrange(0, line@.len() as int) =~= line@);
                if cursor_col as int == line@.len() as int {
                    assert(spec_spaces(0) =~= Seq::<char>::empty());
                }
                assert(out@ =~= base + spec_cursor_line(line@, cursor_col as int));
            }
        }
    } else {
        let mut whole = sub_chars(line, 0, line.len());
        out.append(&mut whole);
        proof {
            assert(line@.subrange(0, line@.len() as int) =~= line@);
        }
    }
    out.push('\n');
}

/// Renders a plain text snapshot: a header with the terminal size and
/// cursor position, then the screen rows with the cursor cell bracketed,
/// trailing spaces and `[_]` standing for a cursor beyond the text.
#[verifier::rlimit(60)]
#[verifier::spinoff_prover]
pub fn format_text_snapshot(text: &str, cursor_row: u16, cursor_col: u16, size: TermSize) -> (r:
    String)
    ensures
        r@ == spec_format_text_snapshot(text@, cursor_row, cursor_col, size),
{
    let mut out: Vec<char> = Vec::new();
    push_str_chars(&mut out, "--- Terminal ");
    push_dec_u64(&mut out, size.cols as u64);
    push_str_chars(&mut out, "x");
    push_dec_u64(&mut out, size.rows as u64);
    push_str_chars(&mut out, " | Cursor: (");
    push_dec_u64(&mut out, cursor_row as u64);
    push_str_chars(&mut out, ", ");
    push_dec_u64(&mut out, cursor_col as u64);
    push_str_chars(&mut out, ") ---\n");
    proof {
        assert(out@ =~= spec_fts_header(cursor_row, cursor_col, size));
    }
    let tv = chars_of(text);
    let pieces = split_char(&tv, '\n');
    let ghost sp = spec_split(text@, '\n');
    proof {
        assert(pieces@.map_values(|p: Vec<char>| p@) == sp);
        crate::region::lemma_split_nonempty_pub(text@);
    }
    let mut nlines = pieces.len();
    if pieces[nlines - 1].len() == 0 {
        nlines = nlines - 1;
    }
    let ghost lines = spec_text_lines(text@);
    proof {
        assert(lines.len() == nlines);
    }
    let ghost header = out@;
    let mut i: usize = 0;
    while i < nlines
        invariant
            nlines <= pieces@.len(),
            pieces@.map_values(|p: Vec<char>| p@) == sp,
            sp == spec_split(text@, '\n'),
            lines == spec_text_lines(text@),
            lines.len() == nlines,
            i <= nlines,
            out@ =~= spec_fts_rows_partial(
                lines,
                i as int,
                cursor_row as int,
                cursor_col as int,
                header,
            ),
        decreases nlines - i,
    {
        proof {
            assert(pieces@.map_values(|p: Vec<char>| p@)[i as int] == pieces@[i as int]@);
            assert(lines[i as int] == spec_strip_cr(sp[i as int]));
        }
        let piece = &pieces[i];
        let mut plen = piece.len();
        if plen > 0 && piece[plen - 1] == '\r' {
            plen = plen - 1;
        }
        let line = sub_chars(piece, 0, plen);
        proof {
            assert(line@ =~= spec_strip_cr(piece@));
        }
        push_fts_row(&mut out, &line, i == cursor_row as usize, cursor_col);
        proof {
            lemma_fts_rows_step(lines, i as int, cursor_row as int, cursor_col as int, header);
        }
        i = i + 1;
    }
    if cursor_row as usize >= nlines {
        push_newlines(&mut out, cursor_row as usize - nlines);
        push_spaces(&mut out, cursor_col as usize);
        out.push('[');
        out.push('_');
        out.push(']');
        out.push('\n');
    }
    proof {
        lemma_fts_rows_done(lines, cursor_row as int, cursor_col as int, header);
        assert(out@ =~= spec_format_text_snapshot(text@, cursor_row, cursor_col, size));
    }
    string_of(&out)
}

/// The rendered rows before row `i`, after the header.
pub open spec fn spec_fts_rows_partial(
    lines: Seq<Seq<char>>,
    i: int,
    crow: int,
    ccol: int,
    header: Seq<char>,
) -> Seq<char>
    decreases i,
{
    if i <= 0 {
        header
    } else {
        let rendered = if i - 1 == crow {
            spec_cursor_line(lines[i - 1], ccol)
        } else {
            lines[i - 1]
        };
        spec_fts_rows_partial(lines, i - 1, crow, ccol, header) + rendered + seq!['\n']
    }
}

proof fn lemma_fts_rows_step(lines: Seq<Seq<char>>, i: int, crow: int, ccol: int, header: Seq<
    char,
>)
    requires
        0 <= i < lines.len(),
    ensures
        spec_fts_rows_partial(lines, i + 1, crow, ccol, header) == spec_fts_rows_partial(
            lines,
            i,
            crow,
            ccol,
            header,
        ) + (if i == crow {
            spec_cursor_line(lines[i], ccol)
        } else {
            lines[i]
        }) + seq!['\n'],
{
}

proof fn lemma_fts_rows_done(lines: Seq<Seq<char>>, crow: int, ccol: int, header: Seq<char>)
    ensures
        spec_fts_rows_partial(lines, lines.len() as int, crow, ccol, header) == header
            + spec_fts_rows(lines, 0, crow, ccol, Seq::empty()),
{
    lemma_fts_rows_shift(lines, 0, crow, ccol, header, Seq::empty());
}

proof fn lemma_fts_rows_shift(
    lines: Seq<Seq<char>>,
    i: int,
    crow: int,
    ccol: int,
    header: Seq<char>,
    acc: Seq<char>,
)
    requires
        0 <= i <= lines.len(),
        spec_fts_rows_partial(lines, i, crow, ccol, header) == header + acc,
    ensures
        spec_fts_rows_partial(lines, lines.len() as int, crow, ccol, header) == header
            + spec_fts_rows(lines, i, crow, ccol, acc),
    decreases lines.len() - i,
{
    if i < lines.len() {
        let rendered = if i == crow {
            spec_cursor_line(lines[i], ccol)
        } else {
            lines[i]
        };
        lemma_fts_rows_step(lines, i, crow, ccol, header);
        assert(spec_fts_rows_partial(lines, i + 1, crow, ccol, header) =~= header + (acc
            + rendered + seq!['\n']));
        lemma_fts_rows_shift(lines, i + 1, crow, ccol, header, acc + rendered + seq!['\n']);
    }
}

} // verus!
