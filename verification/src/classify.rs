//! Classification: turning clusters into interactive elements by
//! priority-ordered pattern rules, with sub-cluster token extraction.

use vstd::prelude::*;
use vstd::multiset::Multiset;

use crate::chars::{
    chars_of, spec_trim, spec_trim_start, trim_chars, spec_all_whitespace, all_whitespace,
    is_whitespace_char, contains_char, string_of,
};
use crate::elements::{Element, ElementKind};
use crate::grid::ScreenGrid;
use crate::segment::{segment, Cluster};
use crate::width::{display_width_u16, spec_display_width};

verus! {

/// Context for classification decisions that depend on screen position.
#[derive(Debug, Clone, Copy, PartialEq, Eq, Structural)]
pub struct ClassifyContext {
    /// Cursor row, when known. Clusters under the cursor become inputs.
    pub cursor_row: Option<u16>,
    /// Cursor column, when known.
    pub cursor_col: Option<u16>,
}

impl Default for ClassifyContext {
    fn default() -> (r: Self)
        ensures
            r.cursor_row is None,
            r.cursor_col is None,
    {
        ClassifyContext { cursor_row: None, cursor_col: None }
    }
}

impl ClassifyContext {
    /// A context with no cursor information.
    pub fn new() -> (r: Self)
        ensures
            r.cursor_row is None,
            r.cursor_col is None,
    {
        ClassifyContext { cursor_row: None, cursor_col: None }
    }

    /// The same context with the cursor at `(row, col)`.
    pub fn with_cursor(self, row: u16, col: u16) -> (r: Self)
        ensures
            r.cursor_row == Some(row),
            r.cursor_col == Some(col),
    {
        ClassifyContext { cursor_row: Some(row), cursor_col: Some(col) }
    }
}

/// Whether the cursor lies on `row` within `[col, col + width)`, the
/// upper bound saturating at `u16::MAX`.
pub open spec fn spec_cursor_in_range(ctx: ClassifyContext, row: u16, col: u16, width: u16) -> bool {
    match (ctx.cursor_row, ctx.cursor_col) {
        (Some(cr), Some(cc)) => cr == row && cc >= col && (cc as int) < (if col + width > 0xffff {
            0xffffint
        } else {
            col + width
        }),
        _ => false,
    }
}

/// Whether the cursor is within a one-row range of the screen.
pub fn cursor_in_range(ctx: &ClassifyContext, row: u16, col: u16, width: u16) -> (r: bool)
    ensures
        r == spec_cursor_in_range(*ctx, row, col, width),
{
    match (ctx.cursor_row, ctx.cursor_col) {
        (Some(cursor_row), Some(cursor_col)) => {
            let hi: u16 = if col > 0xffff - width {
                0xffff
            } else {
                col + width
            };
            cursor_row == row && cursor_col >= col && cursor_col < hi
        },
        _ => false,
    }
}

/// A standalone checkbox glyph.
pub open spec fn spec_is_unicode_checkbox(t: Seq<char>) -> bool {
    t.len() == 1 && (t[0] == '☑' || t[0] == '☐' || t[0] == '□' || t[0] == '✓' || t[0] == '✔'
        || t[0] == '☒')
}

/// Whether `text` is a single checkbox glyph.
pub fn is_unicode_checkbox(text: &str) -> (r: bool)
    ensures
        r == spec_is_unicode_checkbox(text@),
{
    let v = chars_of(text);
    v.len() == 1 && (v[0] == '☑' || v[0] == '☐' || v[0] == '□' || v[0] == '✓' || v[0] == '✔'
        || v[0] == '☒')
}

/// The checkbox reading of a text: `Some(state)` for a checkbox glyph or
/// a three-character `[_]` / `(_)` marker, `None` otherwise.
pub open spec fn spec_checkbox_pattern(t: Seq<char>) -> Option<bool> {
    let s = spec_trim(t);
    if s.len() == 1 && (s[0] == '☑' || s[0] == '✓' || s[0] == '✔' || s[0] == '☒') {
        Some(true)
    } else if s.len() == 1 && (s[0] == '☐' || s[0] == '□') {
        Some(false)
    } else if s.len() == 3 && ((s[0] == '[' && s[2] == ']') || (s[0] == '(' && s[2] == ')')) {
        if s[1] == 'x' || s[1] == 'X' || s[1] == '*' || s[1] == '✓' || s[1] == '✔' {
            Some(true)
        } else if s[1] == ' ' || s[1] == '.' || s[1] == '-' {
            Some(false)
        } else {
            None
        }
    } else {
        None
    }
}

/// Whether `text` is a checkbox pattern, and its state if so. An
/// indeterminate marker `[-]` counts as unchecked.
pub fn is_checkbox_pattern(text: &str) -> (r: Option<bool>)
    ensures
        r == spec_checkbox_pattern(text@),
{
    let v = chars_of(text);
    let s = trim_chars(&v);
    if s.len() == 1 && (s[0] == '☑' || s[0] == '✓' || s[0] == '✔' || s[0] == '☒') {
        Some(true)
    } else if s.len() == 1 && (s[0] == '☐' || s[0] == '□') {
        Some(false)
    } else if s.len() == 3 && ((s[0] == '[' && s[2] == ']') || (s[0] == '(' && s[2] == ')')) {
        if s[1] == 'x' || s[1] == 'X' || s[1] == '*' || s[1] == '✓' || s[1] == '✔' {
            Some(true)
        } else if s[1] == ' ' || s[1] == '.' || s[1] == '-' {
            Some(false)
        } else {
            None
        }
    } else {
        None
    }
}

/// Whether bracket-interior content is itself a checkbox marker.
pub open spec fn spec_is_checkbox_content(t: Seq<char>) -> bool {
    let s = spec_trim(t);
    s.len() == 1 && (s[0] == 'x' || s[0] == 'X' || s[0] == '*' || s[0] == '-' || s[0] == '✓'
        || s[0] == '✔')
}

/// Whether content inside brackets looks like a checkbox marker.
pub fn is_checkbox_content(content: &str) -> (r: bool)
    ensures
        r == spec_is_checkbox_content(content@),
{
    let v = chars_of(content);
    let s = trim_chars(&v);
    s.len() == 1 && (s[0] == 'x' || s[0] == 'X' || s[0] == '*' || s[0] == '-' || s[0] == '✓'
        || s[0] == '✔')
}

/// Whether a character is typical of progress bars.
pub open spec fn spec_is_progress_char(c: char) -> bool {
    c == '=' || c == '>' || c == '-' || c == '#' || c == ' ' || c == '█' || c == '░'
}

/// How many characters of `t` are progress-bar-typical.
pub open spec fn spec_progress_count(t: Seq<char>) -> nat
    decreases t.len(),
{
    if t.len() == 0 {
        0
    } else {
        (if spec_is_progress_char(t[0]) {
            1nat
        } else {
            0nat
        }) + spec_progress_count(t.drop_first())
    }
}

/// Whether bracket-interior content looks like a progress bar: non-empty
/// with at least 80% progress-typical characters.
pub open spec fn spec_is_progress_bar_content(t: Seq<char>) -> bool {
    t.len() > 0 && spec_progress_count(t) * 10 >= t.len() * 8
}

proof fn lemma_progress_count_push(t: Seq<char>, c: char)
    ensures
        spec_progress_count(t.push(c)) == spec_progress_count(t) + (if spec_is_progress_char(c) {
            1nat
        } else {
            0nat
        }),
    decreases t.len(),
{
    let u = t.push(c);
    assert(spec_progress_count(u) == (if spec_is_progress_char(u[0]) {
        1nat
    } else {
        0nat
    }) + spec_progress_count(u.drop_first()));
    if t.len() == 0 {
        assert(u[0] == c);
        assert(u.drop_first() =~= Seq::<char>::empty());
    } else {
        assert(u[0] == t[0]);
        assert(u.drop_first() =~= t.drop_first().push(c));
        lemma_progress_count_push(t.drop_first(), c);
    }
}

/// Whether content inside brackets looks like progress-bar filler.
pub fn is_progress_bar_content(content: &str) -> (r: bool)
    ensures
        r == spec_is_progress_bar_content(content@),
{
    let v = chars_of(content);
    let n = v.len();
    if n == 0 {
        return false;
    }
    let mut count: usize = 0;
    for i in 0..n
        invariant
            n == v@.len(),
            count == spec_progress_count(v@.take(i as int)),
            count <= i,
    {
        let c = v[i];
        proof {
            lemma_progress_count_push(v@.take(i as int), v@[i as int]);
            assert(v@.take(i as int).push(v@[i as int]) =~= v@.take(i + 1));
        }
        if c == '=' || c == '>' || c == '-' || c == '#' || c == ' ' || c == '█' || c == '░' {
            count = count + 1;
        }
    }
    assert(v@.take(n as int) =~= v@);
    (count as u128) * 10 >= (n as u128) * 8
}

/// The bracket pairs recognized as buttons or token delimiters.
pub open spec fn spec_closer_of(c: char) -> Option<char> {
    if c == '[' {
        Some(']')
    } else if c == '<' {
        Some('>')
    } else if c == '(' {
        Some(')')
    } else if c == '【' {
        Some('】')
    } else if c == '「' {
        Some('」')
    } else {
        None
    }
}

fn closer_of(c: char) -> (r: Option<char>)
    ensures
        r == spec_closer_of(c),
{
    if c == '[' {
        Some(']')
    } else if c == '<' {
        Some('>')
    } else if c == '(' {
        Some(')')
    } else if c == '【' {
        Some('】')
    } else if c == '「' {
        Some('」')
    } else {
        None
    }
}

/// A whole text that is one bracketed button label: a matching bracket
/// pair around a non-empty interior that holds no further brackets of the
/// pair and is neither checkbox nor progress-bar content.
pub open spec fn spec_is_button_pattern(t: Seq<char>) -> bool {
    let s = spec_trim(t);
    &&& s.len() >= 3
    &&& spec_closer_of(s[0]) == Some(s[s.len() - 1])
    &&& !s.subrange(1, s.len() - 1).contains(s[0])
    &&& !s.subrange(1, s.len() - 1).contains(s[s.len() - 1])
    &&& !spec_is_checkbox_content(s.subrange(1, s.len() - 1))
    &&& !spec_is_progress_bar_content(s.subrange(1, s.len() - 1))
    &&& spec_trim(s.subrange(1, s.len() - 1)).len() > 0
}

/// Whether `text` is a single bracketed button pattern such as `[OK]`,
/// `<Cancel>` or `(Submit)`.
pub fn is_button_pattern(text: &str) -> (r: bool)
    ensures
        r == spec_is_button_pattern(text@),
{
    let v = chars_of(text);
    let s = trim_chars(&v);
    let n = s.len();
    if n < 3 {
        return false;
    }
    let first = s[0];
    let last = s[n - 1];
    let closer = match closer_of(first) {
        Some(c) => c,
        None => {
            return false;
        },
    };
    if closer != last {
        return false;
    }
    let mut interior: Vec<char> = Vec::new();
    for i in 1..(n - 1)
        invariant
            n == s@.len(),
            n >= 3,
            interior@ =~= s@.subrange(1, i as int),
    {
        interior.push(s[i]);
        assert(interior@ =~= s@.subrange(1, i + 1));
    }
    if contains_char(&interior, first) || contains_char(&interior, last) {
        return false;
    }
    let interior_str = string_of(&interior);
    if is_checkbox_content(interior_str.as_str()) {
        return false;
    }
    if is_progress_bar_content(interior_str.as_str()) {
        return false;
    }
    let trimmed_interior = trim_chars(&interior);
    trimmed_interior.len() > 0
}

/// All characters are underscores.
pub open spec fn spec_all_underscores(t: Seq<char>) -> bool {
    forall|i: int| 0 <= i < t.len() ==> t[i] == '_'
}

fn all_underscores(v: &Vec<char>) -> (r: bool)
    ensures
        r == spec_all_underscores(v@),
{
    let n = v.len();
    for i in 0..n
        invariant
            n == v@.len(),
            forall|j: int| 0 <= j < i ==> v@[j] == '_',
    {
        if v[i] != '_' {
            return false;
        }
    }
    true
}

/// The index of the first occurrence of `c` in `t`, or -1.
pub open spec fn spec_find(t: Seq<char>, c: char) -> int
    decreases t.len(),
{
    if t.len() == 0 {
        -1
    } else if t[0] == c {
        0
    } else {
        let r = spec_find(t.drop_first(), c);
        if r < 0 {
            -1
        } else {
            r + 1
        }
    }
}

proof fn lemma_find_exact(t: Seq<char>, c: char, j: int)
    requires
        0 <= j <= t.len(),
        forall|k: int| 0 <= k < j ==> t[k] != c,
        j == t.len() || t[j] == c,
    ensures
        spec_find(t, c) == if j == t.len() {
            -1int
        } else {
            j
        },
    decreases j + 1,
{
    if t.len() == 0 {
    } else if j == 0 {
    } else {
        assert(t[0] != c);
        assert(t.drop_first().len() == t.len() - 1);
        assert forall|k: int| 0 <= k < j - 1 implies t.drop_first()[k] != c by {
            assert(t.drop_first()[k] == t[k + 1]);
        }
        if j < t.len() {
            assert(t.drop_first()[j - 1] == t[j]);
        }
        lemma_find_exact(t.drop_first(), c, j - 1);
    }
}

/// Finds the first occurrence of `c` in `v`.
fn find_char(v: &Vec<char>, c: char) -> (r: Option<usize>)
    ensures
        spec_find(v@, c) >= 0 ==> (r matches Some(i) && i == spec_find(v@, c) && i < v@.len()),
        spec_find(v@, c) < 0 ==> r is None,
{
    let n = v.len();
    for i in 0..n
        invariant
            n == v@.len(),
            forall|k: int| 0 <= k < i ==> v@[k] != c,
    {
        if v[i] == c {
            proof {
                lemma_find_exact(v@, c, i as int);
            }
            return Some(i);
        }
    }
    proof {
        lemma_find_exact(v@, c, n as int);
    }
    None
}

/// A whole text that reads as an input field: an underscore run of three
/// or more, an empty bracketed field `[  ]`, or a label ending in a colon
/// followed by underscores.
pub open spec fn spec_is_input_pattern(t: Seq<char>) -> bool {
    let s = spec_trim(t);
    ||| (s.len() >= 3 && spec_all_underscores(s))
    ||| (s.len() >= 4 && s[0] == '[' && s[s.len() - 1] == ']' && spec_all_whitespace(
        s.subrange(1, s.len() - 1),
    ) && s.len() - 2 >= 2)
    ||| (spec_find(s, ':') >= 0 && {
        let after = spec_trim_start(s.skip(spec_find(s, ':') + 1));
        after.len() >= 3 && spec_all_underscores(after)
    })
}

/// Whether `text` looks like an input-field placeholder such as `____`,
/// `[    ]`, or `Name: ___`.
pub fn is_input_pattern(text: &str) -> (r: bool)
    ensures
        r == spec_is_input_pattern(text@),
{
    let v = chars_of(text);
    let s = trim_chars(&v);
    let n = s.len();
    if n >= 3 && all_underscores(&s) {
        return true;
    }
    if n >= 4 && s[0] == '[' && s[n - 1] == ']' {
        let mut inner: Vec<char> = Vec::new();
        for i in 1..(n - 1)
            invariant
                n == s@.len(),
                n >= 4,
                inner@ =~= s@.subrange(1, i as int),
        {
            inner.push(s[i]);
            assert(inner@ =~= s@.subrange(1, i + 1));
        }
        if all_whitespace(&inner) {
            return true;
        }
    }
    match find_char(&s, ':') {
        Some(pos) => {
            let mut after: Vec<char> = Vec::new();
            let mut k: usize = pos + 1;
            while k < n && is_whitespace_char(s[k])
                invariant
                    pos < k <= n,
                    n == s@.len(),
                    spec_trim_start(s@.skip(pos + 1)) == spec_trim_start(s@.skip(k as int)),
                decreases n - k,
            {
                proof {
                    crate::chars::lemma_trim_start_skip(s@, k as int);
                }
                k = k + 1;
            }
            proof {
                assert(s@.skip(k as int).len() == 0 || !crate::chars::spec_is_whitespace(
                    s@.skip(k as int)[0],
                ));
                assert(spec_trim_start(s@.skip(k as int)) == s@.skip(k as int));
            }
            let start = k;
            let mut m: usize = k;
            while m < n
                invariant
                    start <= m <= n,
                    n == s@.len(),
                    after@ =~= s@.subrange(start as int, m as int),
                decreases n - m,
            {
                after.push(s[m]);
                assert(after@ =~= s@.subrange(start as int, m + 1));
                m = m + 1;
            }
            proof {
                assert(after@ =~= s@.skip(start as int));
            }
            after.len() >= 3 && all_underscores(&after)
        },
        None => false,
    }
}

/// Maximum cluster text length in bytes for tokenization; longer text is
/// pathological and yields no tokens.
pub const MAX_CLUSTER_TEXT_LEN: usize = 4096;

/// The UTF-8 byte length of a character sequence.
pub open spec fn spec_utf8_len(t: Seq<char>) -> nat {
    vstd::utf8::encode_utf8(t).len()
}

proof fn lemma_utf8_len_push(t: Seq<char>, c: char)
    ensures
        spec_utf8_len(t.push(c)) == spec_utf8_len(t) + vstd::utf8::encode_scalar(c as u32).len(),
    decreases t.len(),
{
    let u = t.push(c);
    assert(vstd::utf8::encode_utf8(u) == vstd::utf8::encode_scalar(u[0] as u32)
        + vstd::utf8::encode_utf8(u.drop_first()));
    if t.len() == 0 {
        assert(u[0] == c);
        assert(u.drop_first() =~= Seq::<char>::empty());
        assert(vstd::utf8::encode_utf8(Seq::<char>::empty()) =~= Seq::<u8>::empty());
    } else {
        assert(u[0] == t[0]);
        assert(u.drop_first() =~= t.drop_first().push(c));
        lemma_utf8_len_push(t.drop_first(), c);
        assert(vstd::utf8::encode_utf8(t) == vstd::utf8::encode_scalar(t[0] as u32)
            + vstd::utf8::encode_utf8(t.drop_first()));
    }
}

/// The UTF-8 byte length of one character.
fn char_utf8_len(c: char) -> (r: usize)
    ensures
        r == vstd::utf8::encode_scalar(c as u32).len(),
        1 <= r <= 4,
{
    proof {
        vstd::utf8::char_is_scalar(c);
    }
    let u = c as u32;
    if u <= 0x7f {
        1
    } else if u <= 0x7ff {
        2
    } else if u <= 0xffff {
        3
    } else {
        4
    }
}

/// A token extracted from a cluster's text: a bracketed group or an
/// underscore run, with its byte offset in the cluster text.
#[derive(Debug, Clone)]
pub struct Token {
    /// Text content of the token.
    pub text: String,
    /// Byte offset from the start of the cluster text.
    pub byte_offset: usize,
}

/// The character span of a token within its cluster text.
pub struct TokenModel {
    pub start: int,
    pub end: int,
}

/// Whether the concrete tokens carry exactly the spans of `ms` within `t`.
pub open spec fn spec_tokens_match(toks: Seq<Token>, t: Seq<char>, ms: Seq<TokenModel>) -> bool {
    &&& toks.len() == ms.len()
    &&& forall|i: int|
        0 <= i < ms.len() ==> (#[trigger] toks[i]).text@ == t.subrange(ms[i].start, ms[i].end)
            && toks[i].byte_offset == spec_utf8_len(t.take(ms[i].start))
}

/// The bracketed-token candidates of `t` from position `i` on: an opener
/// whose closer appears later, spanning at least three characters.
pub open spec fn spec_bracket_candidates(t: Seq<char>, i: int) -> Seq<TokenModel>
    decreases t.len() - i,
{
    if i < 0 || i >= t.len() {
        Seq::empty()
    } else {
        let rest = spec_bracket_candidates(t, i + 1);
        match spec_closer_of(t[i]) {
            Some(closer) => {
                let f = spec_find(t.skip(i + 1), closer);
                if f >= 0 && (i + 2 + f) - i >= 3 {
                    seq![TokenModel { start: i, end: i + 2 + f }] + rest
                } else {
                    rest
                }
            },
            None => rest,
        }
    }
}

/// Candidates kept in order, dropping any that overlaps a kept one.
pub open spec fn spec_dedup_tokens(cands: Seq<TokenModel>, last_end: int) -> Seq<TokenModel>
    decreases cands.len(),
{
    if cands.len() == 0 {
        Seq::empty()
    } else if cands[0].start >= last_end {
        seq![cands[0]] + spec_dedup_tokens(cands.drop_first(), cands[0].end)
    } else {
        spec_dedup_tokens(cands.drop_first(), last_end)
    }
}

/// The bracketed tokens of a cluster text: non-overlapping candidates in
/// order; none at all when the text is over the size guard.
pub open spec fn spec_bracket_tokens(t: Seq<char>) -> Seq<TokenModel> {
    if spec_utf8_len(t) > MAX_CLUSTER_TEXT_LEN {
        Seq::empty()
    } else {
        spec_dedup_tokens(spec_bracket_candidates(t, 0), 0)
    }
}

/// The end of the underscore run starting at `i`.
pub open spec fn spec_u_run(t: Seq<char>, i: int) -> int
    decreases t.len() - i,
{
    if i < 0 || i >= t.len() || t[i] != '_' {
        i
    } else {
        spec_u_run(t, i + 1)
    }
}

/// The run end stays within the text and past `i` on an underscore.
pub proof fn lemma_u_run_bounds(t: Seq<char>, i: int)
    requires
        0 <= i <= t.len(),
    ensures
        i <= spec_u_run(t, i) <= t.len(),
        i < t.len() && t[i] == '_' ==> spec_u_run(t, i) > i,
        forall|k: int| i <= k < spec_u_run(t, i) ==> t[k] == '_',
        spec_u_run(t, i) < t.len() ==> t[spec_u_run(t, i)] != '_',
    decreases t.len() - i,
{
    if i < t.len() && t[i] == '_' {
        lemma_u_run_bounds(t, i + 1);
    }
}

/// The underscore-run tokens of `t` from `i` on: maximal runs of three or
/// more underscores.
pub open spec fn spec_underscore_tokens_from(t: Seq<char>, i: int) -> Seq<TokenModel>
    decreases t.len() - i,
    via spec_underscore_tokens_decreases
{
    if i < 0 || i >= t.len() {
        Seq::empty()
    } else if t[i] != '_' {
        spec_underscore_tokens_from(t, i + 1)
    } else {
        let j = spec_u_run(t, i);
        (if j - i >= 3 {
            seq![TokenModel { start: i, end: j }]
        } else {
            Seq::empty()
        }) + spec_underscore_tokens_from(t, j)
    }
}

#[via_fn]
proof fn spec_underscore_tokens_decreases(t: Seq<char>, i: int) {
    if 0 <= i < t.len() && t[i] == '_' {
        lemma_u_run_bounds(t, i);
    }
}

/// The underscore tokens of a cluster text, under the same size guard.
pub open spec fn spec_underscore_tokens(t: Seq<char>) -> Seq<TokenModel> {
    if spec_utf8_len(t) > MAX_CLUSTER_TEXT_LEN {
        Seq::empty()
    } else {
        spec_underscore_tokens_from(t, 0)
    }
}

/// All token spans lie within the text with positive extent.
pub open spec fn spec_spans_ok(ms: Seq<TokenModel>, t: Seq<char>) -> bool {
    forall|i: int| 0 <= i < ms.len() ==> 0 <= (#[trigger] ms[i]).start < ms[i].end <= t.len()
}

proof fn lemma_candidates_ok(t: Seq<char>, i: int)
    requires
        0 <= i,
    ensures
        spec_spans_ok(spec_bracket_candidates(t, i), t),
    decreases t.len() - i,
{
    if i < t.len() {
        lemma_candidates_ok(t, i + 1);
        match spec_closer_of(t[i]) {
            Some(closer) => {
                let f = spec_find(t.skip(i + 1), closer);
                if f >= 0 && (i + 2 + f) - i >= 3 {
                    lemma_find_in_range(t.skip(i + 1), closer);
                }
            },
            None => {},
        }
    }
}

proof fn lemma_find_in_range(t: Seq<char>, c: char)
    ensures
        spec_find(t, c) < t.len(),
    decreases t.len(),
{
    if t.len() > 0 && t[0] != c {
        lemma_find_in_range(t.drop_first(), c);
    }
}

proof fn lemma_dedup_subset(cands: Seq<TokenModel>, last_end: int, t: Seq<char>)
    requires
        spec_spans_ok(cands, t),
    ensures
        spec_spans_ok(spec_dedup_tokens(cands, last_end), t),
    decreases cands.len(),
{
    if cands.len() > 0 {
        assert(spec_spans_ok(cands.drop_first(), t));
        if cands[0].start >= last_end {
            lemma_dedup_subset(cands.drop_first(), cands[0].end, t);
        } else {
            lemma_dedup_subset(cands.drop_first(), last_end, t);
        }
    }
}

/// `utf8` length of a prefix never exceeds that of the whole.
proof fn lemma_utf8_len_mono(t: Seq<char>, s: int)
    requires
        0 <= s <= t.len(),
    ensures
        spec_utf8_len(t.take(s)) <= spec_utf8_len(t),
        spec_utf8_len(t) <= 4 * t.len(),
        spec_utf8_len(t) >= t.len(),
    decreases t.len(),
{
    if t.len() == 0 {
        assert(t.take(s) =~= t);
    } else {
        assert(vstd::utf8::encode_utf8(t) == vstd::utf8::encode_scalar(t[0] as u32)
            + vstd::utf8::encode_utf8(t.drop_first()));
        vstd::utf8::char_is_scalar(t[0]);
        assert(1 <= vstd::utf8::encode_scalar(t[0] as u32).len() <= 4);
        if s == 0 {
            assert(t.take(0) =~= Seq::<char>::empty());
            lemma_utf8_len_mono(t.drop_first(), 0);
        } else {
            assert(t.take(s).drop_first() =~= t.drop_first().take(s - 1));
            assert(t.take(s)[0] == t[0]);
            assert(vstd::utf8::encode_utf8(t.take(s)) == vstd::utf8::encode_scalar(t[0] as u32)
                + vstd::utf8::encode_utf8(t.drop_first().take(s - 1)));
            lemma_utf8_len_mono(t.drop_first(), s - 1);
        }
    }
}

/// The UTF-8 byte length of the first `s` characters of `v`.
fn utf8_len_prefix(v: &Vec<char>, s: usize) -> (r: usize)
    requires
        s <= v@.len(),
        spec_utf8_len(v@) <= MAX_CLUSTER_TEXT_LEN,
    ensures
        r == spec_utf8_len(v@.take(s as int)),
        r <= MAX_CLUSTER_TEXT_LEN,
{
    let mut acc: usize = 0;
    proof {
        assert(vstd::utf8::encode_utf8(Seq::<char>::empty()) =~= Seq::<u8>::empty());
        assert(v@.take(0) =~= Seq::<char>::empty());
    }
    for k in 0..s
        invariant
            s <= v@.len(),
            spec_utf8_len(v@) <= MAX_CLUSTER_TEXT_LEN,
            acc == spec_utf8_len(v@.take(k as int)),
            acc <= MAX_CLUSTER_TEXT_LEN,
    {
        let cl = char_utf8_len(v[k]);
        proof {
            lemma_utf8_len_push(v@.take(k as int), v@[k as int]);
            assert(v@.take(k as int).push(v@[k as int]) =~= v@.take(k + 1));
            lemma_utf8_len_mono(v@, k + 1);
        }
        acc = acc + cl;
    }
    acc
}

/// The characters `[s, e)` of `v` as a string.
fn substring_chars(v: &Vec<char>, s: usize, e: usize) -> (r: String)
    requires
        s <= e <= v@.len(),
    ensures
        r@ == v@.subrange(s as int, e as int),
{
    let mut out: Vec<char> = Vec::new();
    for k in s..e
        invariant
            s <= e <= v@.len(),
            out@ =~= v@.subrange(s as int, k as int),
    {
        out.push(v[k]);
        assert(out@ =~= v@.subrange(s as int, k + 1));
    }
    string_of(&out)
}

/// Extracts bracketed tokens such as `[OK]`, `<Cancel>` or `( )` from a
/// cluster text, with their byte offsets; overlapping finds are dropped
/// in favor of the earlier one, and oversized text yields none.
#[verifier::rlimit(80)]
pub fn extract_bracketed_tokens(text: &str) -> (r: Vec<Token>)
    ensures
        spec_tokens_match(r@, text@, spec_bracket_tokens(text@)),
{
    let mut out: Vec<Token> = Vec::new();
    if text.as_bytes().len() > MAX_CLUSTER_TEXT_LEN {
        return out;
    }
    let v = chars_of(text);
    let n = v.len();
    let ghost t = text@;
    let mut cands: Vec<(usize, usize)> = Vec::new();
    proof {
        assert(cands@.map_values(
            |p: (usize, usize)| TokenModel { start: p.0 as int, end: p.1 as int },
        ) =~= Seq::<TokenModel>::empty());
        assert(spec_bracket_candidates(t, 0) =~= Seq::<TokenModel>::empty()
            + spec_bracket_candidates(t, 0));
    }
    for i in 0..n
        invariant
            n == v@.len(),
            v@ == t,
            spec_utf8_len(t) <= MAX_CLUSTER_TEXT_LEN,
            spec_bracket_candidates(t, 0) =~= cands@.map_values(
                |p: (usize, usize)| TokenModel { start: p.0 as int, end: p.1 as int },
            ) + spec_bracket_candidates(t, i as int),
            forall|k: int|
                0 <= k < cands@.len() ==> 0 <= (#[trigger] cands@[k]).0 < cands@[k].1 <= n,
    {
        match closer_of(v[i]) {
            Some(closer) => {
                let mut suffix: Vec<char> = Vec::new();
                for k in (i + 1)..n
                    invariant
                        i < n,
                        n == v@.len(),
                        suffix@ =~= v@.subrange(i + 1, k as int),
                    decreases n - k,
                {
                    suffix.push(v[k]);
                    assert(suffix@ =~= v@.subrange(i + 1, k + 1));
                }
                proof {
                    assert(suffix@ =~= t.skip(i + 1));
                }
                match find_char(&suffix, closer) {
                    Some(f) => {
                        let e = i + 2 + f;
                        if e - i >= 3 {
                            let ghost prev = cands@;
                            cands.push((i, e));
                            proof {
                                assert(cands@.map_values(
                                    |p: (usize, usize)| TokenModel {
                                        start: p.0 as int,
                                        end: p.1 as int,
                                    },
                                ) =~= prev.map_values(
                                    |p: (usize, usize)| TokenModel {
                                        start: p.0 as int,
                                        end: p.1 as int,
                                    },
                                ).push(TokenModel { start: i as int, end: e as int }));
                                lemma_find_in_range(t.skip(i + 1), closer);
                                assert(spec_bracket_candidates(t, i as int) =~= seq![
                                    TokenModel { start: i as int, end: e as int },
                                ] + spec_bracket_candidates(t, i + 1));
                            }
                        } else {
                            proof {
                                assert(spec_bracket_candidates(t, i as int)
                                    =~= spec_bracket_candidates(t, i + 1));
                            }
                        }
                    },
                    None => {
                        proof {
                            assert(spec_bracket_candidates(t, i as int)
                                =~= spec_bracket_candidates(t, i + 1));
                        }
                    },
                }
            },
            None => {
                proof {
                    assert(spec_bracket_candidates(t, i as int) =~= spec_bracket_candidates(
                        t,
                        i + 1,
                    ));
                }
            },
        }
    }
    proof {
        assert(spec_bracket_candidates(t, n as int) =~= Seq::<TokenModel>::empty());
    }
    let ghost cmodels = cands@.map_values(
        |p: (usize, usize)| TokenModel { start: p.0 as int, end: p.1 as int },
    );
    proof {
        assert(cmodels =~= spec_bracket_candidates(t, 0));
    }
    let nc = cands.len();
    let mut last_end: usize = 0;
    let ghost mut kept: Seq<TokenModel> = Seq::empty();
    proof {
        assert(cmodels.skip(0) =~= cmodels);
    }
    for k in 0..nc
        invariant
            nc == cands@.len(),
            n == v@.len(),
            v@ == t,
            spec_utf8_len(t) <= MAX_CLUSTER_TEXT_LEN,
            cmodels == cands@.map_values(
                |p: (usize, usize)| TokenModel { start: p.0 as int, end: p.1 as int },
            ),
            forall|j: int|
                0 <= j < cands@.len() ==> 0 <= (#[trigger] cands@[j]).0 < cands@[j].1 <= n,
            spec_dedup_tokens(cmodels, 0) =~= kept + spec_dedup_tokens(
                cmodels.skip(k as int),
                last_end as int,
            ),
            spec_tokens_match(out@, t, kept),
    {
        proof {
            assert(cmodels.skip(k as int)[0] == cmodels[k as int]);
            assert(cmodels.skip(k as int).drop_first() =~= cmodels.skip(k + 1));
            assert(cmodels[k as int] == (TokenModel {
                start: cands@[k as int].0 as int,
                end: cands@[k as int].1 as int,
            }));
        }
        let (s, e) = cands[k];
        if s >= last_end {
            let tok_text = substring_chars(&v, s, e);
            let bo = utf8_len_prefix(&v, s);
            out.push(Token { text: tok_text, byte_offset: bo });
            last_end = e;
            proof {
                kept = kept.push(TokenModel { start: s as int, end: e as int });
            }
        }
    }
    proof {
        assert(cmodels.skip(nc as int).len() == 0);
        assert(spec_dedup_tokens(cmodels.skip(nc as int), last_end as int) =~= Seq::<
            TokenModel,
        >::empty());
        assert(kept =~= spec_dedup_tokens(cmodels, 0));
        assert(spec_bracket_tokens(t) == spec_dedup_tokens(cmodels, 0));
    }
    out
}

/// Extracts runs of three or more underscores from a cluster text, with
/// their byte offsets; oversized text yields none.
#[verifier::rlimit(60)]
pub fn extract_underscore_runs(text: &str) -> (r: Vec<Token>)
    ensures
        spec_tokens_match(r@, text@, spec_underscore_tokens(text@)),
{
    let mut out: Vec<Token> = Vec::new();
    if text.as_bytes().len() > MAX_CLUSTER_TEXT_LEN {
        return out;
    }
    let v = chars_of(text);
    let n = v.len();
    let ghost t = text@;
    let ghost mut kept: Seq<TokenModel> = Seq::empty();
    let mut i: usize = 0;
    proof {
        assert(kept =~= Seq::<TokenModel>::empty());
        assert(spec_underscore_tokens_from(t, 0) =~= kept + spec_underscore_tokens_from(t, 0));
    }
    while i < n
        invariant
            n == v@.len(),
            v@ == t,
            i <= n,
            spec_utf8_len(t) <= MAX_CLUSTER_TEXT_LEN,
            spec_underscore_tokens_from(t, 0) =~= kept + spec_underscore_tokens_from(t, i as int),
            spec_tokens_match(out@, t, kept),
        decreases n - i,
    {
        if v[i] != '_' {
            proof {
                assert(spec_underscore_tokens_from(t, i as int) == spec_underscore_tokens_from(
                    t,
                    i + 1,
                ));
            }
            i = i + 1;
        } else {
            let mut j: usize = i;
            while j < n && v[j] == '_'
                invariant
                    i <= j <= n,
                    n == v@.len(),
                    v@ == t,
                    forall|k: int| i <= k < j ==> t[k] == '_',
                decreases n - j,
            {
                j = j + 1;
            }
            proof {
                lemma_u_run_exact(t, i as int, j as int);
            }
            if j - i >= 3 {
                let tok_text = substring_chars(&v, i, j);
                let bo = utf8_len_prefix(&v, i);
                out.push(Token { text: tok_text, byte_offset: bo });
                proof {
                    kept = kept.push(TokenModel { start: i as int, end: j as int });
                    assert(spec_underscore_tokens_from(t, i as int) =~= seq![
                        TokenModel { start: i as int, end: j as int },
                    ] + spec_underscore_tokens_from(t, j as int));
                }
            } else {
                proof {
                    assert(spec_underscore_tokens_from(t, i as int) =~= Seq::<
                        TokenModel,
                    >::empty() + spec_underscore_tokens_from(t, j as int));
                }
            }
            i = j;
        }
    }
    proof {
        assert(spec_underscore_tokens_from(t, n as int) =~= Seq::<TokenModel>::empty());
        assert(kept =~= spec_underscore_tokens_from(t, 0));
        assert(spec_underscore_tokens(t) == spec_underscore_tokens_from(t, 0));
    }
    out
}

proof fn lemma_u_run_exact(t: Seq<char>, i: int, j: int)
    requires
        0 <= i <= j <= t.len(),
        forall|k: int| i <= k < j ==> t[k] == '_',
        j == t.len() || t[j] != '_',
    ensures
        spec_u_run(t, i) == j,
    decreases j - i,
{
    if i < j {
        lemma_u_run_exact(t, i + 1, j);
    }
}

/// The mathematical shape of a detected element, without its width.
pub struct ElementModel {
    pub kind: ElementKind,
    pub row: int,
    pub col: int,
    pub text: Seq<char>,
    pub confidence: int,
    pub focused: bool,
    pub checked: Option<bool>,
}

/// The model of a concrete element.
pub open spec fn element_model(e: Element) -> ElementModel {
    ElementModel {
        kind: e.kind,
        row: e.row as int,
        col: e.col as int,
        text: e.text@,
        confidence: e.confidence as int,
        focused: e.focused,
        checked: e.checked,
    }
}

/// Every element's width is the display width of its text.
pub open spec fn spec_widths_ok(es: Seq<Element>) -> bool {
    forall|i: int|
        0 <= i < es.len() ==> (#[trigger] es[i]).width == crate::segment::spec_cluster_width(
            es[i].text@,
        )
}

/// Classification of a text at a position, in strict priority order:
/// checkbox patterns make a toggle; inverse video makes a focused button;
/// a bracket pattern makes a button, focused and certain under the
/// cursor; an input pattern makes an input; any other text under the
/// cursor makes a focused input; everything else is not interactive.
pub open spec fn spec_classify_text(
    t: Seq<char>,
    row: int,
    col: int,
    is_inverse: bool,
    cursor_in: bool,
) -> Option<ElementModel> {
    if spec_checkbox_pattern(t) is Some {
        Some(
            ElementModel {
                kind: ElementKind::Toggle,
                row,
                col,
                text: t,
                confidence: 100,
                focused: false,
                checked: spec_checkbox_pattern(t),
            },
        )
    } else if is_inverse {
        Some(
            ElementModel {
                kind: ElementKind::Button,
                row,
                col,
                text: t,
                confidence: 100,
                focused: true,
                checked: None,
            },
        )
    } else if spec_is_button_pattern(t) {
        Some(
            ElementModel {
                kind: ElementKind::Button,
                row,
                col,
                text: t,
                confidence: if cursor_in {
                    100int
                } else {
                    80int
                },
                focused: cursor_in,
                checked: None,
            },
        )
    } else if spec_is_input_pattern(t) {
        Some(
            ElementModel {
                kind: ElementKind::Input,
                row,
                col,
                text: t,
                confidence: if cursor_in {
                    100int
                } else {
                    60int
                },
                focused: cursor_in,
                checked: None,
            },
        )
    } else if cursor_in {
        Some(
            ElementModel {
                kind: ElementKind::Input,
                row,
                col,
                text: t,
                confidence: 100,
                focused: true,
                checked: None,
            },
        )
    } else {
        None
    }
}

/// Classifies a text at `(row, col)` into an element, or `None` for
/// non-interactive content.
pub fn classify_text(text: &str, row: u16, col: u16, is_inverse: bool, cursor_hit: bool) -> (r:
    Option<Element>)
    ensures
        match spec_classify_text(text@, row as int, col as int, is_inverse, cursor_hit) {
            Some(m) => r matches Some(e) && element_model(e) == m && e.width
                == crate::segment::spec_cluster_width(e.text@),
            None => r is None,
        },
{
    let tv = chars_of(text);
    let width = display_width_u16(&tv);
    match is_checkbox_pattern(text) {
        Some(checked) => {
            return Some(
                Element {
                    kind: ElementKind::Toggle,
                    row,
                    col,
                    width,
                    text: string_of(&tv),
                    confidence: 100,
                    focused: false,
                    checked: Some(checked),
                },
            );
        },
        None => {},
    }
    if is_inverse {
        return Some(
            Element {
                kind: ElementKind::Button,
                row,
                col,
                width,
                text: string_of(&tv),
                confidence: 100,
                focused: true,
                checked: None,
            },
        );
    }
    if is_button_pattern(text) {
        return Some(
            Element {
                kind: ElementKind::Button,
                row,
                col,
                width,
                text: string_of(&tv),
                confidence: if cursor_hit {
                    100
                } else {
                    80
                },
                focused: cursor_hit,
                checked: None,
            },
        );
    }
    if is_input_pattern(text) {
        return Some(
            Element {
                kind: ElementKind::Input,
                row,
                col,
                width,
                text: string_of(&tv),
                confidence: if cursor_hit {
                    100
                } else {
                    60
                },
                focused: cursor_hit,
                checked: None,
            },
        );
    }
    if cursor_hit {
        return Some(
            Element {
                kind: ElementKind::Input,
                row,
                col,
                width,
                text: string_of(&tv),
                confidence: 100,
                focused: true,
                checked: None,
            },
        );
    }
    None
}

/// The number of whole characters ending exactly at byte offset `bo`,
/// or -1 when `bo` is not a character boundary of `t`.
pub open spec fn spec_boundary_chars(t: Seq<char>, bo: int) -> int
    decreases t.len(),
{
    if bo == 0 {
        0
    } else if t.len() == 0 || bo < 0 {
        -1
    } else {
        let cl = vstd::utf8::encode_scalar(t[0] as u32).len();
        let r = spec_boundary_chars(t.drop_first(), bo - cl);
        if bo < cl || r < 0 {
            -1
        } else {
            1 + r
        }
    }
}

/// The display-column offset of the token at byte offset `byte_offset` of
/// `text`: the display width of the character prefix ending there, capped
/// at `u16::MAX`; 0 when the offset is not a character boundary.
pub fn token_col_offset(text: &str, byte_offset: usize) -> (r: u16)
    ensures
        r == if spec_boundary_chars(text@, byte_offset as int) >= 0 {
            crate::segment::spec_cluster_width(
                text@.take(spec_boundary_chars(text@, byte_offset as int)),
            )
        } else {
            0nat
        },
{
    let v = chars_of(text);
    let n = v.len();
    let mut p: usize = 0;
    let mut b: usize = 0;
    proof {
        assert(v@.skip(0) =~= v@);
    }
    while b < byte_offset && p < n
        invariant
            n == v@.len(),
            p <= n,
            b <= byte_offset,
            spec_boundary_chars(v@, byte_offset as int) == (if spec_boundary_chars(
                v@.skip(p as int),
                byte_offset - b,
            ) >= 0 {
                p + spec_boundary_chars(v@.skip(p as int), byte_offset - b)
            } else {
                -1int
            }),
        decreases n - p,
    {
        let cl = char_utf8_len(v[p]);
        proof {
            assert(v@.skip(p as int)[0] == v@[p as int]);
            assert(v@.skip(p as int).drop_first() =~= v@.skip(p + 1));
        }
        if byte_offset - b < cl {
            proof {
                assert(spec_boundary_chars(v@.skip(p as int), byte_offset - b) == -1);
            }
            return 0;
        }
        b = b + cl;
        p = p + 1;
    }
    if b == byte_offset {
        proof {
            assert(spec_boundary_chars(v@.skip(p as int), 0) == 0);
            assert(spec_boundary_chars(v@, byte_offset as int) == p);
        }
        let mut prefix: Vec<char> = Vec::new();
        for k in 0..p
            invariant
                p <= n,
                n == v@.len(),
                prefix@ =~= v@.take(k as int),
        {
            prefix.push(v[k]);
            assert(prefix@ =~= v@.take(k + 1));
        }
        display_width_u16(&prefix)
    } else {
        proof {
            assert(p == n);
            assert(v@.skip(n as int).len() == 0);
            assert(spec_boundary_chars(v@.skip(n as int), byte_offset - b) == -1);
        }
        0
    }
}

/// A byte offset built from a character prefix is a boundary of exactly
/// that many characters.
proof fn lemma_boundary_of_prefix(t: Seq<char>, s: int)
    requires
        0 <= s <= t.len(),
    ensures
        spec_boundary_chars(t, spec_utf8_len(t.take(s)) as int) == s,
    decreases s,
{
    if s == 0 {
        assert(t.take(0) =~= Seq::<char>::empty());
        assert(vstd::utf8::encode_utf8(Seq::<char>::empty()) =~= Seq::<u8>::empty());
    } else {
        let p = t.take(s);
        assert(p[0] == t[0]);
        assert(p.drop_first() =~= t.drop_first().take(s - 1));
        assert(vstd::utf8::encode_utf8(p) == vstd::utf8::encode_scalar(p[0] as u32)
            + vstd::utf8::encode_utf8(p.drop_first()));
        vstd::utf8::char_is_scalar(t[0]);
        assert(vstd::utf8::encode_scalar(t[0] as u32).len() >= 1);
        lemma_boundary_of_prefix(t.drop_first(), s - 1);
    }
}

/// The saturating column of a token: its cluster's column plus the
/// display width of the text before it, capped at `u16::MAX`.
pub open spec fn spec_token_col(col: u16, prefix_w: nat) -> u16 {
    if col + prefix_w > 0xffff {
        0xffffu16
    } else {
        (col + prefix_w) as u16
    }
}

/// The `u16` display width of a text.
pub open spec fn spec_w16(t: Seq<char>) -> u16 {
    crate::segment::spec_cluster_width(t) as u16
}

/// Focus inherited from an inverse parent cluster lifts confidence.
pub open spec fn spec_lift_focus(m: ElementModel, parent_focused: bool) -> ElementModel {
    if parent_focused && !m.focused {
        ElementModel { focused: true, confidence: 100, ..m }
    } else {
        m
    }
}

/// The elements that a token list yields: each token classified as its
/// own text at its own column, inheriting focus from an inverse parent.
pub open spec fn spec_token_elements(
    t: Seq<char>,
    row: u16,
    col: u16,
    parent_focused: bool,
    ctx: ClassifyContext,
    toks: Seq<TokenModel>,
) -> Seq<ElementModel>
    decreases toks.len(),
{
    if toks.len() == 0 {
        Seq::empty()
    } else {
        let tk = toks[0];
        let ttext = t.subrange(tk.start, tk.end);
        let tcol = spec_token_col(col, crate::segment::spec_cluster_width(t.take(tk.start)));
        let tcur = spec_cursor_in_range(ctx, row, tcol, spec_w16(ttext));
        (match spec_classify_text(ttext, row as int, tcol as int, false, tcur) {
            Some(m) => seq![spec_lift_focus(m, parent_focused)],
            None => Seq::empty(),
        }) + spec_token_elements(t, row, col, parent_focused, ctx, toks.drop_first())
    }
}

/// The elements of one cluster. A cluster that is itself a tight pattern
/// (a checkbox, a single bracket button, or an underscore run) yields
/// exactly its own classification; otherwise tokens found inside it win
/// over the whole-cluster reading, bracketed tokens before underscore
/// runs.
pub open spec fn spec_cluster_elements(
    t: Seq<char>,
    row: u16,
    col: u16,
    cwidth: u16,
    inverse: bool,
    ctx: ClassifyContext,
) -> Seq<ElementModel> {
    let cursor_hit = spec_cursor_in_range(ctx, row, col, cwidth);
    let whole = spec_classify_text(t, row as int, col as int, inverse, cursor_hit);
    if whole matches Some(e) && e.kind == ElementKind::Toggle {
        seq![whole->Some_0]
    } else if whole matches Some(e) && e.kind == ElementKind::Button && spec_is_button_pattern(t) {
        seq![whole->Some_0]
    } else if whole matches Some(e) && e.kind == ElementKind::Input && spec_all_underscores(
        spec_trim(t),
    ) {
        seq![whole->Some_0]
    } else {
        let belems = spec_token_elements(t, row, col, inverse, ctx, spec_bracket_tokens(t));
        let uelems = spec_token_elements(t, row, col, inverse, ctx, spec_underscore_tokens(t));
        if belems.len() > 0 {
            belems
        } else if uelems.len() > 0 {
            uelems
        } else {
            match whole {
                Some(e) => seq![e],
                None => Seq::empty(),
            }
        }
    }
}

fn token_elements_pass(
    text: &str,
    toks: &Vec<Token>,
    row: u16,
    col: u16,
    parent_focused: bool,
    ctx: &ClassifyContext,
    Ghost(ms): Ghost<Seq<TokenModel>>,
    elements: &mut Vec<Element>,
)
    requires
        spec_tokens_match(toks@, text@, ms),
        spec_spans_ok(ms, text@),
        spec_widths_ok(old(elements)@),
    ensures
        final(elements)@.map_values(|e: Element| element_model(e)) == old(elements)@.map_values(
            |e: Element| element_model(e),
        ) + spec_token_elements(text@, row, col, parent_focused, *ctx, ms),
        spec_widths_ok(final(elements)@),
{
    let ghost t = text@;
    let n = toks.len();
    proof {
        assert(ms.skip(0) =~= ms);
        assert(spec_token_elements(text@, row, col, parent_focused, *ctx, ms.take(0)) =~= Seq::<
            ElementModel,
        >::empty());
    }
    for k in 0..n
        invariant
            n == toks@.len(),
            t == text@,
            spec_tokens_match(toks@, t, ms),
            spec_spans_ok(ms, t),
            spec_widths_ok(elements@),
            elements@.map_values(|e: Element| element_model(e)) =~= old(elements)@.map_values(
                |e: Element| element_model(e),
            ) + spec_token_elements(t, row, col, parent_focused, *ctx, ms.take(k as int)),
    {
        proof {
            assert(ms.skip(k as int)[0] == ms[k as int]);
            assert(ms.skip(k as int).drop_first() =~= ms.skip(k + 1));
        }
        let tok = &toks[k];
        let ghost tk = ms[k as int];
        let off = token_col_offset(text, tok.byte_offset);
        proof {
            lemma_boundary_of_prefix(t, tk.start);
        }
        let token_col: u16 = if col > 0xffff - off {
            0xffff
        } else {
            col + off
        };
        let tv = chars_of(tok.text.as_str());
        let tw = display_width_u16(&tv);
        let tcur = cursor_in_range(ctx, row, token_col, tw);
        let cls = classify_text(tok.text.as_str(), row, token_col, false, tcur);
        match cls {
            Some(e) => {
                let mut e2 = e;
                if parent_focused && !e2.focused {
                    e2.focused = true;
                    if e2.confidence < 100 {
                        e2.confidence = 100;
                    }
                }
                let ghost prev = elements@;
                elements.push(e2);
                proof {
                    assert(elements@.map_values(|el: Element| element_model(el))
                        =~= prev.map_values(|el: Element| element_model(el)).push(element_model(
                        elements@.last(),
                    )));
                    assert(element_model(e2) == spec_lift_focus(
                        spec_classify_text(
                            t.subrange(tk.start, tk.end),
                            row as int,
                            token_col as int,
                            false,
                            tcur,
                        )->Some_0,
                        parent_focused,
                    ));
                }
            },
            None => {},
        }
        proof {
            let single: Seq<TokenModel> = seq![tk];
            assert(single[0] == tk);
            assert(single.drop_first() =~= Seq::<TokenModel>::empty());
            assert(spec_token_elements(t, row, col, parent_focused, *ctx, Seq::empty()) =~= Seq::<
                ElementModel,
            >::empty());
            assert(ms.take(k + 1).drop_last() =~= ms.take(k as int));
            assert(ms.take(k + 1).last() == ms[k as int]);
            lemma_token_elements_snoc(t, row, col, parent_focused, *ctx, ms.take(k + 1));
        }
    }
    proof {
        assert(ms.take(n as int) =~= ms);
    }
}

/// Token elements split at the last token.
proof fn lemma_token_elements_snoc(
    t: Seq<char>,
    row: u16,
    col: u16,
    parent_focused: bool,
    ctx: ClassifyContext,
    toks: Seq<TokenModel>,
)
    requires
        toks.len() > 0,
    ensures
        spec_token_elements(t, row, col, parent_focused, ctx, toks) == spec_token_elements(
            t,
            row,
            col,
            parent_focused,
            ctx,
            toks.drop_last(),
        ) + spec_token_elements(t, row, col, parent_focused, ctx, seq![toks.last()]),
    decreases toks.len(),
{
    if toks.len() == 1 {
        assert(toks.drop_last() =~= Seq::<TokenModel>::empty());
        assert(spec_token_elements(t, row, col, parent_focused, ctx, toks.drop_last()) =~= Seq::<
            ElementModel,
        >::empty());
        assert(toks =~= seq![toks.last()]);
        assert(spec_token_elements(t, row, col, parent_focused, ctx, toks) =~= Seq::<
            ElementModel,
        >::empty() + spec_token_elements(t, row, col, parent_focused, ctx, toks));
    } else {
        lemma_token_elements_snoc(t, row, col, parent_focused, ctx, toks.drop_first());
        assert(toks.drop_first().drop_last() =~= toks.drop_last().drop_first());
        assert(toks.drop_first().last() == toks.last());
        assert(toks.drop_last()[0] == toks[0]);
        assert(spec_token_elements(t, row, col, parent_focused, ctx, toks) =~= spec_token_elements(
            t,
            row,
            col,
            parent_focused,
            ctx,
            toks.drop_last(),
        ) + spec_token_elements(t, row, col, parent_focused, ctx, seq![toks.last()]));
    }
}

/// Extracts the elements of one cluster: a tight pattern classifies as a
/// whole; otherwise tokens inside the cluster win over the whole-cluster
/// reading, inheriting focus from an inverse parent.
pub fn extract_elements_from_cluster(cluster: &Cluster, ctx: &ClassifyContext) -> (r: Vec<Element>)
    ensures
        r@.map_values(|e: Element| element_model(e)) == spec_cluster_elements(
            cluster.text@,
            cluster.row,
            cluster.col,
            cluster.width,
            cluster.style.inverse,
            *ctx,
        ),
        spec_widths_ok(r@),
{
    let row = cluster.row;
    let col = cluster.col;
    let text = cluster.text.as_str();
    let is_inverse = cluster.style.is_inverse();
    let cursor_hit = cursor_in_range(ctx, row, col, cluster.width);
    let whole = classify_text(text, row, col, is_inverse, cursor_hit);
    let mut tight = false;
    match &whole {
        Some(e) => {
            if e.kind == ElementKind::Toggle {
                tight = true;
            } else if e.kind == ElementKind::Button && is_button_pattern(text) {
                tight = true;
            } else if e.kind == ElementKind::Input {
                let tv = chars_of(text);
                let trimmed = trim_chars(&tv);
                if all_underscores(&trimmed) {
                    tight = true;
                }
            }
        },
        None => {},
    }
    if tight {
        let mut out: Vec<Element> = Vec::new();
        match whole {
            Some(e) => {
                out.push(e);
            },
            None => {},
        }
        proof {
            assert(out@.map_values(|e: Element| element_model(e)) =~= spec_cluster_elements(
                cluster.text@,
                cluster.row,
                cluster.col,
                cluster.width,
                cluster.style.inverse,
                *ctx,
            ));
        }
        return out;
    }
    let mut elements: Vec<Element> = Vec::new();
    let btoks = extract_bracketed_tokens(text);
    proof {
        lemma_candidates_ok(text@, 0);
        lemma_dedup_subset(spec_bracket_candidates(text@, 0), 0, text@);
        assert(spec_spans_ok(spec_bracket_tokens(text@), text@));
    }
    token_elements_pass(
        text,
        &btoks,
        row,
        col,
        is_inverse,
        ctx,
        Ghost(spec_bracket_tokens(text@)),
        &mut elements,
    );
    if elements.len() == 0 {
        let utoks = extract_underscore_runs(text);
        proof {
            lemma_underscore_spans_ok(text@, 0);
            assert(spec_spans_ok(spec_underscore_tokens(text@), text@));
        }
        token_elements_pass(
            text,
            &utoks,
            row,
            col,
            is_inverse,
            ctx,
            Ghost(spec_underscore_tokens(text@)),
            &mut elements,
        );
        if elements.len() == 0 {
            let mut out: Vec<Element> = Vec::new();
            match whole {
                Some(e) => {
                    out.push(e);
                },
                None => {},
            }
            proof {
                assert(out@.map_values(|e: Element| element_model(e)) =~= spec_cluster_elements(
                    cluster.text@,
                    cluster.row,
                    cluster.col,
                    cluster.width,
                    cluster.style.inverse,
                    *ctx,
                ));
            }
            return out;
        }
        proof {
            assert(elements@.map_values(|e: Element| element_model(e)) =~= spec_cluster_elements(
                cluster.text@,
                cluster.row,
                cluster.col,
                cluster.width,
                cluster.style.inverse,
                *ctx,
            ));
        }
        return elements;
    }
    proof {
        assert(elements@.map_values(|e: Element| element_model(e)) =~= spec_cluster_elements(
            cluster.text@,
            cluster.row,
            cluster.col,
            cluster.width,
            cluster.style.inverse,
            *ctx,
        ));
    }
    elements
}

/// Position order of elements: by row, then by column.
pub open spec fn spec_pos_le(a: Element, b: Element) -> bool {
    a.row < b.row || (a.row == b.row && a.col <= b.col)
}

/// The elements of a cluster list, in cluster order.
pub open spec fn spec_clusters_elements(cs: Seq<Cluster>, ctx: ClassifyContext) -> Seq<
    ElementModel,
>
    decreases cs.len(),
{
    if cs.len() == 0 {
        Seq::empty()
    } else {
        spec_cluster_elements(
            cs[0].text@,
            cs[0].row,
            cs[0].col,
            cs[0].width,
            cs[0].style.inverse,
            ctx,
        ) + spec_clusters_elements(cs.drop_first(), ctx)
    }
}

/// Sorts elements by `(row, col)`.
fn sort_elements(v: Vec<Element>) -> (r: Vec<Element>)
    ensures
        r@.to_multiset() == v@.to_multiset(),
        forall|i: int, j: int| 0 <= i < j < r@.len() ==> spec_pos_le(#[trigger] r@[i], #[trigger] r@[j]),
        forall|i: int| 0 <= i < r@.len() ==> v@.contains(#[trigger] r@[i]),
{
    broadcast use vstd::seq_lib::group_to_multiset_ensures;

    let mut rest = v;
    let mut out: Vec<Element> = Vec::new();
    proof {
        assert(out@.to_multiset() =~= Multiset::<Element>::empty());
        assert(out@.to_multiset().add(rest@.to_multiset()) =~= v@.to_multiset());
    }
    while rest.len() > 0
        invariant
            out@.to_multiset().add(rest@.to_multiset()) =~= v@.to_multiset(),
            forall|i: int, j: int|
                0 <= i < j < out@.len() ==> spec_pos_le(#[trigger] out@[i], #[trigger] out@[j]),
            forall|i: int, j: int|
                0 <= i < out@.len() && 0 <= j < rest@.len() ==> spec_pos_le(
                    #[trigger] out@[i],
                    #[trigger] rest@[j],
                ),
            forall|i: int| 0 <= i < out@.len() ==> v@.contains(#[trigger] out@[i]),
            forall|i: int| 0 <= i < rest@.len() ==> v@.contains(#[trigger] rest@[i]),
        decreases rest@.len(),
    {
        let n = rest.len();
        let mut mi: usize = 0;
        for j in 1..n
            invariant
                n == rest@.len(),
                n > 0,
                mi < n,
                forall|k: int|
                    0 <= k < j ==> spec_pos_le(rest@[mi as int], #[trigger] rest@[k]),
        {
            let a = &rest[j];
            let b = &rest[mi];
            if a.row < b.row || (a.row == b.row && a.col < b.col) {
                mi = j;
            }
        }
        let ghost old_rest = rest@;
        let ghost old_out = out@;
        let e = rest.remove(mi);
        out.push(e);
        proof {
            assert(rest@.to_multiset() =~= old_rest.to_multiset().remove(old_rest[mi as int]));
            assert(out@.to_multiset() =~= old_out.to_multiset().insert(e));
            assert(out@.to_multiset().add(rest@.to_multiset()) =~= v@.to_multiset());
            assert(v@.to_multiset().contains(e));
            assert(v@.contains(e));
            assert forall|i: int| 0 <= i < rest@.len() implies v@.contains(
                #[trigger] rest@[i],
            ) by {
                if i < mi {
                    assert(rest@[i] == old_rest[i]);
                } else {
                    assert(rest@[i] == old_rest[i + 1]);
                }
            }
            assert forall|i: int, j2: int|
                0 <= i < out@.len() && 0 <= j2 < rest@.len() implies spec_pos_le(
                #[trigger] out@[i],
                #[trigger] rest@[j2],
            ) by {
                let orig = if j2 < mi {
                    j2
                } else {
                    j2 + 1
                };
                assert(rest@[j2] == old_rest[orig]);
                if i < old_out.len() {
                    assert(spec_pos_le(out@[i], old_rest[orig]));
                } else {
                    assert(out@[i] == e);
                    assert(spec_pos_le(e, old_rest[orig]));
                }
            }
        }
    }
    proof {
        assert(rest@.to_multiset() =~= Multiset::<Element>::empty());
        assert(out@.to_multiset() =~= v@.to_multiset());
    }
    out
}

/// Classifies clusters into interactive elements: tokens win over whole
/// clusters, non-interactive content is dropped, and the result is sorted
/// by position.
pub fn classify(clusters: Vec<Cluster>, ctx: &ClassifyContext) -> (r: Vec<Element>)
    ensures
        r@.map_values(|e: Element| element_model(e)).to_multiset() == spec_clusters_elements(
            clusters@,
            *ctx,
        ).to_multiset(),
        forall|i: int, j: int| 0 <= i < j < r@.len() ==> spec_pos_le(#[trigger] r@[i], #[trigger] r@[j]),
        spec_widths_ok(r@),
{
    broadcast use vstd::seq_lib::group_to_multiset_ensures;

    let mut detected: Vec<Element> = Vec::new();
    let n = clusters.len();
    proof {
        assert(clusters@.skip(0) =~= clusters@);
    }
    for k in 0..n
        invariant
            n == clusters@.len(),
            detected@.map_values(|e: Element| element_model(e)) + spec_clusters_elements(
                clusters@.skip(k as int),
                *ctx,
            ) =~= spec_clusters_elements(clusters@, *ctx),
            spec_widths_ok(detected@),
    {
        proof {
            assert(clusters@.skip(k as int)[0] == clusters@[k as int]);
            assert(clusters@.skip(k as int).drop_first() =~= clusters@.skip(k + 1));
        }
        let mut es = extract_elements_from_cluster(&clusters[k], ctx);
        let ghost prev = detected@;
        let ghost esv = es@;
        detected.append(&mut es);
        proof {
            assert(detected@.map_values(|e: Element| element_model(e)) =~= prev.map_values(
                |e: Element| element_model(e),
            ) + esv.map_values(|e: Element| element_model(e)));
        }
    }
    proof {
        assert(clusters@.skip(n as int).len() == 0);
        assert(spec_clusters_elements(clusters@.skip(n as int), *ctx) =~= Seq::<
            ElementModel,
        >::empty());
        assert(detected@.map_values(|e: Element| element_model(e)) =~= spec_clusters_elements(
            clusters@,
            *ctx,
        ));
    }
    let ghost dv = detected@;
    let sorted = sort_elements(detected);
    proof {
        lemma_multiset_map(sorted@, dv);
        assert forall|i: int| 0 <= i < sorted@.len() implies sorted@[i].width
            == crate::segment::spec_cluster_width(#[trigger] sorted@[i].text@) by {
            assert(dv.contains(sorted@[i]));
            let j = choose|j: int| 0 <= j < dv.len() && dv[j] == sorted@[i];
            assert(dv[j].width == crate::segment::spec_cluster_width(dv[j].text@));
        }
    }
    sorted
}

/// Equal multisets of elements have equal multisets of element models.
proof fn lemma_multiset_map(a: Seq<Element>, b: Seq<Element>)
    requires
        a.to_multiset() == b.to_multiset(),
    ensures
        a.map_values(|e: Element| element_model(e)).to_multiset() == b.map_values(
            |e: Element| element_model(e),
        ).to_multiset(),
    decreases a.len(),
{
    broadcast use vstd::seq_lib::group_to_multiset_ensures;

    if a.len() == 0 {
        assert(b.to_multiset().len() == 0);
        assert(b.len() == 0);
        assert(a.map_values(|e: Element| element_model(e)) =~= Seq::<ElementModel>::empty());
        assert(b.map_values(|e: Element| element_model(e)) =~= Seq::<ElementModel>::empty());
    } else {
        let x = a.last();
        assert(a.to_multiset().contains(x));
        assert(b.to_multiset().contains(x));
        assert(b.contains(x));
        let j = choose|j: int| 0 <= j < b.len() && b[j] == x;
        let a2 = a.drop_last();
        let b2 = b.remove(j);
        assert(a =~= a2.push(x));
        assert(a.to_multiset() == a2.to_multiset().insert(x));
        assert(b2.to_multiset() == b.to_multiset().remove(x));
        assert(a2.to_multiset() =~= b2.to_multiset());
        lemma_multiset_map(a2, b2);
        let f = |e: Element| element_model(e);
        assert(a.map_values(f) =~= a2.map_values(f).push(element_model(x)));
        assert(a.map_values(f).to_multiset() == a2.map_values(f).to_multiset().insert(
            element_model(x),
        ));
        lemma_map_remove(b, j);
        assert(b2.map_values(f) =~= b.map_values(f).remove(j));
        assert(b.map_values(f)[j] == element_model(x));
        assert(b.map_values(f).remove(j).to_multiset() == b.map_values(f).to_multiset().remove(
            element_model(x),
        ));
        assert(b.map_values(f).to_multiset().contains(element_model(x)));
        assert(a.map_values(f).to_multiset() =~= b.map_values(f).to_multiset());
    }
}

proof fn lemma_map_remove(b: Seq<Element>, j: int)
    requires
        0 <= j < b.len(),
    ensures
        b.remove(j).map_values(|e: Element| element_model(e)) == b.map_values(
            |e: Element| element_model(e),
        ).remove(j),
{
    let f = |e: Element| element_model(e);
    assert(b.remove(j).map_values(f) =~= b.map_values(f).remove(j));
}

/// Segments a grid and classifies the clusters: the main entry point of
/// element detection.
pub fn detect(grid: &ScreenGrid, ctx: &ClassifyContext) -> (r: Vec<Element>)
    requires
        grid.wf(),
    ensures
        r@.map_values(|e: Element| element_model(e)).to_multiset() == spec_model_elements(
            spec_grid_cluster_list(grid@),
            *ctx,
        ).to_multiset(),
        forall|i: int, j: int| 0 <= i < j < r@.len() ==> spec_pos_le(#[trigger] r@[i], #[trigger] r@[j]),
        spec_widths_ok(r@),
{
    let clusters = segment(grid);
    proof {
        lemma_clusters_elements_by_model(
            clusters@,
            spec_grid_cluster_list(grid@),
            *ctx,
        );
    }
    classify(clusters, ctx)
}

/// The cluster models a grid segments into.
pub open spec fn spec_grid_cluster_list(g: Seq<Seq<crate::grid::ScreenCell>>) -> Seq<
    crate::segment::ClusterModel,
> {
    crate::segment::spec_nonws_clusters(crate::segment::spec_grid_clusters(g, 0))
}

/// Concrete clusters with the given models yield the elements the models
/// determine: cluster elements depend only on the model fields and the
/// width law.
proof fn lemma_clusters_elements_by_model(
    cs: Seq<Cluster>,
    ms: Seq<crate::segment::ClusterModel>,
    ctx: ClassifyContext,
)
    requires
        cs.map_values(|c: Cluster| crate::segment::cluster_model(c)) == ms,
        crate::segment::spec_cluster_widths_ok(cs),
    ensures
        spec_clusters_elements(cs, ctx) == spec_model_elements(ms, ctx),
    decreases cs.len(),
{
    if cs.len() == 0 {
        assert(ms.len() == 0);
    } else {
        assert(cs.map_values(|c: Cluster| crate::segment::cluster_model(c))[0]
            == crate::segment::cluster_model(cs[0]));
        assert(cs.drop_first().map_values(|c: Cluster| crate::segment::cluster_model(c))
            =~= ms.drop_first());
        assert(crate::segment::spec_cluster_widths_ok(cs.drop_first())) by {
            assert forall|i: int| 0 <= i < cs.drop_first().len() implies (#[trigger] cs.drop_first()[i]).width
                == crate::segment::spec_cluster_width(cs.drop_first()[i].text@) by {
                assert(cs.drop_first()[i] == cs[i + 1]);
            }
        }
        lemma_clusters_elements_by_model(cs.drop_first(), ms.drop_first(), ctx);
        assert(cs[0].row as int == ms[0].row && cs[0].col as int == ms[0].col);
    }
}

/// The elements determined by cluster models alone; widths play no part
/// in which elements appear, only the cursor test uses them, so the
/// concrete width field enters through `spec_cluster_elements`.
pub open spec fn spec_model_elements(
    ms: Seq<crate::segment::ClusterModel>,
    ctx: ClassifyContext,
) -> Seq<ElementModel>
    decreases ms.len(),
{
    if ms.len() == 0 {
        Seq::empty()
    } else {
        spec_cluster_elements(
            ms[0].text,
            ms[0].row as u16,
            ms[0].col as u16,
            crate::segment::spec_cluster_width(ms[0].text) as u16,
            ms[0].style.inverse,
            ctx,
        ) + spec_model_elements(ms.drop_first(), ctx)
    }
}

/// Token columns follow display width: every element a token list
/// yields sits at its cluster's column plus the display width of the
/// text before its token, saturated to `u16::MAX` — CJK characters count
/// two columns through `char_col_width`, never one.
pub proof fn lemma_token_element_columns(
    t: Seq<char>,
    row: u16,
    col: u16,
    parent_focused: bool,
    ctx: ClassifyContext,
    toks: Seq<TokenModel>,
)
    ensures
        forall|k: int|
            0 <= k < spec_token_elements(t, row, col, parent_focused, ctx, toks).len()
                ==> exists|j: int|
                0 <= j < toks.len() && (#[trigger] spec_token_elements(
                    t,
                    row,
                    col,
                    parent_focused,
                    ctx,
                    toks,
                )[k]).col == spec_token_col(
                    col,
                    crate::segment::spec_cluster_width(t.take((#[trigger] toks[j]).start)),
                ) as int,
    decreases toks.len(),
{
    if toks.len() > 0 {
        lemma_token_element_columns(t, row, col, parent_focused, ctx, toks.drop_first());
        let es = spec_token_elements(t, row, col, parent_focused, ctx, toks);
        let rest = spec_token_elements(t, row, col, parent_focused, ctx, toks.drop_first());
        let tk = toks[0];
        let ttext = t.subrange(tk.start, tk.end);
        let tcol = spec_token_col(col, crate::segment::spec_cluster_width(t.take(tk.start)));
        let tcur = spec_cursor_in_range(ctx, row, tcol, spec_w16(ttext));
        assert forall|k: int| 0 <= k < es.len() implies exists|j: int|
            0 <= j < toks.len() && (#[trigger] es[k]).col == spec_token_col(
                col,
                crate::segment::spec_cluster_width(t.take((#[trigger] toks[j]).start)),
            ) as int by {
            let head = match spec_classify_text(ttext, row as int, tcol as int, false, tcur) {
                Some(m) => seq![spec_lift_focus(m, parent_focused)],
                None => Seq::<ElementModel>::empty(),
            };
            if k < head.len() {
                assert(es[k] == head[0]);
                assert(es[k].col == tcol as int);
                assert(toks[0].start == tk.start);
                assert(0 < toks.len() && es[k].col == spec_token_col(
                    col,
                    crate::segment::spec_cluster_width(t.take(toks[0].start)),
                ) as int);
            } else {
                assert(es[k] == rest[k - head.len()]);
                let j0 = choose|j0: int|
                    0 <= j0 < toks.drop_first().len() && rest[k - head.len()].col
                        == spec_token_col(
                        col,
                        crate::segment::spec_cluster_width(
                            t.take((#[trigger] toks.drop_first()[j0]).start),
                        ),
                    ) as int;
                assert(toks.drop_first()[j0] == toks[j0 + 1]);
                assert(0 <= j0 + 1 < toks.len() && es[k].col == spec_token_col(
                    col,
                    crate::segment::spec_cluster_width(t.take(toks[j0 + 1].start)),
                ) as int);
            }
        }
    }
}

proof fn lemma_underscore_spans_ok(t: Seq<char>, i: int)
    requires
        0 <= i,
    ensures
        spec_spans_ok(spec_underscore_tokens_from(t, i), t),
    decreases t.len() - i,
{
    if i < t.len() {
        if t[i] != '_' {
            lemma_underscore_spans_ok(t, i + 1);
        } else {
            lemma_u_run_bounds(t, i);
            lemma_underscore_spans_ok(t, spec_u_run(t, i));
        }
    }
}

} // verus!
