//! Region detection on a character screen: bordered boxes, highlighted
//! areas, button and checkbox patterns, and menu shortcuts, with
//! sequentially numbered references.

use vstd::prelude::*;

use crate::chars::{
    chars_of, spec_split, split_char, spec_trim, spec_trim_end, spec_is_whitespace,
    is_whitespace_char, trim_chars, string_of, spec_dec, push_dec_u64, spec_is_ascii_alnum, spec_is_ascii_digit,
    is_ascii_alnum_char, spec_is_ascii_alpha, is_ascii_alpha_char,
};
use crate::snapshot::{Rect, RefId, Region, RegionType, spec_valid_ref_format};

verus! {

/// `val` clamped into `u16`.
pub fn saturating_u16(val: usize) -> (r: u16)
    ensures
        r == if val > 0xffff {
            0xffffint
        } else {
            val as int
        },
{
    if val > 0xffff {
        0xffff
    } else {
        val as u16
    }
}

/// Box-drawing top-left corners, `+` included.
pub open spec fn spec_is_top_left(c: char) -> bool {
    c == '┌' || c == '╔' || c == '╭' || c == '┏' || c == '╒' || c == '╓' || c == '+'
}

/// Box-drawing top-right corners, `+` included.
pub open spec fn spec_is_top_right(c: char) -> bool {
    c == '┐' || c == '╗' || c == '╮' || c == '┓' || c == '╕' || c == '╖' || c == '+'
}

/// Box-drawing bottom-left corners, `+` included.
pub open spec fn spec_is_bottom_left(c: char) -> bool {
    c == '└' || c == '╚' || c == '╰' || c == '┗' || c == '╘' || c == '╙' || c == '+'
}

/// Box-drawing bottom-right corners, `+` included.
pub open spec fn spec_is_bottom_right(c: char) -> bool {
    c == '┘' || c == '╝' || c == '╯' || c == '┛' || c == '╛' || c == '╜' || c == '+'
}

/// Horizontal line characters, corners included.
pub open spec fn spec_is_horizontal(c: char) -> bool {
    c == '─' || c == '═' || c == '━' || c == '╌' || c == '╍' || c == '┄' || c == '┅' || c == '┈'
        || c == '┉' || c == '-' || spec_is_top_left(c) || spec_is_top_right(c)
}

/// Vertical line characters, left corners included.
pub open spec fn spec_is_vertical(c: char) -> bool {
    c == '│' || c == '║' || c == '┃' || c == '╎' || c == '╏' || c == '┆' || c == '┇' || c == '┊'
        || c == '┋' || c == '|' || spec_is_top_left(c) || spec_is_bottom_left(c)
}

/// VT100 line-drawing aliases used by dialog and ncurses programs.
pub open spec fn spec_is_vt100_line(c: char) -> bool {
    c == 'l' || c == 'k' || c == 'm' || c == 'j' || c == 'q' || c == 'x' || c == 't' || c == 'u'
        || c == 'n' || c == 'w' || c == 'v'
}

/// Any box-drawing character: the Unicode box-drawing block, VT100
/// line-drawing aliases, or the explicit corner and line lists.
pub open spec fn spec_is_box_drawing(c: char) -> bool {
    ||| (0x2500 <= (c as u32) && (c as u32) <= 0x257f)
    ||| spec_is_vt100_line(c)
    ||| spec_is_top_left(c)
    ||| spec_is_top_right(c)
    ||| spec_is_bottom_left(c)
    ||| spec_is_bottom_right(c)
    ||| spec_is_horizontal(c)
    ||| spec_is_vertical(c)
}

/// Whether `c` is a top-left corner.
pub fn is_top_left_corner(c: char) -> (r: bool)
    ensures
        r == spec_is_top_left(c),
{
    c == '┌' || c == '╔' || c == '╭' || c == '┏' || c == '╒' || c == '╓' || c == '+'
}

/// Whether `c` is a top-right corner.
pub fn is_top_right_corner(c: char) -> (r: bool)
    ensures
        r == spec_is_top_right(c),
{
    c == '┐' || c == '╗' || c == '╮' || c == '┓' || c == '╕' || c == '╖' || c == '+'
}

/// Whether `c` is a bottom-left corner.
pub fn is_bottom_left_corner(c: char) -> (r: bool)
    ensures
        r == spec_is_bottom_left(c),
{
    c == '└' || c == '╚' || c == '╰' || c == '┗' || c == '╘' || c == '╙' || c == '+'
}

/// Whether `c` is a bottom-right corner.
pub fn is_bottom_right_corner(c: char) -> (r: bool)
    ensures
        r == spec_is_bottom_right(c),
{
    c == '┘' || c == '╝' || c == '╯' || c == '┛' || c == '╛' || c == '╜' || c == '+'
}

/// Whether `c` continues a horizontal border.
pub fn is_horizontal_line(c: char) -> (r: bool)
    ensures
        r == spec_is_horizontal(c),
{
    c == '─' || c == '═' || c == '━' || c == '╌' || c == '╍' || c == '┄' || c == '┅' || c == '┈'
        || c == '┉' || c == '-' || is_top_left_corner(c) || is_top_right_corner(c)
}

/// Whether `c` continues a vertical border.
pub fn is_vertical_line(c: char) -> (r: bool)
    ensures
        r == spec_is_vertical(c),
{
    c == '│' || c == '║' || c == '┃' || c == '╎' || c == '╏' || c == '┆' || c == '┇' || c == '┊'
        || c == '┋' || c == '|' || is_top_left_corner(c) || is_bottom_left_corner(c)
}

/// Whether `c` is any box-drawing character.
pub fn is_box_drawing_char(c: char) -> (r: bool)
    ensures
        r == spec_is_box_drawing(c),
{
    let u = c as u32;
    (0x2500 <= u && u <= 0x257f) || c == 'l' || c == 'k' || c == 'm' || c == 'j' || c == 'q' || c
        == 'x' || c == 't' || c == 'u' || c == 'n' || c == 'w' || c == 'v' || is_top_left_corner(c)
        || is_top_right_corner(c) || is_bottom_left_corner(c) || is_bottom_right_corner(c)
        || is_horizontal_line(c) || is_vertical_line(c)
}

/// Count of box-drawing characters among the non-whitespace of `t`.
pub open spec fn spec_box_count(t: Seq<char>) -> nat
    decreases t.len(),
{
    if t.len() == 0 {
        0
    } else {
        (if !spec_is_whitespace(t[0]) && spec_is_box_drawing(t[0]) {
            1nat
        } else {
            0nat
        }) + spec_box_count(t.drop_first())
    }
}

/// Count of other (non-whitespace, non-box-drawing) characters of `t`.
pub open spec fn spec_other_count(t: Seq<char>) -> nat
    decreases t.len(),
{
    if t.len() == 0 {
        0
    } else {
        (if !spec_is_whitespace(t[0]) && !spec_is_box_drawing(t[0]) {
            1nat
        } else {
            0nat
        }) + spec_other_count(t.drop_first())
    }
}

/// Whether a text is mostly box-drawing decoration: more box-drawing
/// characters than other printable ones, and at least one of either.
pub open spec fn spec_is_box_drawing_text(t: Seq<char>) -> bool {
    spec_box_count(t) + spec_other_count(t) > 0 && spec_box_count(t) > spec_other_count(t)
}

proof fn lemma_box_counts_push(t: Seq<char>, c: char)
    ensures
        spec_box_count(t.push(c)) == spec_box_count(t) + (if !spec_is_whitespace(c)
            && spec_is_box_drawing(c) {
            1nat
        } else {
            0nat
        }),
        spec_other_count(t.push(c)) == spec_other_count(t) + (if !spec_is_whitespace(c)
            && !spec_is_box_drawing(c) {
            1nat
        } else {
            0nat
        }),
    decreases t.len(),
{
    let u = t.push(c);
    assert(spec_box_count(u) == (if !spec_is_whitespace(u[0]) && spec_is_box_drawing(u[0]) {
        1nat
    } else {
        0nat
    }) + spec_box_count(u.drop_first()));
    assert(spec_other_count(u) == (if !spec_is_whitespace(u[0]) && !spec_is_box_drawing(u[0]) {
        1nat
    } else {
        0nat
    }) + spec_other_count(u.drop_first()));
    if t.len() == 0 {
        assert(u[0] == c);
        assert(u.drop_first() =~= Seq::<char>::empty());
    } else {
        assert(u[0] == t[0]);
        assert(u.drop_first() =~= t.drop_first().push(c));
        lemma_box_counts_push(t.drop_first(), c);
    }
}

/// Whether `text` is primarily box-drawing characters (chrome).
pub fn is_box_drawing_text(text: &str) -> (r: bool)
    ensures
        r == spec_is_box_drawing_text(text@),
{
    let v = chars_of(text);
    let n = v.len();
    let mut box_count: usize = 0;
    let mut other_count: usize = 0;
    for i in 0..n
        invariant
            n == v@.len(),
            box_count == spec_box_count(v@.take(i as int)),
            other_count == spec_other_count(v@.take(i as int)),
            box_count + other_count <= i,
    {
        proof {
            lemma_box_counts_push(v@.take(i as int), v@[i as int]);
            assert(v@.take(i as int).push(v@[i as int]) =~= v@.take(i + 1));
        }
        let c = v[i];
        if !is_whitespace_char(c) {
            if is_box_drawing_char(c) {
                box_count = box_count + 1;
            } else {
                other_count = other_count + 1;
            }
        }
    }
    assert(v@.take(n as int) =~= v@);
    if box_count == 0 && other_count == 0 {
        return false;
    }
    box_count > other_count
}

/// Terminal color: standard 8/16 colors, a palette index, RGB, or the
/// default.
#[derive(Debug, Clone, Copy, PartialEq, Eq, Structural)]
pub enum Color {
    Default,
    Black,
    Red,
    Green,
    Yellow,
    Blue,
    Magenta,
    Cyan,
    White,
    BrightBlack,
    BrightRed,
    BrightGreen,
    BrightYellow,
    BrightBlue,
    BrightMagenta,
    BrightCyan,
    BrightWhite,
    Indexed(u8),
    Rgb(u8, u8, u8),
}

impl Default for Color {
    fn default() -> (r: Self)
        ensures
            r == Color::Default,
    {
        Color::Default
    }
}

/// Cell attributes for styling.
#[derive(Debug, Clone, Copy, PartialEq, Eq, Structural)]
pub struct CellAttrs {
    pub fg: Color,
    pub bg: Color,
    pub bold: bool,
    pub underline: bool,
    pub inverse: bool,
}

/// A highlighted cell: a non-default background or inverse video.
pub open spec fn spec_has_background(a: CellAttrs) -> bool {
    a.bg != Color::Default || a.inverse
}

impl Default for CellAttrs {
    fn default() -> (r: Self)
        ensures
            r == (CellAttrs {
                fg: Color::Default,
                bg: Color::Default,
                bold: false,
                underline: false,
                inverse: false,
            }),
    {
        CellAttrs {
            fg: Color::Default,
            bg: Color::Default,
            bold: false,
            underline: false,
            inverse: false,
        }
    }
}

impl CellAttrs {
    /// Whether this cell is highlighted: a non-default background or
    /// inverse video.
    pub fn has_background(&self) -> (r: bool)
        ensures
            r == spec_has_background(*self),
    {
        self.bg != Color::Default || self.inverse
    }

    /// Whether this cell is inverse video.
    pub fn is_inverse(&self) -> (r: bool)
        ensures
            r == self.inverse,
    {
        self.inverse
    }
}

/// A single cell on the screen with its character and attributes.
#[derive(Debug, Clone, Copy, PartialEq, Eq, Structural)]
pub struct Cell {
    pub ch: char,
    pub attrs: CellAttrs,
}

impl Default for Cell {
    fn default() -> (r: Self)
        ensures
            r.ch == ' ',
            r.attrs == (CellAttrs {
                fg: Color::Default,
                bg: Color::Default,
                bold: false,
                underline: false,
                inverse: false,
            }),
    {
        Cell {
            ch: ' ',
            attrs: CellAttrs {
                fg: Color::Default,
                bg: Color::Default,
                bold: false,
                underline: false,
                inverse: false,
            },
        }
    }
}

impl Cell {
    /// A cell with default attributes.
    pub fn new(c: char) -> (r: Self)
        ensures
            r.ch == c,
            r.attrs == (CellAttrs {
                fg: Color::Default,
                bg: Color::Default,
                bold: false,
                underline: false,
                inverse: false,
            }),
    {
        Cell {
            ch: c,
            attrs: CellAttrs {
                fg: Color::Default,
                bg: Color::Default,
                bold: false,
                underline: false,
                inverse: false,
            },
        }
    }

    /// A cell with the given attributes.
    pub fn with_attrs(c: char, attrs: CellAttrs) -> (r: Self)
        ensures
            r.ch == c,
            r.attrs == attrs,
    {
        Cell { ch: c, attrs }
    }
}

/// A screen for region detection: rows of characters, optionally with
/// attributed cells, under a rectangle of `width` by `height`.
pub struct Screen {
    char_rows: Vec<Vec<char>>,
    cells: Option<Vec<Vec<Cell>>>,
    width: usize,
    height: usize,
}

impl Screen {
    /// The screen's width in columns.
    pub closed spec fn spec_width(&self) -> nat {
        self.width as nat
    }

    /// The screen's height in rows.
    pub closed spec fn spec_height(&self) -> nat {
        self.height as nat
    }

    /// The character shown at `(row, col)`: a space outside the rectangle
    /// or past the end of a row.
    pub closed spec fn spec_char_at(&self, row: int, col: int) -> char {
        if 0 <= row < self.height && 0 <= col < self.width {
            if col < self.char_rows@[row]@.len() {
                self.char_rows@[row]@[col]
            } else {
                ' '
            }
        } else {
            ' '
        }
    }

    /// The attributes at `(row, col)`: default outside the attributed
    /// cells.
    pub closed spec fn spec_attrs_at(&self, row: int, col: int) -> CellAttrs {
        match self.cells {
            Some(cells) => if 0 <= row < cells@.len() && 0 <= col < cells@[row]@.len() {
                cells@[row]@[col].attrs
            } else {
                CellAttrs {
                    fg: Color::Default,
                    bg: Color::Default,
                    bold: false,
                    underline: false,
                    inverse: false,
                }
            },
            None => CellAttrs {
                fg: Color::Default,
                bg: Color::Default,
                bold: false,
                underline: false,
                inverse: false,
            },
        }
    }

    /// The stored rows are indexable.
    pub closed spec fn wf(&self) -> bool {
        &&& self.char_rows@.len() == self.height
        &&& match self.cells {
            Some(cells) => cells@.len() == self.height,
            None => true,
        }
    }

    /// Builds a screen from lines of text, with no cell attributes. The
    /// width is the longest line's character count.
    pub fn from_lines(lines: &[&str]) -> (s: Screen)
        ensures
            s.wf(),
            s.spec_height() == lines@.len(),
            forall|r: int|
                0 <= r < lines@.len() ==> (#[trigger] lines@[r])@.len() <= s.spec_width(),
            forall|r: int, c: int|
                0 <= r < lines@.len() && 0 <= c < s.spec_width() ==> #[trigger] s.spec_char_at(
                    r,
                    c,
                ) == (if c < lines@[r]@.len() {
                    lines@[r]@[c]
                } else {
                    ' '
                }),
            forall|r: int, c: int| s.spec_attrs_at(r, c) == (CellAttrs {
                fg: Color::Default,
                bg: Color::Default,
                bold: false,
                underline: false,
                inverse: false,
            }),
    {
        let height = lines.len();
        let mut width: usize = 0;
        let mut char_rows: Vec<Vec<char>> = Vec::new();
        for r in 0..height
            invariant
                height == lines@.len(),
                char_rows@.len() == r,
                forall|k: int| 0 <= k < r ==> (#[trigger] char_rows@[k])@ == lines@[k]@,
                forall|k: int| 0 <= k < r ==> (#[trigger] lines@[k])@.len() <= width,
        {
            let row = chars_of(lines[r]);
            if row.len() > width {
                width = row.len();
            }
            char_rows.push(row);
        }
        Screen { char_rows, cells: None, width, height }
    }

    /// Builds a screen from one text, splitting on newlines as terminal
    /// lines: a trailing newline opens no extra row, and a carriage
    /// return before a newline is dropped.
    pub fn from_text(text: &str) -> (s: Screen)
        ensures
            s.wf(),
            s.spec_height() == spec_text_lines(text@).len(),
            forall|r: int, c: int|
                0 <= r < spec_text_lines(text@).len() && 0 <= c < s.spec_width()
                    ==> #[trigger] s.spec_char_at(r, c) == (if c < spec_text_lines(
                    text@,
                )[r].len() {
                    spec_text_lines(text@)[r][c]
                } else {
                    ' '
                }),
            forall|r: int|
                0 <= r < spec_text_lines(text@).len() ==> (#[trigger] spec_text_lines(
                    text@,
                )[r]).len() <= s.spec_width(),
            forall|r: int, c: int| s.spec_attrs_at(r, c) == (CellAttrs {
                fg: Color::Default,
                bg: Color::Default,
                bold: false,
                underline: false,
                inverse: false,
            }),
    {
        let v = chars_of(text);
        let pieces = split_char(&v, '\n');
        let ghost sp = spec_split(text@, '\n');
        proof {
            assert(pieces@.map_values(|p: Vec<char>| p@) == sp);
            assert(sp.len() > 0) by {
                lemma_split_nonempty_pub(text@);
            }
        }
        let mut nlines = pieces.len();
        if pieces[nlines - 1].len() == 0 {
            nlines = nlines - 1;
        }
        let height = nlines;
        let mut width: usize = 0;
        let mut char_rows: Vec<Vec<char>> = Vec::new();
        for r in 0..height
            invariant
                pieces@.len() == sp.len(),
                sp == spec_split(text@, '\n'),
                pieces@.map_values(|p: Vec<char>| p@) == sp,
                height <= pieces@.len(),
                height == spec_text_lines(text@).len(),
                char_rows@.len() == r,
                forall|k: int|
                    0 <= k < r ==> (#[trigger] char_rows@[k])@ == spec_text_lines(text@)[k],
                forall|k: int|
                    0 <= k < r ==> (#[trigger] spec_text_lines(text@)[k]).len() <= width,
        {
            proof {
                assert(pieces@.map_values(|p: Vec<char>| p@)[r as int] == pieces@[r as int]@);
            }
            let piece = &pieces[r];
            let mut row: Vec<char> = Vec::new();
            let mut plen = piece.len();
            if plen > 0 && piece[plen - 1] == '\r' {
                plen = plen - 1;
            }
            for c in 0..plen
                invariant
                    plen <= piece@.len(),
                    row@ =~= piece@.take(plen as int).take(c as int),
                decreases plen - c,
            {
                row.push(piece[c]);
                assert(row@ =~= piece@.take(plen as int).take(c + 1));
            }
            proof {
                assert(row@ =~= piece@.take(plen as int));
                assert(spec_text_lines(text@)[r as int] == spec_strip_cr(sp[r as int]));
                assert(row@ =~= spec_strip_cr(piece@));
            }
            if row.len() > width {
                width = row.len();
            }
            char_rows.push(row);
        }
        Screen { char_rows, cells: None, width, height }
    }

    /// Builds a screen from attributed cells. The width is the longest
    /// row; characters beyond a row's end read as spaces.
    pub fn from_cells(cells: Vec<Vec<Cell>>) -> (s: Screen)
        ensures
            spec_screen_of_cells(&s, cells@),
            s.wf(),
            s.spec_height() == cells@.len(),
            s.spec_width() == 0 || exists|r: int|
                0 <= r < cells@.len() && (#[trigger] cells@[r])@.len() == s.spec_width(),
            forall|r: int|
                0 <= r < cells@.len() ==> (#[trigger] cells@[r])@.len() <= s.spec_width(),
            forall|r: int, c: int|
                0 <= r < cells@.len() && 0 <= c < s.spec_width() ==> #[trigger] s.spec_char_at(
                    r,
                    c,
                ) == (if c < cells@[r]@.len() {
                    cells@[r]@[c].ch
                } else {
                    ' '
                }),
            forall|r: int, c: int|
                0 <= r < cells@.len() && 0 <= c < cells@[r]@.len() ==> #[trigger] s.spec_attrs_at(
                    r,
                    c,
                ) == cells@[r]@[c].attrs,
            forall|r: int, c: int|
                !(0 <= r < cells@.len() && 0 <= c < cells@[r]@.len()) ==> #[trigger] s.spec_attrs_at(
                    r,
                    c,
                ) == (CellAttrs {
                    fg: Color::Default,
                    bg: Color::Default,
                    bold: false,
                    underline: false,
                    inverse: false,
                }),
    {
        let height = cells.len();
        let mut width: usize = 0;
        let mut char_rows: Vec<Vec<char>> = Vec::new();
        for r in 0..height
            invariant
                height == cells@.len(),
                char_rows@.len() == r,
                forall|k: int|
                    0 <= k < r ==> (#[trigger] char_rows@[k])@ == cells@[k]@.map_values(
                        |cl: Cell| cl.ch,
                    ),
                forall|k: int| 0 <= k < r ==> (#[trigger] cells@[k])@.len() <= width,
                width == 0 || exists|k: int|
                    0 <= k < r && (#[trigger] cells@[k])@.len() == width,
        {
            let rowref = &cells[r];
            let m = rowref.len();
            let mut row: Vec<char> = Vec::new();
            for c in 0..m
                invariant
                    m == rowref@.len(),
                    row@ =~= rowref@.take(c as int).map_values(|cl: Cell| cl.ch),
            {
                row.push(rowref[c].ch);
                assert(row@ =~= rowref@.take(c + 1).map_values(|cl: Cell| cl.ch));
            }
            proof {
                assert(rowref@.take(m as int) =~= rowref@);
            }
            if row.len() > width {
                width = row.len();
            }
            char_rows.push(row);
        }
        let s = Screen { char_rows, cells: Some(cells), width, height };
        s
    }

    /// The screen dimensions `(width, height)`.
    pub fn size(&self) -> (r: (usize, usize))
        ensures
            r.0 == self.spec_width(),
            r.1 == self.spec_height(),
    {
        (self.width, self.height)
    }

    /// The character at `(row, col)`, a space when out of bounds.
    pub fn char_at(&self, row: usize, col: usize) -> (r: char)
        requires
            self.wf(),
        ensures
            r == self.spec_char_at(row as int, col as int),
    {
        if row >= self.height || col >= self.width {
            return ' ';
        }
        let rowv = &self.char_rows[row];
        if col < rowv.len() {
            rowv[col]
        } else {
            ' '
        }
    }

    /// The cell at `(row, col)`: its attributes when attributed cells
    /// exist there, else the character with default attributes.
    pub fn cell_at(&self, row: usize, col: usize) -> (r: Cell)
        requires
            self.wf(),
        ensures
            r.attrs == self.spec_attrs_at(row as int, col as int),
            r.ch == self.spec_cell_char_at(row as int, col as int),
    {
        match &self.cells {
            Some(cells) => {
                if row < cells.len() && col < cells[row].len() {
                    return cells[row][col];
                }
            },
            None => {},
        }
        Cell::new(self.char_at(row, col))
    }

    /// The character `cell_at` carries: the stored cell's character where
    /// one exists, else the screen character.
    pub closed spec fn spec_cell_char_at(&self, row: int, col: int) -> char {
        match self.cells {
            Some(cells) => if 0 <= row < cells@.len() && 0 <= col < cells@[row]@.len() {
                cells@[row]@[col].ch
            } else {
                self.spec_char_at(row, col)
            },
            None => self.spec_char_at(row, col),
        }
    }

    /// The attributes at `(row, col)`.
    pub fn attrs_at(&self, row: usize, col: usize) -> (r: CellAttrs)
        requires
            self.wf(),
        ensures
            r == self.spec_attrs_at(row as int, col as int),
    {
        self.cell_at(row, col).attrs
    }
}

/// One interior line of a rectangle, trailing whitespace trimmed.
pub open spec fn spec_tir_line(s: &Screen, row: int, x0: int, w0: int) -> Seq<char> {
    spec_trim_end(Seq::new(w0 as nat, |c: int| s.spec_char_at(row, x0 + c)))
}

/// The interior text accumulated over rows `[row, stop)`, clipped to the
/// screen: lines joined by newlines, empty leading content collapsing.
pub open spec fn spec_tir_acc(s: &Screen, row: int, stop: int, x0: int, w0: int, acc: Seq<char>) -> Seq<char>
    decreases stop - row,
{
    if row >= stop || row >= s.spec_height() {
        acc
    } else {
        let line = spec_tir_line(s, row, x0, w0);
        let acc2 = if acc.len() == 0 {
            line
        } else {
            acc + seq!['\n'] + line
        };
        spec_tir_acc(s, row + 1, stop, x0, w0, acc2)
    }
}

/// The text inside a rectangle, borders excluded, trimmed.
pub open spec fn spec_text_in_rect(s: &Screen, x: int, y: int, w: int, h: int) -> Seq<char> {
    let w0 = if w >= 2 {
        w - 2
    } else {
        0
    };
    let h0 = if h >= 2 {
        h - 2
    } else {
        0
    };
    spec_trim(spec_tir_acc(s, y + 1, y + 1 + h0, x + 1, w0, Seq::empty()))
}

impl Screen {
    /// The text content within a rectangle, excluding its borders: each
    /// interior line trimmed at its end, lines joined by newlines, and
    /// the whole trimmed.
    pub fn text_in_rect(&self, x: usize, y: usize, width: usize, height: usize) -> (r: String)
        requires
            self.wf(),
            x < usize::MAX,
            y < usize::MAX,
            x + width <= usize::MAX,
            y + height <= usize::MAX,
        ensures
            r@ == spec_text_in_rect(self, x as int, y as int, width as int, height as int),
    {
        let inner_x = x + 1;
        let inner_y = y + 1;
        let inner_width: usize = if width >= 2 {
            width - 2
        } else {
            0
        };
        let inner_height: usize = if height >= 2 {
            height - 2
        } else {
            0
        };
        let (_, sheight) = self.size();
        let mut acc: Vec<char> = Vec::new();
        let mut row = inner_y;
        let ghost stop = y + 1 + inner_height;
        proof {
            assert(acc@ =~= Seq::<char>::empty());
        }
        while row < inner_y + inner_height && row < sheight
            invariant
                self.wf(),
                sheight == self.spec_height(),
                inner_y <= row <= inner_y + inner_height,
                spec_tir_acc(
                    self,
                    inner_y as int,
                    stop,
                    inner_x as int,
                    inner_width as int,
                    Seq::empty(),
                ) == spec_tir_acc(
                    self,
                    row as int,
                    stop,
                    inner_x as int,
                    inner_width as int,
                    acc@,
                ),
                stop == inner_y + inner_height,
            decreases inner_y + inner_height - row,
        {
            let mut line: Vec<char> = Vec::new();
            for c in 0..inner_width
                invariant
                    self.wf(),
                    line@.len() == c,
                    forall|k: int|
                        0 <= k < c ==> line@[k] == self.spec_char_at(
                            row as int,
                            #[trigger] (inner_x + k),
                        ),
            {
                line.push(self.char_at(row, inner_x + c));
            }
            let trimmed = crate::chars::trim_end_chars(&line);
            proof {
                assert(line@ =~= Seq::new(
                    inner_width as nat,
                    |c: int| self.spec_char_at(row as int, inner_x + c),
                ));
                assert(trimmed@ == spec_tir_line(
                    self,
                    row as int,
                    inner_x as int,
                    inner_width as int,
                ));
            }
            let ghost prev = acc@;
            if acc.len() == 0 {
                acc = trimmed;
                proof {
                    assert(acc@ =~= prev + spec_tir_line(
                        self,
                        row as int,
                        inner_x as int,
                        inner_width as int,
                    ));
                }
            } else {
                acc.push('\n');
                let mut t2 = trimmed;
                acc.append(&mut t2);
                proof {
                    assert(acc@ =~= prev + seq!['\n'] + spec_tir_line(
                        self,
                        row as int,
                        inner_x as int,
                        inner_width as int,
                    ));
                }
            }
            row = row + 1;
        }
        proof {
            assert(spec_tir_acc(self, row as int, stop, inner_x as int, inner_width as int, acc@)
                == acc@);
        }
        let trimmed_all = trim_chars(&acc);
        string_of(&trimmed_all)
    }
}

/// The first top-right corner to the right along a top edge, scanning
/// over horizontal-line characters: -1 when the edge runs off the screen
/// or is broken.
pub open spec fn spec_scan_right(s: &Screen, row: int, c: int) -> int
    decreases s.spec_width() - c,
{
    if c < 0 || c >= s.spec_width() {
        -1
    } else if spec_is_top_right(s.spec_char_at(row, c)) {
        c
    } else if !spec_is_horizontal(s.spec_char_at(row, c)) {
        -1
    } else {
        spec_scan_right(s, row, c + 1)
    }
}

/// The first bottom-left corner downward along a left edge, scanning
/// over vertical-line characters: -1 when the edge runs off the screen
/// or is broken.
pub open spec fn spec_scan_down(s: &Screen, r: int, col: int) -> int
    decreases s.spec_height() - r,
{
    if r < 0 || r >= s.spec_height() {
        -1
    } else if spec_is_bottom_left(s.spec_char_at(r, col)) {
        r
    } else if !spec_is_vertical(s.spec_char_at(r, col)) {
        -1
    } else {
        spec_scan_down(s, r + 1, col)
    }
}

/// The box found from a top-left corner at `(row, col)`: its top edge to
/// the first top-right corner, its left edge to the first bottom-left
/// corner, both at least three cells, a bottom-right corner, and closed
/// bottom and right edges.
pub open spec fn spec_box_at(s: &Screen, row: int, col: int) -> Option<RegionModel> {
    let ec = spec_scan_right(s, row, col + 1);
    let er = spec_scan_down(s, row + 1, col);
    if ec < 0 || ec - col + 1 < 3 {
        None
    } else if er < 0 || er - row + 1 < 3 {
        None
    } else if !spec_is_bottom_right(s.spec_char_at(er, ec)) {
        None
    } else if !(forall|c: int|
        col < c < ec ==> (spec_is_horizontal(#[trigger] s.spec_char_at(er, c))
            || spec_is_bottom_left(s.spec_char_at(er, c)) || spec_is_bottom_right(
            s.spec_char_at(er, c),
        ))) {
        None
    } else if !(forall|r: int|
        row < r < er ==> (spec_is_vertical(#[trigger] s.spec_char_at(r, ec))
            || spec_is_top_right(s.spec_char_at(r, ec)) || spec_is_bottom_right(
            s.spec_char_at(r, ec),
        ))) {
        None
    } else {
        Some(
            RegionModel {
                x: col,
                y: row,
                width: ec - col + 1,
                height: er - row + 1,
                rtype: RegionType::Unknown,
                text: spec_text_in_rect(s, col, row, ec - col + 1, er - row + 1),
                focused: false,
            },
        )
    }
}

proof fn lemma_scan_right_bounds(s: &Screen, row: int, c: int)
    requires
        0 <= c,
    ensures
        spec_scan_right(s, row, c) == -1 || c <= spec_scan_right(s, row, c) < s.spec_width(),
    decreases s.spec_width() - c,
{
    if 0 <= c < s.spec_width() && !spec_is_top_right(s.spec_char_at(row, c)) && spec_is_horizontal(
        s.spec_char_at(row, c),
    ) {
        lemma_scan_right_bounds(s, row, c + 1);
    }
}

proof fn lemma_scan_down_bounds(s: &Screen, r: int, col: int)
    requires
        0 <= r,
    ensures
        spec_scan_down(s, r, col) == -1 || r <= spec_scan_down(s, r, col) < s.spec_height(),
    decreases s.spec_height() - r,
{
    if 0 <= r < s.spec_height() && !spec_is_bottom_left(s.spec_char_at(r, col))
        && spec_is_vertical(s.spec_char_at(r, col)) {
        lemma_scan_down_bounds(s, r + 1, col);
    }
}

/// Tries to complete a box from a top-left corner at `(start_row,
/// start_col)`.
#[verifier::rlimit(100)]
pub fn try_find_box(screen: &Screen, start_row: usize, start_col: usize, ref_counter: &mut u32) -> (
    r: Option<Region>)
    requires
        screen.wf(),
        *old(ref_counter) < u32::MAX,
        start_row < screen.spec_height(),
        start_col < screen.spec_width(),
    ensures
        match spec_box_at(screen, start_row as int, start_col as int) {
            Some(m) => r matches Some(reg) && {
                &&& reg.bounds.x == spec_sat16(m.x)
                &&& reg.bounds.y == spec_sat16(m.y)
                &&& reg.bounds.width == spec_sat16(m.width)
                &&& reg.bounds.height == spec_sat16(m.height)
                &&& reg.region_type == m.rtype
                &&& reg.text@ == m.text
                &&& !reg.focused
                &&& reg.ref_id@ == "@e"@ + spec_dec((*old(ref_counter) + 1) as nat)
                &&& *final(ref_counter) == *old(ref_counter) + 1
            },
            None => r is None && *final(ref_counter) == *old(ref_counter),
        },
{
    let (width, height) = screen.size();
    let ghost y = start_row as int;
    let ghost x = start_col as int;
    let mut end_col = start_col + 1;
    proof {
        lemma_scan_right_bounds(screen, y, x + 1);
    }
    #[verifier::loop_isolation(true)]
    loop
        invariant
            screen.wf(),
            width == screen.spec_width(),
            height == screen.spec_height(),
            y == start_row as int,
            x == start_col as int,
            start_row < height,
            start_col < width,
            start_col < end_col,
            end_col <= width,
            spec_scan_right(screen, y, x + 1) == spec_scan_right(screen, y, end_col as int),
            spec_scan_right(screen, y, x + 1) == -1 || start_col < spec_scan_right(screen, y, x + 1)
                < width,
        ensures
            end_col <= width,
            end_col < width ==> end_col == spec_scan_right(screen, y, x + 1),
            end_col >= width ==> spec_scan_right(screen, y, x + 1) == -1,
        decreases width - end_col,
    {
        if end_col >= width {
            proof {
                assert(spec_scan_right(screen, y, end_col as int) == -1);
            }
            break ;
        }
        let c = screen.char_at(start_row, end_col);
        if is_top_right_corner(c) {
            break ;
        }
        if !is_horizontal_line(c) {
            proof {
                assert(spec_scan_right(screen, y, end_col as int) == -1);
            }
            return None;
        }
        end_col = end_col + 1;
    }
    if end_col >= width {
        return None;
    }
    let bwidth = end_col - start_col + 1;
    if bwidth < 3 {
        return None;
    }
    let mut end_row = start_row + 1;
    proof {
        lemma_scan_down_bounds(screen, y + 1, x);
    }
    #[verifier::loop_isolation(true)]
    loop
        invariant
            screen.wf(),
            width == screen.spec_width(),
            height == screen.spec_height(),
            y == start_row as int,
            x == start_col as int,
            start_row < height,
            start_col < width,
            start_row < end_row,
            end_row <= height,
            spec_scan_down(screen, y + 1, x) == spec_scan_down(screen, end_row as int, x),
            spec_scan_down(screen, y + 1, x) == -1 || start_row < spec_scan_down(screen, y + 1, x)
                < height,
        ensures
            end_row <= height,
            end_row < height ==> end_row == spec_scan_down(screen, y + 1, x),
            end_row >= height ==> spec_scan_down(screen, y + 1, x) == -1,
        decreases height - end_row,
    {
        if end_row >= height {
            proof {
                assert(spec_scan_down(screen, end_row as int, x) == -1);
            }
            break ;
        }
        let c = screen.char_at(end_row, start_col);
        if is_bottom_left_corner(c) {
            break ;
        }
        if !is_vertical_line(c) {
            proof {
                assert(spec_scan_down(screen, end_row as int, x) == -1);
            }
            return None;
        }
        end_row = end_row + 1;
    }
    if end_row >= height {
        return None;
    }
    let bheight = end_row - start_row + 1;
    if bheight < 3 {
        return None;
    }
    let bottom_right = screen.char_at(end_row, end_col);
    if !is_bottom_right_corner(bottom_right) {
        return None;
    }
    let mut col = start_col + 1;
    while col < end_col
        invariant
            screen.wf(),
            start_col < col <= end_col,
            forall|c2: int|
                start_col < c2 < col ==> (spec_is_horizontal(
                    #[trigger] screen.spec_char_at(end_row as int, c2),
                ) || spec_is_bottom_left(screen.spec_char_at(end_row as int, c2))
                    || spec_is_bottom_right(screen.spec_char_at(end_row as int, c2))),
        decreases end_col - col,
    {
        let c = screen.char_at(end_row, col);
        if !is_horizontal_line(c) && !is_bottom_left_corner(c) && !is_bottom_right_corner(c) {
            return None;
        }
        col = col + 1;
    }
    let mut rr = start_row + 1;
    while rr < end_row
        invariant
            screen.wf(),
            start_row < rr <= end_row,
            forall|r2: int|
                start_row < r2 < rr ==> (spec_is_vertical(
                    #[trigger] screen.spec_char_at(r2, end_col as int),
                ) || spec_is_top_right(screen.spec_char_at(r2, end_col as int))
                    || spec_is_bottom_right(screen.spec_char_at(r2, end_col as int))),
        decreases end_row - rr,
    {
        let c = screen.char_at(rr, end_col);
        if !is_vertical_line(c) && !is_top_right_corner(c) && !is_bottom_right_corner(c) {
            return None;
        }
        rr = rr + 1;
    }
    let text = screen.text_in_rect(start_col, start_row, bwidth, bheight);
    let reg = make_region(
        start_col,
        start_row,
        bwidth,
        bheight,
        RegionType::Unknown,
        text,
        false,
        ref_counter,
    );
    Some(reg)
}

/// Boxes found from row `y`, column `x` on, in reading order: one for
/// each top-left corner that completes.
pub open spec fn spec_boxes_row(s: &Screen, y: int, x: int) -> Seq<RegionModel>
    decreases s.spec_width() - x,
{
    if x < 0 || x >= s.spec_width() {
        Seq::empty()
    } else {
        (if spec_is_top_left(s.spec_char_at(y, x)) && spec_box_at(s, y, x) is Some {
            seq![spec_box_at(s, y, x)->Some_0]
        } else {
            Seq::empty()
        }) + spec_boxes_row(s, y, x + 1)
    }
}

/// All boxes of the screen from row `y` down.
pub open spec fn spec_boxes(s: &Screen, y: int) -> Seq<RegionModel>
    decreases s.spec_height() - y,
{
    if y < 0 || y >= s.spec_height() {
        Seq::empty()
    } else {
        spec_boxes_row(s, y, 0) + spec_boxes(s, y + 1)
    }
}

/// Detects bordered boxes: rectangles of box-drawing characters, with
/// the text they contain.
#[verifier::rlimit(100)]
pub fn detect_boxes(screen: &Screen, ref_counter: &mut u32) -> (r: Vec<Region>)
    requires
        screen.wf(),
        *old(ref_counter) + screen.spec_width() * screen.spec_height() + 1 <= u32::MAX,
    ensures
        spec_regions_match(r@, spec_boxes(screen, 0), *old(ref_counter) as int),
        *final(ref_counter) == *old(ref_counter) + spec_boxes(screen, 0).len(),
        spec_boxes(screen, 0).len() <= screen.spec_width() * screen.spec_height(),
{
    let (width, height) = screen.size();
    let ghost c0 = *ref_counter;
    let mut out: Vec<Region> = Vec::new();
    let ghost mut ms: Seq<RegionModel> = Seq::empty();
    let mut row: usize = 0;
    proof {
        assert(spec_boxes(screen, 0) =~= ms + spec_boxes(screen, 0));
    }
    while row < height
        invariant
            screen.wf(),
            width == screen.spec_width(),
            height == screen.spec_height(),
            c0 + width * height + 1 <= u32::MAX,
            row <= height,
            spec_boxes(screen, 0) =~= ms + spec_boxes(screen, row as int),
            spec_regions_match(out@, ms, c0 as int),
            out@.len() == ms.len(),
            *ref_counter == c0 + ms.len(),
            ms.len() <= width * row,
        decreases height - row,
    {
        proof {
            assert(width * row + width <= width * height) by (nonlinear_arith)
                requires
                    row < height,
                    0 <= width,
                    0 <= row,
            ;
        }
        proof {
            assert(spec_boxes(screen, row as int) =~= spec_boxes_row(screen, row as int, 0)
                + spec_boxes(screen, row + 1));
            assert(spec_boxes(screen, 0) =~= ms + spec_boxes_row(screen, row as int, 0)
                + spec_boxes(screen, row + 1));
            assert(width * row + width == width * (row + 1)) by (nonlinear_arith);
            assert(width * (row + 1) <= width * height) by (nonlinear_arith)
                requires
                    row < height,
                    0 <= width,
                    0 <= row,
            ;
        }
        let mut col: usize = 0;
        while col < width
            invariant
                screen.wf(),
                width == screen.spec_width(),
                height == screen.spec_height(),
                row < height,
                c0 + width * height + 1 <= u32::MAX,
                col <= width,
                spec_boxes(screen, 0) =~= ms + spec_boxes_row(screen, row as int, col as int)
                    + spec_boxes(screen, row + 1),
                spec_regions_match(out@, ms, c0 as int),
                out@.len() == ms.len(),
                *ref_counter == c0 + ms.len(),
                ms.len() <= width * row + col,
                width * row + width <= width * height,
            decreases width - col,
        {
            let c = screen.char_at(row, col);
            if is_top_left_corner(c) {
                match try_find_box(screen, row, col, ref_counter) {
                    Some(region) => {
                        out.push(region);
                        proof {
                            let m = spec_box_at(screen, row as int, col as int)->Some_0;
                            assert(spec_boxes_row(screen, row as int, col as int) =~= seq![m]
                                + spec_boxes_row(screen, row as int, col + 1));
                            ms = ms.push(m);
                        }
                    },
                    None => {
                        proof {
                            assert(spec_boxes_row(screen, row as int, col as int)
                                =~= spec_boxes_row(screen, row as int, col + 1));
                        }
                    },
                }
            } else {
                proof {
                    assert(spec_boxes_row(screen, row as int, col as int) =~= spec_boxes_row(
                        screen,
                        row as int,
                        col + 1,
                    ));
                }
            }
            col = col + 1;
        }
        proof {
            assert(spec_boxes_row(screen, row as int, width as int) =~= Seq::<
                RegionModel,
            >::empty());
            assert(spec_boxes(screen, 0) =~= ms + spec_boxes(screen, row + 1));
        }
        row = row + 1;
    }
    proof {
        assert(spec_boxes(screen, row as int) =~= Seq::<RegionModel>::empty());
        assert(ms =~= spec_boxes(screen, 0));
    }
    out
}

/// Whether two attribute sets carry the same kind of highlight: the
/// second must be highlighted, and either both are inverse or they share
/// a background with equal inversion.
pub open spec fn spec_highlights_match(a: CellAttrs, b: CellAttrs) -> bool {
    if !spec_has_background(b) {
        false
    } else if a.inverse && b.inverse {
        true
    } else {
        a.bg == b.bg && a.inverse == b.inverse
    }
}

/// Whether two cells carry the same highlight.
pub fn highlights_match(a: &CellAttrs, b: &CellAttrs) -> (r: bool)
    ensures
        r == spec_highlights_match(*a, *b),
{
    if !b.has_background() {
        return false;
    }
    if a.inverse && b.inverse {
        return true;
    }
    a.bg == b.bg && a.inverse == b.inverse
}

/// Every cell of the rectangle rows `[r0, r1]`, columns `[c0, c1]`
/// matches the highlight of `a`.
pub open spec fn spec_rect_matches(s: &Screen, a: CellAttrs, r0: int, r1: int, c0: int, c1: int) -> bool {
    forall|r: int, c: int|
        r0 <= r <= r1 && c0 <= c <= c1 ==> spec_highlights_match(
            a,
            #[trigger] s.spec_attrs_at(r, c),
        )
}

/// The text of the rectangle: its rows joined by newlines, then trimmed.
pub open spec fn spec_rect_text(s: &Screen, r0: int, r1: int, c0: int, c1: int) -> Seq<char> {
    spec_trim(spec_rect_text_acc(s, r0, r1, c0, c1, Seq::empty(), true))
}

/// Rectangle text accumulated row by row, a newline before every row but
/// the first.
pub open spec fn spec_rect_text_acc(
    s: &Screen,
    r: int,
    r1: int,
    c0: int,
    c1: int,
    acc: Seq<char>,
    first: bool,
) -> Seq<char>
    decreases r1 - r + 1,
{
    if r > r1 {
        acc
    } else {
        let line = Seq::new((c1 - c0 + 1) as nat, |k: int| s.spec_char_at(r, c0 + k));
        let acc2 = if first {
            acc + line
        } else {
            acc + seq!['\n'] + line
        };
        spec_rect_text_acc(s, r + 1, r1, c0, c1, acc2, false)
    }
}

/// Flood fills the highlight around `(start_row, start_col)`: the
/// contiguous run of matching cells on the start row, extended to the
/// rows above and below that match across that whole column range. The
/// filled rectangle is marked visited. `None` when the text is empty or
/// mostly box-drawing chrome.
#[verifier::rlimit(100)]
pub fn flood_fill_highlight(
    screen: &Screen,
    start_row: usize,
    start_col: usize,
    visited: &mut Vec<Vec<bool>>,
    ref_counter: &mut u32,
) -> (r: Option<Region>)
    requires
        screen.wf(),
        *old(ref_counter) < u32::MAX,
        start_row < screen.spec_height(),
        start_col < screen.spec_width(),
        screen.spec_width() <= 0xffff,
        screen.spec_height() <= 0xffff,
        spec_has_background(screen.spec_attrs_at(start_row as int, start_col as int)),
    ensures
        *final(ref_counter) == *old(ref_counter) + (if r is Some {
            1int
        } else {
            0int
        }),
        match r {
            Some(reg) => {
                let a = screen.spec_attrs_at(start_row as int, start_col as int);
                let r0 = reg.bounds.y as int;
                let c0 = reg.bounds.x as int;
                let r1 = r0 + reg.bounds.height - 1;
                let c1 = c0 + reg.bounds.width - 1;
                &&& reg.bounds.width >= 1 && reg.bounds.height >= 1
                &&& r0 <= start_row <= r1 && c0 <= start_col <= c1
                &&& r1 < screen.spec_height() && c1 < screen.spec_width()
                &&& spec_rect_matches(screen, a, r0, r1, c0, c1)
                &&& c0 == 0 || !spec_highlights_match(
                    a,
                    screen.spec_attrs_at(start_row as int, c0 - 1),
                )
                &&& c1 + 1 >= screen.spec_width() || !spec_highlights_match(
                    a,
                    screen.spec_attrs_at(start_row as int, c1 + 1),
                )
                &&& reg.text@ == spec_rect_text(screen, r0, r1, c0, c1)
                &&& reg.text@.len() > 0
                &&& !spec_is_box_drawing_text(reg.text@)
                &&& reg.region_type == (if a.inverse {
                    RegionType::MenuItem
                } else {
                    RegionType::Unknown
                })
                &&& reg.focused == a.inverse
                &&& reg.ref_id@ == "@e"@ + spec_dec((*old(ref_counter) + 1) as nat)
            },
            None => true,
        },
{
    let (width, height) = screen.size();
    let start_attrs = screen.attrs_at(start_row, start_col);
    let ghost a = start_attrs;
    let mut min_col = start_col;
    while min_col > 0
        invariant
            screen.wf(),
            min_col <= start_col,
            forall|c: int|
                min_col <= c < start_col ==> spec_highlights_match(
                    a,
                    #[trigger] screen.spec_attrs_at(start_row as int, c),
                ),
        decreases min_col,
    {
        let attrs = screen.attrs_at(start_row, min_col - 1);
        if !highlights_match(&start_attrs, &attrs) {
            break ;
        }
        min_col = min_col - 1;
    }
    let mut max_col = start_col;
    while max_col + 1 < width
        invariant
            screen.wf(),
            width == screen.spec_width(),
            start_col <= max_col < width,
            forall|c: int|
                start_col < c <= max_col ==> spec_highlights_match(
                    a,
                    #[trigger] screen.spec_attrs_at(start_row as int, c),
                ),
        decreases width - max_col,
    {
        let attrs = screen.attrs_at(start_row, max_col + 1);
        if !highlights_match(&start_attrs, &attrs) {
            break ;
        }
        max_col = max_col + 1;
    }
    let mut min_row = start_row;
    while min_row > 0
        invariant
            screen.wf(),
            min_row <= start_row,
            start_col <= max_col,
            min_col <= start_col,
            forall|r2: int, c: int|
                min_row <= r2 < start_row && min_col <= c <= max_col ==> spec_highlights_match(
                    a,
                    #[trigger] screen.spec_attrs_at(r2, c),
                ),
        decreases min_row,
    {
        let mut row_matches = true;
        let mut c = min_col;
        while c <= max_col && row_matches
            invariant
                screen.wf(),
                min_row > 0,
                min_col <= c,
                c <= max_col + 1,
                row_matches ==> forall|k: int|
                    min_col <= k < c ==> spec_highlights_match(
                        a,
                        #[trigger] screen.spec_attrs_at(min_row - 1, k),
                    ),
                !row_matches ==> exists|k: int|
                    min_col <= k <= max_col && !spec_highlights_match(
                        a,
                        #[trigger] screen.spec_attrs_at(min_row - 1, k),
                    ),
            decreases max_col + 1 - c,
        {
            let attrs = screen.attrs_at(min_row - 1, c);
            if !highlights_match(&start_attrs, &attrs) {
                row_matches = false;
            }
            c = c + 1;
        }
        if !row_matches {
            break ;
        }
        min_row = min_row - 1;
    }
    let mut max_row = start_row;
    while max_row + 1 < height
        invariant
            screen.wf(),
            height == screen.spec_height(),
            start_row <= max_row < height,
            start_col <= max_col,
            min_col <= start_col,
            forall|r2: int, c: int|
                start_row < r2 <= max_row && min_col <= c <= max_col ==> spec_highlights_match(
                    a,
                    #[trigger] screen.spec_attrs_at(r2, c),
                ),
        decreases height - max_row,
    {
        let mut row_matches = true;
        let mut c = min_col;
        while c <= max_col && row_matches
            invariant
                screen.wf(),
                max_row + 1 < height,
                height == screen.spec_height(),
                min_col <= c,
                c <= max_col + 1,
                row_matches ==> forall|k: int|
                    min_col <= k < c ==> spec_highlights_match(
                        a,
                        #[trigger] screen.spec_attrs_at(max_row + 1, k),
                    ),
            decreases max_col + 1 - c,
        {
            let attrs = screen.attrs_at(max_row + 1, c);
            if !highlights_match(&start_attrs, &attrs) {
                row_matches = false;
            }
            c = c + 1;
        }
        if !row_matches {
            break ;
        }
        max_row = max_row + 1;
    }
    let mut vr = min_row;
    while vr <= max_row
        invariant
            min_row <= vr,
        decreases max_row + 1 - vr,
    {
        if vr < visited.len() {
            let rowlen = visited[vr].len();
            let mut vc = min_col;
            while vc <= max_col
                invariant
                    min_col <= vc,
                    vr < visited@.len(),
                decreases max_col + 1 - vc,
            {
                if vc < visited[vr].len() {
                    let rowref = &mut visited[vr];
                    rowref[vc] = true;
                }
                vc = vc + 1;
            }
        }
        vr = vr + 1;
    }
    let mut text_acc: Vec<char> = Vec::new();
    let mut row = min_row;
    proof {
        assert(text_acc@ =~= Seq::<char>::empty());
    }
    while row <= max_row
        invariant
            screen.wf(),
            min_row <= row <= max_row + 1,
            min_col <= start_col <= max_col,
            spec_rect_text_acc(
                screen,
                min_row as int,
                max_row as int,
                min_col as int,
                max_col as int,
                Seq::empty(),
                true,
            ) == spec_rect_text_acc(
                screen,
                row as int,
                max_row as int,
                min_col as int,
                max_col as int,
                text_acc@,
                row == min_row,
            ),
            row == min_row ==> text_acc@.len() == 0,
        decreases max_row + 1 - row,
    {
        let ghost prev0 = text_acc@;
        if row > min_row {
            text_acc.push('\n');
        }
        let ghost before = text_acc@;
        let mut c = min_col;
        while c <= max_col
            invariant
                screen.wf(),
                min_col <= c <= max_col + 1,
                text_acc@ =~= before + Seq::new(
                    (c - min_col) as nat,
                    |k: int| screen.spec_char_at(row as int, min_col + k),
                ),
            decreases max_col + 1 - c,
        {
            text_acc.push(screen.char_at(row, c));
            proof {
                assert(text_acc@ =~= before + Seq::new(
                    (c + 1 - min_col) as nat,
                    |k: int| screen.spec_char_at(row as int, min_col + k),
                ));
            }
            c = c + 1;
        }
        proof {
            let line = Seq::new(
                (max_col - min_col + 1) as nat,
                |k: int| screen.spec_char_at(row as int, min_col + k),
            );
            if row == min_row {
                assert(text_acc@ =~= prev0 + line);
            } else {
                assert(text_acc@ =~= prev0 + seq!['\n'] + line);
            }
        }
        row = row + 1;
    }
    let trimmed = trim_chars(&text_acc);
    proof {
        assert(spec_rect_text_acc(
            screen,
            row as int,
            max_row as int,
            min_col as int,
            max_col as int,
            text_acc@,
            row == min_row,
        ) == text_acc@);
        assert(trimmed@ == spec_rect_text(
            screen,
            min_row as int,
            max_row as int,
            min_col as int,
            max_col as int,
        ));
    }
    if trimmed.len() == 0 {
        return None;
    }
    let text = string_of(&trimmed);
    if is_box_drawing_text(text.as_str()) {
        return None;
    }
    proof {
        assert forall|r2: int, c: int|
            min_row <= r2 <= max_row && min_col <= c <= max_col implies spec_highlights_match(
            a,
            #[trigger] screen.spec_attrs_at(r2, c),
        ) by {
            if r2 == start_row as int && c == start_col as int {
                assert(spec_has_background(a));
            }
        }
    }
    let region_type = if start_attrs.is_inverse() {
        RegionType::MenuItem
    } else {
        RegionType::Unknown
    };
    let reg = make_region(
        min_col,
        min_row,
        max_col - min_col + 1,
        max_row - min_row + 1,
        region_type,
        text,
        start_attrs.is_inverse(),
        ref_counter,
    );
    Some(reg)
}

/// Finds underlined shortcut letters and the words around them: an
/// underlined ASCII letter marks its whole word as a menu item. Every
/// returned region is one row high, typed as a menu item, unfocused, with
/// non-blank text, and references are numbered sequentially.
pub fn detect_underlined_shortcuts(screen: &Screen, ref_counter: &mut u32) -> (r: Vec<Region>)
    requires
        screen.wf(),
        *old(ref_counter) + screen.spec_width() * screen.spec_height() + 1 <= u32::MAX,
    ensures
        *final(ref_counter) == *old(ref_counter) + r@.len(),
        r@.len() <= screen.spec_width() * screen.spec_height(),
        forall|k: int|
            0 <= k < r@.len() ==> {
                let reg = #[trigger] r@[k];
                &&& reg.region_type == RegionType::MenuItem
                &&& !reg.focused
                &&& reg.bounds.height == 1
                &&& !crate::chars::spec_all_whitespace(reg.text@)
                &&& reg.ref_id@ == "@e"@ + spec_dec((*old(ref_counter) + k + 1) as nat)
            },
{
    let (width, height) = screen.size();
    let ghost c0 = *ref_counter;
    let mut out: Vec<Region> = Vec::new();
    let mut row: usize = 0;
    while row < height
        invariant
            screen.wf(),
            width == screen.spec_width(),
            height == screen.spec_height(),
            c0 + width * height + 1 <= u32::MAX,
            row <= height,
            *ref_counter == c0 + out@.len(),
            out@.len() <= width * row,
            forall|k: int|
                0 <= k < out@.len() ==> {
                    let reg = #[trigger] out@[k];
                    &&& reg.region_type == RegionType::MenuItem
                    &&& !reg.focused
                    &&& reg.bounds.height == 1
                    &&& !crate::chars::spec_all_whitespace(reg.text@)
                    &&& reg.ref_id@ == "@e"@ + spec_dec((c0 + k + 1) as nat)
                },
        decreases height - row,
    {
        proof {
            assert(width * row + width <= width * height) by (nonlinear_arith)
                requires
                    row < height,
                    0 <= width,
                    0 <= row,
            ;
        }
        let mut col: usize = 0;
        while col < width
            invariant
                screen.wf(),
                width == screen.spec_width(),
                height == screen.spec_height(),
                row < height,
                c0 + width * height + 1 <= u32::MAX,
                col <= width,
                *ref_counter == c0 + out@.len(),
                out@.len() <= width * row + col,
                width * row + width <= width * height,
                forall|k: int|
                    0 <= k < out@.len() ==> {
                        let reg = #[trigger] out@[k];
                        &&& reg.region_type == RegionType::MenuItem
                        &&& !reg.focused
                        &&& reg.bounds.height == 1
                        &&& !crate::chars::spec_all_whitespace(reg.text@)
                        &&& reg.ref_id@ == "@e"@ + spec_dec((c0 + k + 1) as nat)
                    },
            decreases width - col,
        {
            let cell = screen.cell_at(row, col);
            if cell.attrs.underline && is_ascii_alpha_char(cell.ch) {
                let (word_start, word_end) = find_word_bounds(screen, row, col);
                let mut textv: Vec<char> = Vec::new();
                let mut c = word_start;
                while c <= word_end
                    invariant
                        screen.wf(),
                        word_start <= c <= word_end + 1,
                        word_end < width,
                        width == screen.spec_width(),
                    decreases word_end + 1 - c,
                {
                    textv.push(screen.char_at(row, c));
                    c = c + 1;
                }
                let trimmed = trim_chars(&textv);
                if trimmed.len() > 0 {
                    proof {
                        crate::chars::lemma_trim_nonempty(textv@);
                    }
                    let text = string_of(&textv);
                    let reg = make_region(
                        word_start,
                        row,
                        word_end - word_start + 1,
                        1,
                        RegionType::MenuItem,
                        text,
                        false,
                        ref_counter,
                    );
                    out.push(reg);
                }
                col = word_end + 1;
            } else {
                col = col + 1;
            }
        }
        proof {
            assert(width * row + width == width * (row + 1)) by (nonlinear_arith);
        }
        row = row + 1;
    }
    out
}


/// Detects highlighted regions: flood fills each unvisited highlighted
/// cell into its maximal matching rectangle. Every returned region has
/// non-blank text, and references are numbered sequentially.
pub fn detect_highlighted_regions(screen: &Screen, ref_counter: &mut u32) -> (r: Vec<Region>)
    requires
        screen.wf(),
        screen.spec_width() <= 0xffff,
        screen.spec_height() <= 0xffff,
        *old(ref_counter) + screen.spec_width() * screen.spec_height() + 1 <= u32::MAX,
    ensures
        *final(ref_counter) == *old(ref_counter) + r@.len(),
        r@.len() <= screen.spec_width() * screen.spec_height(),
        forall|k: int|
            0 <= k < r@.len() ==> (#[trigger] r@[k]).text@.len() > 0 && r@[k].ref_id@ == "@e"@
                + spec_dec((*old(ref_counter) + k + 1) as nat),
{
    let (width, height) = screen.size();
    let ghost c0 = *ref_counter;
    let mut visited: Vec<Vec<bool>> = Vec::new();
    for vr in 0..height
        invariant
            visited@.len() == vr,
    {
        let mut row: Vec<bool> = Vec::new();
        for vc in 0..width
            invariant
                row@.len() == vc,
        {
            row.push(false);
        }
        visited.push(row);
    }
    let mut out: Vec<Region> = Vec::new();
    let mut row: usize = 0;
    while row < height
        invariant
            screen.wf(),
            width == screen.spec_width(),
            height == screen.spec_height(),
            width <= 0xffff,
            height <= 0xffff,
            c0 + width * height + 1 <= u32::MAX,
            row <= height,
            *ref_counter == c0 + out@.len(),
            out@.len() <= width * row,
            forall|k: int|
                0 <= k < out@.len() ==> (#[trigger] out@[k]).text@.len() > 0 && out@[k].ref_id@
                    == "@e"@ + spec_dec((c0 + k + 1) as nat),
        decreases height - row,
    {
        proof {
            assert(width * row + width == width * (row + 1)) by (nonlinear_arith);
            assert(width * (row + 1) <= width * height) by (nonlinear_arith)
                requires
                    row < height,
                    0 <= width,
                    0 <= row,
            ;
        }
        let mut col: usize = 0;
        while col < width
            invariant
                screen.wf(),
                width == screen.spec_width(),
                height == screen.spec_height(),
                width <= 0xffff,
                height <= 0xffff,
                row < height,
                c0 + width * height + 1 <= u32::MAX,
                col <= width,
                *ref_counter == c0 + out@.len(),
                out@.len() <= width * row + col,
                width * row + width <= width * height,
                forall|k: int|
                    0 <= k < out@.len() ==> (#[trigger] out@[k]).text@.len() > 0 && out@[k].ref_id@
                        == "@e"@ + spec_dec((c0 + k + 1) as nat),
            decreases width - col,
        {
            let mut skip = false;
            if row < visited.len() {
                if col < visited[row].len() {
                    if visited[row][col] {
                        skip = true;
                    }
                }
            }
            if !skip {
                let attrs = screen.attrs_at(row, col);
                if attrs.has_background() {
                    match flood_fill_highlight(screen, row, col, &mut visited, ref_counter) {
                        Some(region) => {
                            out.push(region);
                        },
                        None => {},
                    }
                }
            }
            col = col + 1;
        }
        row = row + 1;
    }
    out
}

/// Whether a screen shows exactly the given attributed cell rows: the
/// height is the row count, the width covers the longest row, and every
/// cell's character and attributes read back, spaces and default
/// attributes past a row's end.
pub open spec fn spec_screen_of_cells(s: &Screen, cells: Seq<Vec<Cell>>) -> bool {
    &&& s.wf()
    &&& s.spec_height() == cells.len()
    &&& (s.spec_width() == 0 || exists|r: int|
        0 <= r < cells.len() && (#[trigger] cells[r])@.len() == s.spec_width())
    &&& forall|r: int| 0 <= r < cells.len() ==> (#[trigger] cells[r])@.len() <= s.spec_width()
    &&& forall|r: int, c: int|
        0 <= r < cells.len() && 0 <= c < s.spec_width() ==> #[trigger] s.spec_char_at(r, c) == (
        if c < cells[r]@.len() {
            cells[r]@[c].ch
        } else {
            ' '
        })
    &&& forall|r: int, c: int|
        0 <= r < cells.len() && 0 <= c < cells[r]@.len() ==> #[trigger] s.spec_attrs_at(r, c)
            == cells[r]@[c].attrs
}

/// A trailing carriage return removed.
pub open spec fn spec_strip_cr(s: Seq<char>) -> Seq<char> {
    if s.len() > 0 && s[s.len() - 1] == '\r' {
        s.take(s.len() - 1)
    } else {
        s
    }
}

/// The terminal lines of a text: split on newlines, a trailing empty
/// piece dropped, and a carriage return before each newline dropped.
pub open spec fn spec_text_lines(t: Seq<char>) -> Seq<Seq<char>> {
    let ps = spec_split(t, '\n');
    let kept = if ps.len() > 0 && ps.last().len() == 0 {
        ps.drop_last()
    } else {
        ps
    };
    kept.map_values(|p: Seq<char>| spec_strip_cr(p))
}

/// The mathematical shape of a detected region, before its reference is
/// assigned.
pub struct RegionModel {
    pub x: int,
    pub y: int,
    pub width: int,
    pub height: int,
    pub rtype: RegionType,
    pub text: Seq<char>,
    pub focused: bool,
}

/// Whether concrete regions carry the given models, with references
/// numbered sequentially from `first`.
pub open spec fn spec_regions_match(rs: Seq<Region>, ms: Seq<RegionModel>, first: int) -> bool {
    &&& rs.len() == ms.len()
    &&& forall|k: int|
        0 <= k < ms.len() ==> {
            let r = #[trigger] rs[k];
            let m = ms[k];
            &&& r.bounds.x == spec_sat16(m.x)
            &&& r.bounds.y == spec_sat16(m.y)
            &&& r.bounds.width == spec_sat16(m.width)
            &&& r.bounds.height == spec_sat16(m.height)
            &&& r.region_type == m.rtype
            &&& r.text@ == m.text
            &&& r.focused == m.focused
            &&& r.ref_id@ == "@e"@ + spec_dec((first + k + 1) as nat)
        }
}

/// A size clamped into `u16`.
pub open spec fn spec_sat16(v: int) -> u16 {
    if v > 0xffff {
        0xffffu16
    } else if v < 0 {
        0u16
    } else {
        v as u16
    }
}

/// Every character of a decimal rendering is a digit.
proof fn lemma_dec_digits(n: nat)
    ensures
        spec_dec(n).len() >= 1,
        forall|i: int| 0 <= i < spec_dec(n).len() ==> spec_is_ascii_digit(#[trigger] spec_dec(n)[i]),
    decreases n,
{
    if n >= 10 {
        lemma_dec_digits(n / 10);
    }
}

/// A freshly numbered region: bumps the counter and builds `@e<n>`.
fn make_region(
    x: usize,
    y: usize,
    width: usize,
    height: usize,
    rtype: RegionType,
    text: String,
    focused: bool,
    ref_counter: &mut u32,
) -> (r: Region)
    requires
        *old(ref_counter) < u32::MAX,
    ensures
        *final(ref_counter) == *old(ref_counter) + 1,
        r.bounds.x == spec_sat16(x as int),
        r.bounds.y == spec_sat16(y as int),
        r.bounds.width == spec_sat16(width as int),
        r.bounds.height == spec_sat16(height as int),
        r.region_type == rtype,
        r.text@ == text@,
        r.focused == focused,
        r.ref_id@ == "@e"@ + spec_dec(*final(ref_counter) as nat),
{
    *ref_counter = *ref_counter + 1;
    let mut idc: Vec<char> = Vec::new();
    idc.push('@');
    idc.push('e');
    push_dec_u64(&mut idc, *ref_counter as u64);
    proof {
        lemma_dec_digits(*ref_counter as nat);
        assert(idc@ =~= "@e"@ + spec_dec(*ref_counter as nat)) by {
            reveal_strlit("@e");
        }
        assert(spec_valid_ref_format(idc@)) by {
            reveal_strlit("@e");
        }
    }
    let ids = string_of(&idc);
    let ref_id = RefId::new(ids.as_str());
    Region {
        ref_id,
        bounds: Rect {
            x: saturating_u16(x),
            y: saturating_u16(y),
            width: saturating_u16(width),
            height: saturating_u16(height),
        },
        region_type: rtype,
        text,
        focused,
    }
}

/// Region matching splits over concatenation.
proof fn lemma_regions_match_concat(
    a: Seq<Region>,
    am: Seq<RegionModel>,
    b: Seq<Region>,
    bm: Seq<RegionModel>,
    first: int,
)
    requires
        spec_regions_match(a, am, first),
        spec_regions_match(b, bm, first + am.len()),
    ensures
        spec_regions_match(a + b, am + bm, first),
{
    assert forall|k: int| 0 <= k < (am + bm).len() implies {
        let r = #[trigger] (a + b)[k];
        let m = (am + bm)[k];
        &&& r.bounds.x == spec_sat16(m.x)
        &&& r.bounds.y == spec_sat16(m.y)
        &&& r.bounds.width == spec_sat16(m.width)
        &&& r.bounds.height == spec_sat16(m.height)
        &&& r.region_type == m.rtype
        &&& r.text@ == m.text
        &&& r.focused == m.focused
        &&& r.ref_id@ == "@e"@ + spec_dec((first + k + 1) as nat)
    } by {
        if k < am.len() {
            assert((a + b)[k] == a[k]);
            assert((am + bm)[k] == am[k]);
        } else {
            assert((a + b)[k] == b[k - am.len()]);
            assert((am + bm)[k] == bm[k - am.len()]);
        }
    }
}

/// Button patterns of one line from `i` on: `[ text ]` or `< text >`
/// with a non-empty label of at most twenty characters.
pub open spec fn spec_button_regions(line: Seq<char>, y: int, i: int) -> Seq<RegionModel>
    decreases line.len() - i,
    via spec_button_regions_decreases
{
    if i < 0 || i >= line.len() {
        Seq::empty()
    } else if (line[i] == '[' || line[i] == '<') && i + 2 < line.len() && line[i + 1] == ' ' {
        let close: char = if line[i] == '[' {
            ']'
        } else {
            '>'
        };
        let e = spec_button_end(line, i + 2, close);
        if e >= 0 && {
            let inner = spec_trim(line.subrange(i + 2, e - 1));
            inner.len() > 0 && inner.len() <= 20
        } {
            seq![
                RegionModel {
                    x: i,
                    y,
                    width: e - i + 1,
                    height: 1,
                    rtype: RegionType::Button,
                    text: line.subrange(i, e + 1),
                    focused: false,
                },
            ] + spec_button_regions(line, y, e + 1)
        } else {
            spec_button_regions(line, y, i + 1)
        }
    } else {
        spec_button_regions(line, y, i + 1)
    }
}

#[via_fn]
proof fn spec_button_regions_decreases(line: Seq<char>, y: int, i: int) {
    if 0 <= i < line.len() && (line[i] == '[' || line[i] == '<') && i + 2 < line.len() && line[i
        + 1] == ' ' {
        let close: char = if line[i] == '[' {
            ']'
        } else {
            '>'
        };
        lemma_button_end_bounds(line, i + 2, close);
    }
}

/// The end of a button pattern: the closing bracket right after a space,
/// reached without crossing another bracket; -1 when there is none.
pub open spec fn spec_button_end(line: Seq<char>, j: int, close: char) -> int
    decreases line.len() - j,
{
    if j < 0 || j + 1 >= line.len() {
        -1
    } else if line[j] == ' ' && line[j + 1] == close {
        j + 1
    } else if line[j] == '[' || line[j] == '<' || line[j] == ']' || line[j] == '>' {
        -1
    } else {
        spec_button_end(line, j + 1, close)
    }
}

proof fn lemma_button_end_bounds(line: Seq<char>, j: int, close: char)
    requires
        0 <= j,
    ensures
        spec_button_end(line, j, close) == -1 || j < spec_button_end(line, j, close)
            < line.len(),
    decreases line.len() - j,
{
    if j + 1 < line.len() && !(line[j] == ' ' && line[j + 1] == close) && !(line[j] == '['
        || line[j] == '<' || line[j] == ']' || line[j] == '>') {
        lemma_button_end_bounds(line, j + 1, close);
    }
}

/// Finds the end of a button pattern: a space followed by the closing
/// bracket, with no other bracket in between.
pub fn find_button_end(chars: &Vec<char>, start: usize, close: char) -> (r: Option<usize>)
    ensures
        spec_button_end(chars@, start as int, close) >= 0 ==> (r matches Some(e) && e
            == spec_button_end(chars@, start as int, close) && start < e < chars@.len()),
        spec_button_end(chars@, start as int, close) < 0 ==> r is None,
{
    let n = chars.len();
    if n == 0 {
        return None;
    }
    let mut j = start;
    while j < n - 1
        invariant
            n == chars@.len(),
            n > 0,
            start <= j,
            spec_button_end(chars@, start as int, close) == spec_button_end(
                chars@,
                j as int,
                close,
            ),
        decreases n - j,
    {
        if chars[j] == ' ' && chars[j + 1] == close {
            proof {
                lemma_button_end_bounds(chars@, start as int, close);
            }
            return Some(j + 1);
        }
        if chars[j] == '[' || chars[j] == '<' || chars[j] == ']' || chars[j] == '>' {
            return None;
        }
        j = j + 1;
    }
    None
}

/// Checkbox patterns of one line from `i` on: `[ ]`, `[x]`, `[X]`, `[*]`.
pub open spec fn spec_checkbox_regions(line: Seq<char>, y: int, i: int) -> Seq<RegionModel>
    decreases line.len() - i,
{
    if i < 0 || i + 2 >= line.len() {
        Seq::empty()
    } else if line[i] == '[' && line[i + 2] == ']' && (line[i + 1] == ' ' || line[i + 1] == 'x'
        || line[i + 1] == 'X' || line[i + 1] == '*') {
        seq![
            RegionModel {
                x: i,
                y,
                width: 3,
                height: 1,
                rtype: RegionType::Checkbox,
                text: line.subrange(i, i + 3),
                focused: false,
            },
        ] + spec_checkbox_regions(line, y, i + 3)
    } else {
        spec_checkbox_regions(line, y, i + 1)
    }
}

/// Radio-button patterns of one line from `i` on: `( )`, `(*)`, `(o)`,
/// `(O)`, `(•)`.
pub open spec fn spec_radio_regions(line: Seq<char>, y: int, i: int) -> Seq<RegionModel>
    decreases line.len() - i,
{
    if i < 0 || i + 2 >= line.len() {
        Seq::empty()
    } else if line[i] == '(' && line[i + 2] == ')' && (line[i + 1] == ' ' || line[i + 1] == '*'
        || line[i + 1] == 'o' || line[i + 1] == 'O' || line[i + 1] == '•') {
        seq![
            RegionModel {
                x: i,
                y,
                width: 3,
                height: 1,
                rtype: RegionType::RadioButton,
                text: line.subrange(i, i + 3),
                focused: false,
            },
        ] + spec_radio_regions(line, y, i + 3)
    } else {
        spec_radio_regions(line, y, i + 1)
    }
}

/// The end of the ASCII-letter run starting at `i`.
pub open spec fn spec_alpha_run(line: Seq<char>, i: int) -> int
    decreases line.len() - i,
{
    if i < 0 || i >= line.len() || !spec_is_ascii_alpha(line[i]) {
        i
    } else {
        spec_alpha_run(line, i + 1)
    }
}

proof fn lemma_alpha_run_bounds(line: Seq<char>, i: int)
    requires
        0 <= i <= line.len(),
    ensures
        i <= spec_alpha_run(line, i) <= line.len(),
        i < line.len() && spec_is_ascii_alpha(line[i]) ==> spec_alpha_run(line, i) > i,
        forall|k: int| i <= k < spec_alpha_run(line, i) ==> spec_is_ascii_alpha(#[trigger] line[k]),
        spec_alpha_run(line, i) < line.len() ==> !spec_is_ascii_alpha(line[spec_alpha_run(line, i)]),
    decreases line.len() - i,
{
    if i < line.len() && spec_is_ascii_alpha(line[i]) {
        lemma_alpha_run_bounds(line, i + 1);
    }
}

/// Menu-shortcut patterns of one line from `i` on: a parenthesized
/// letter leading a word, as in `(F)ile`.
pub open spec fn spec_menu_regions(line: Seq<char>, y: int, i: int) -> Seq<RegionModel>
    decreases line.len() - i,
    via spec_menu_regions_decreases
{
    if i < 0 || i + 2 >= line.len() {
        Seq::empty()
    } else if line[i] == '(' && line[i + 2] == ')' && spec_is_ascii_alpha(line[i + 1]) && i + 3
        < line.len() && spec_is_ascii_alpha(line[i + 3]) {
        let e = spec_alpha_run(line, i + 3);
        seq![
            RegionModel {
                x: i,
                y,
                width: e - i,
                height: 1,
                rtype: RegionType::MenuItem,
                text: line.subrange(i, e),
                focused: false,
            },
        ] + spec_menu_regions(line, y, e)
    } else {
        spec_menu_regions(line, y, i + 1)
    }
}

#[via_fn]
proof fn spec_menu_regions_decreases(line: Seq<char>, y: int, i: int) {
    if 0 <= i && i + 2 < line.len() && line[i] == '(' && line[i + 2] == ')' && spec_is_ascii_alpha(
        line[i + 1],
    ) && i + 3 < line.len() && spec_is_ascii_alpha(line[i + 3]) {
        lemma_alpha_run_bounds(line, i + 3);
    }
}

/// Finds button patterns `[ text ]` or `< text >` in one line.
#[verifier::rlimit(60)]
pub fn find_buttons(line: &str, row: usize, ref_counter: &mut u32) -> (r: Vec<Region>)
    requires
        *old(ref_counter) + line@.len() <= u32::MAX,
    ensures
        spec_regions_match(
            r@,
            spec_button_regions(line@, row as int, 0),
            *old(ref_counter) as int,
        ),
        *final(ref_counter) == *old(ref_counter) + spec_button_regions(
            line@,
            row as int,
            0,
        ).len(),
        4 * spec_button_regions(line@, row as int, 0).len() <= line@.len(),
{
    let v = chars_of(line);
    let n = v.len();
    let ghost t = line@;
    let ghost y = row as int;
    let ghost c0 = *ref_counter;
    let mut out: Vec<Region> = Vec::new();
    let ghost mut ms: Seq<RegionModel> = Seq::empty();
    let mut i: usize = 0;
    proof {
        assert(spec_button_regions(t, y, 0) =~= ms + spec_button_regions(t, y, 0));
    }
    while i < n
        invariant
            n == v@.len(),
            v@ == t,
            i <= n,
            c0 + t.len() <= u32::MAX,
            spec_button_regions(t, y, 0) =~= ms + spec_button_regions(t, y, i as int),
            spec_regions_match(out@, ms, c0 as int),
            out@.len() == ms.len(),
            *ref_counter == c0 + ms.len(),
            4 * ms.len() <= i,
        decreases n - i,
    {
        let mut advanced = false;
        if (v[i] == '[' || v[i] == '<') && n - i > 2 && v[i + 1] == ' ' {
            let close: char = if v[i] == '[' {
                ']'
            } else {
                '>'
            };
            match find_button_end(&v, i + 2, close) {
                Some(e) => {
                    let inner = crate::chars::sub_chars(&v, i + 2, e - 1);
                    let trimmed = trim_chars(&inner);
                    if trimmed.len() > 0 && trimmed.len() <= 20 {
                        let text = string_of(&crate::chars::sub_chars(&v, i, e + 1));
                        let reg = make_region(
                            i,
                            row,
                            e - i + 1,
                            1,
                            RegionType::Button,
                            text,
                            false,
                            ref_counter,
                        );
                        out.push(reg);
                        proof {
                            let m = RegionModel {
                                x: i as int,
                                y,
                                width: e - i + 1,
                                height: 1,
                                rtype: RegionType::Button,
                                text: t.subrange(i as int, e + 1),
                                focused: false,
                            };
                            assert(spec_button_regions(t, y, i as int) =~= seq![m]
                                + spec_button_regions(t, y, e + 1));
                            ms = ms.push(m);
                        }
                        i = e + 1;
                        advanced = true;
                    }
                },
                None => {},
            }
        }
        if !advanced {
            proof {
                assert(spec_button_regions(t, y, i as int) == spec_button_regions(t, y, i + 1));
            }
            i = i + 1;
        }
    }
    proof {
        assert(spec_button_regions(t, y, i as int) =~= Seq::<RegionModel>::empty());
        assert(ms =~= spec_button_regions(t, y, 0));
    }
    out
}

/// Finds checkbox patterns `[x]`, `[X]`, `[*]`, `[ ]` in one line.
pub fn find_checkboxes(line: &str, row: usize, ref_counter: &mut u32) -> (r: Vec<Region>)
    requires
        *old(ref_counter) + line@.len() <= u32::MAX,
    ensures
        spec_regions_match(
            r@,
            spec_checkbox_regions(line@, row as int, 0),
            *old(ref_counter) as int,
        ),
        *final(ref_counter) == *old(ref_counter) + spec_checkbox_regions(
            line@,
            row as int,
            0,
        ).len(),
        3 * spec_checkbox_regions(line@, row as int, 0).len() <= line@.len(),
{
    let v = chars_of(line);
    let n = v.len();
    let ghost t = line@;
    let ghost y = row as int;
    let ghost c0 = *ref_counter;
    let mut out: Vec<Region> = Vec::new();
    let ghost mut ms: Seq<RegionModel> = Seq::empty();
    let mut i: usize = 0;
    proof {
        assert(spec_checkbox_regions(t, y, 0) =~= ms + spec_checkbox_regions(t, y, 0));
    }
    while n >= 3 && i < n - 2
        invariant
            n == v@.len(),
            v@ == t,
            i <= n,
            c0 + t.len() <= u32::MAX,
            spec_checkbox_regions(t, y, 0) =~= ms + spec_checkbox_regions(t, y, i as int),
            spec_regions_match(out@, ms, c0 as int),
            out@.len() == ms.len(),
            *ref_counter == c0 + ms.len(),
            3 * ms.len() <= i,
        decreases n - i,
    {
        let mid = v[i + 1];
        if v[i] == '[' && v[i + 2] == ']' && (mid == ' ' || mid == 'x' || mid == 'X' || mid == '*')
        {
            let text = string_of(&crate::chars::sub_chars(&v, i, i + 3));
            let reg = make_region(i, row, 3, 1, RegionType::Checkbox, text, false, ref_counter);
            out.push(reg);
            proof {
                let m = RegionModel {
                    x: i as int,
                    y,
                    width: 3,
                    height: 1,
                    rtype: RegionType::Checkbox,
                    text: t.subrange(i as int, i + 3),
                    focused: false,
                };
                assert(spec_checkbox_regions(t, y, i as int) =~= seq![m] + spec_checkbox_regions(
                    t,
                    y,
                    i + 3,
                ));
                ms = ms.push(m);
            }
            i = i + 3;
        } else {
            proof {
                assert(spec_checkbox_regions(t, y, i as int) == spec_checkbox_regions(
                    t,
                    y,
                    i + 1,
                ));
            }
            i = i + 1;
        }
    }
    proof {
        assert(spec_checkbox_regions(t, y, i as int) =~= Seq::<RegionModel>::empty());
        assert(ms =~= spec_checkbox_regions(t, y, 0));
    }
    out
}

/// Finds radio-button patterns `(*)`, `( )`, `(o)`, `(O)`, `(•)` in one
/// line.
pub fn find_radio_buttons(line: &str, row: usize, ref_counter: &mut u32) -> (r: Vec<Region>)
    requires
        *old(ref_counter) + line@.len() <= u32::MAX,
    ensures
        spec_regions_match(
            r@,
            spec_radio_regions(line@, row as int, 0),
            *old(ref_counter) as int,
        ),
        *final(ref_counter) == *old(ref_counter) + spec_radio_regions(line@, row as int, 0).len(),
        3 * spec_radio_regions(line@, row as int, 0).len() <= line@.len(),
{
    let v = chars_of(line);
    let n = v.len();
    let ghost t = line@;
    let ghost y = row as int;
    let ghost c0 = *ref_counter;
    let mut out: Vec<Region> = Vec::new();
    let ghost mut ms: Seq<RegionModel> = Seq::empty();
    let mut i: usize = 0;
    proof {
        assert(spec_radio_regions(t, y, 0) =~= ms + spec_radio_regions(t, y, 0));
    }
    while n >= 3 && i < n - 2
        invariant
            n == v@.len(),
            v@ == t,
            i <= n,
            c0 + t.len() <= u32::MAX,
            spec_radio_regions(t, y, 0) =~= ms + spec_radio_regions(t, y, i as int),
            spec_regions_match(out@, ms, c0 as int),
            out@.len() == ms.len(),
            *ref_counter == c0 + ms.len(),
            3 * ms.len() <= i,
        decreases n - i,
    {
        let mid = v[i + 1];
        if v[i] == '(' && v[i + 2] == ')' && (mid == ' ' || mid == '*' || mid == 'o' || mid == 'O'
            || mid == '•') {
            let text = string_of(&crate::chars::sub_chars(&v, i, i + 3));
            let reg = make_region(i, row, 3, 1, RegionType::RadioButton, text, false, ref_counter);
            out.push(reg);
            proof {
                let m = RegionModel {
                    x: i as int,
                    y,
                    width: 3,
                    height: 1,
                    rtype: RegionType::RadioButton,
                    text: t.subrange(i as int, i + 3),
                    focused: false,
                };
                assert(spec_radio_regions(t, y, i as int) =~= seq![m] + spec_radio_regions(
                    t,
                    y,
                    i + 3,
                ));
                ms = ms.push(m);
            }
            i = i + 3;
        } else {
            proof {
                assert(spec_radio_regions(t, y, i as int) == spec_radio_regions(t, y, i + 1));
            }
            i = i + 1;
        }
    }
    proof {
        assert(spec_radio_regions(t, y, i as int) =~= Seq::<RegionModel>::empty());
        assert(ms =~= spec_radio_regions(t, y, 0));
    }
    out
}

/// Finds menu shortcuts such as `(F)ile` or `(E)dit`: a parenthesized
/// letter leading a word.
#[verifier::rlimit(60)]
pub fn find_menu_shortcuts(line: &str, row: usize, ref_counter: &mut u32) -> (r: Vec<Region>)
    requires
        *old(ref_counter) + line@.len() <= u32::MAX,
    ensures
        spec_regions_match(
            r@,
            spec_menu_regions(line@, row as int, 0),
            *old(ref_counter) as int,
        ),
        *final(ref_counter) == *old(ref_counter) + spec_menu_regions(line@, row as int, 0).len(),
        4 * spec_menu_regions(line@, row as int, 0).len() <= line@.len(),
{
    let v = chars_of(line);
    let n = v.len();
    let ghost t = line@;
    let ghost y = row as int;
    let ghost c0 = *ref_counter;
    let mut out: Vec<Region> = Vec::new();
    let ghost mut ms: Seq<RegionModel> = Seq::empty();
    let mut i: usize = 0;
    proof {
        assert(spec_menu_regions(t, y, 0) =~= ms + spec_menu_regions(t, y, 0));
    }
    while n >= 3 && i < n - 2
        invariant
            n == v@.len(),
            v@ == t,
            i <= n,
            c0 + t.len() <= u32::MAX,
            spec_menu_regions(t, y, 0) =~= ms + spec_menu_regions(t, y, i as int),
            spec_regions_match(out@, ms, c0 as int),
            out@.len() == ms.len(),
            *ref_counter == c0 + ms.len(),
            4 * ms.len() <= i,
        decreases n - i,
    {
        if v[i] == '(' && v[i + 2] == ')' && is_ascii_alpha_char(v[i + 1]) && i + 3 < n
            && is_ascii_alpha_char(v[i + 3]) {
            let mut e: usize = i + 3;
            while e < n && is_ascii_alpha_char(v[e])
                invariant
                    i + 3 <= e <= n,
                    n == v@.len(),
                    v@ == t,
                    forall|k: int| i + 3 <= k < e ==> spec_is_ascii_alpha(#[trigger] t[k]),
                decreases n - e,
            {
                e = e + 1;
            }
            proof {
                lemma_alpha_run_exact(t, i + 3, e as int);
            }
            let text = string_of(&crate::chars::sub_chars(&v, i, e));
            let reg = make_region(i, row, e - i, 1, RegionType::MenuItem, text, false, ref_counter);
            out.push(reg);
            proof {
                let m = RegionModel {
                    x: i as int,
                    y,
                    width: e - i,
                    height: 1,
                    rtype: RegionType::MenuItem,
                    text: t.subrange(i as int, e as int),
                    focused: false,
                };
                assert(spec_menu_regions(t, y, i as int) =~= seq![m] + spec_menu_regions(
                    t,
                    y,
                    e as int,
                ));
                ms = ms.push(m);
            }
            i = e;
        } else {
            proof {
                assert(spec_menu_regions(t, y, i as int) == spec_menu_regions(t, y, i + 1));
            }
            i = i + 1;
        }
    }
    proof {
        assert(spec_menu_regions(t, y, i as int) =~= Seq::<RegionModel>::empty());
        assert(ms =~= spec_menu_regions(t, y, 0));
    }
    out
}

proof fn lemma_alpha_run_exact(t: Seq<char>, i: int, j: int)
    requires
        0 <= i <= j <= t.len(),
        forall|k: int| i <= k < j ==> spec_is_ascii_alpha(#[trigger] t[k]),
        j == t.len() || !spec_is_ascii_alpha(t[j]),
    ensures
        spec_alpha_run(t, i) == j,
    decreases j - i,
{
    if i < j {
        lemma_alpha_run_exact(t, i + 1, j);
    }
}

/// The characters of one screen row, as the line the pattern finders
/// read.
pub open spec fn spec_row_line(s: &Screen, y: int) -> Seq<char> {
    Seq::new(s.spec_width(), |c: int| s.spec_char_at(y, c))
}

/// All pattern regions of one row: buttons, then checkboxes, then radio
/// buttons, then menu shortcuts.
pub open spec fn spec_patterns_row(s: &Screen, y: int) -> Seq<RegionModel> {
    let line = spec_row_line(s, y);
    spec_button_regions(line, y, 0) + spec_checkbox_regions(line, y, 0) + spec_radio_regions(
        line,
        y,
        0,
    ) + spec_menu_regions(line, y, 0)
}

/// All pattern regions of the screen from row `y` down.
pub open spec fn spec_patterns(s: &Screen, y: int) -> Seq<RegionModel>
    decreases s.spec_height() - y,
{
    if y < 0 || y >= s.spec_height() {
        Seq::empty()
    } else {
        spec_patterns_row(s, y) + spec_patterns(s, y + 1)
    }
}

/// Detects UI patterns row by row: buttons, checkboxes, radio buttons,
/// and menu shortcuts.
#[verifier::rlimit(100)]
pub fn detect_patterns(screen: &Screen, ref_counter: &mut u32) -> (r: Vec<Region>)
    requires
        screen.wf(),
        *old(ref_counter) + 2 * screen.spec_width() * screen.spec_height() + screen.spec_width()
            + 4 <= u32::MAX,
    ensures
        spec_regions_match(r@, spec_patterns(screen, 0), *old(ref_counter) as int),
        *final(ref_counter) == *old(ref_counter) + spec_patterns(screen, 0).len(),
        spec_patterns(screen, 0).len() <= 2 * screen.spec_width() * screen.spec_height(),
{
    let (width, height) = screen.size();
    let ghost c0 = *ref_counter;
    let mut out: Vec<Region> = Vec::new();
    let ghost mut ms: Seq<RegionModel> = Seq::empty();
    let mut y: usize = 0;
    proof {
        assert(spec_patterns(screen, 0) =~= ms + spec_patterns(screen, 0));
    }
    while y < height
        invariant
            screen.wf(),
            width == screen.spec_width(),
            height == screen.spec_height(),
            c0 + 2 * width * height + width + 4 <= u32::MAX,
            y <= height,
            spec_patterns(screen, 0) =~= ms + spec_patterns(screen, y as int),
            spec_regions_match(out@, ms, c0 as int),
            out@.len() == ms.len(),
            *ref_counter == c0 + ms.len(),
            ms.len() <= 2 * width * y,
        decreases height - y,
    {
        let mut linev: Vec<char> = Vec::new();
        for c in 0..width
            invariant
                screen.wf(),
                width == screen.spec_width(),
                y < height,
                height == screen.spec_height(),
                linev@.len() == c,
                forall|k: int|
                    0 <= k < c ==> #[trigger] linev@[k] == screen.spec_char_at(y as int, k),
        {
            linev.push(screen.char_at(y, c));
        }
        proof {
            assert(linev@ =~= spec_row_line(screen, y as int));
            assert(2 * width * y + 2 * width <= 2 * width * height) by (nonlinear_arith)
                requires
                    y < height,
                    0 <= width,
                    0 <= y,
            ;
        }
        let line = string_of(&linev);
        let ghost line_s = linev@;
        let mut bs = find_buttons(line.as_str(), y, ref_counter);
        let mut cs = find_checkboxes(line.as_str(), y, ref_counter);
        let mut rs = find_radio_buttons(line.as_str(), y, ref_counter);
        let mut mens = find_menu_shortcuts(line.as_str(), y, ref_counter);
        proof {
            let row_ms = spec_patterns_row(screen, y as int);
            assert(row_ms =~= spec_button_regions(line_s, y as int, 0) + spec_checkbox_regions(
                line_s,
                y as int,
                0,
            ) + spec_radio_regions(line_s, y as int, 0) + spec_menu_regions(line_s, y as int, 0));
        }
        let ghost bsv = bs@;
        let ghost csv = cs@;
        let ghost rsv = rs@;
        let ghost mensv = mens@;
        let ghost out0 = out@;
        out.append(&mut bs);
        out.append(&mut cs);
        out.append(&mut rs);
        out.append(&mut mens);
        proof {
            let bms = spec_button_regions(line_s, y as int, 0);
            let cms = spec_checkbox_regions(line_s, y as int, 0);
            let rms = spec_radio_regions(line_s, y as int, 0);
            let mms = spec_menu_regions(line_s, y as int, 0);
            let row_ms = spec_patterns_row(screen, y as int);
            lemma_regions_match_concat(out0, ms, bsv, bms, c0 as int);
            lemma_regions_match_concat(out0 + bsv, ms + bms, csv, cms, c0 as int);
            lemma_regions_match_concat(out0 + bsv + csv, ms + bms + cms, rsv, rms, c0 as int);
            lemma_regions_match_concat(
                out0 + bsv + csv + rsv,
                ms + bms + cms + rms,
                mensv,
                mms,
                c0 as int,
            );
            assert(out@ =~= out0 + bsv + csv + rsv + mensv);
            assert(row_ms =~= bms + cms + rms + mms);
            ms = ms + row_ms;
            assert(ms =~= (((ms.subrange(0, ms.len() - row_ms.len()) + bms) + cms) + rms) + mms)
                by {
                assert(ms.subrange(0, ms.len() - row_ms.len()) =~= ms.subrange(
                    0,
                    ms.len() - row_ms.len(),
                ));
            }
            assert(spec_regions_match(out@, ms, c0 as int)) by {
                assert(out@ =~= (((out0 + bsv) + csv) + rsv) + mensv);
            }
            assert(spec_patterns(screen, y as int) =~= row_ms + spec_patterns(screen, y + 1));
            assert(spec_patterns(screen, 0) =~= ms + spec_patterns(screen, y + 1));
            assert(line_s.len() == width);
            assert(row_ms.len() <= 2 * width);
            assert(2 * width * y + 2 * width == 2 * width * (y + 1)) by (nonlinear_arith);
            assert(ms.len() <= 2 * width * (y + 1));
        }
        y = y + 1;
    }
    proof {
        assert(spec_patterns(screen, y as int) =~= Seq::<RegionModel>::empty());
        assert(ms =~= spec_patterns(screen, 0));
    }
    out
}

/// A word character for shortcut detection: ASCII alphanumeric or an
/// underscore.
pub open spec fn spec_is_word_char(c: char) -> bool {
    spec_is_ascii_alnum(c) || c == '_'
}

/// Finds the word boundaries around `col` on `row`: the maximal run of
/// word characters through `col`, not counting `col` itself.
pub fn find_word_bounds(screen: &Screen, row: usize, col: usize) -> (r: (usize, usize))
    requires
        screen.wf(),
        col < screen.spec_width(),
    ensures
        r.0 <= col <= r.1 < screen.spec_width(),
        forall|k: int|
            r.0 <= k < col ==> spec_is_word_char(#[trigger] screen.spec_char_at(row as int, k)),
        r.0 == 0 || !spec_is_word_char(screen.spec_char_at(row as int, r.0 - 1)),
        forall|k: int|
            col < k <= r.1 ==> spec_is_word_char(#[trigger] screen.spec_char_at(row as int, k)),
        r.1 + 1 >= screen.spec_width() || !spec_is_word_char(
            screen.spec_char_at(row as int, r.1 + 1),
        ),
{
    let (width, _) = screen.size();
    let mut start = col;
    while start > 0
        invariant
            screen.wf(),
            start <= col,
            forall|k: int|
                start <= k < col ==> spec_is_word_char(
                    #[trigger] screen.spec_char_at(row as int, k),
                ),
        decreases start,
    {
        let c = screen.char_at(row, start - 1);
        if !(is_ascii_alnum_char(c) || c == '_') {
            break ;
        }
        start = start - 1;
    }
    let mut end = col;
    while end + 1 < width
        invariant
            screen.wf(),
            width == screen.spec_width(),
            col <= end < width,
            forall|k: int|
                col < k <= end ==> spec_is_word_char(
                    #[trigger] screen.spec_char_at(row as int, k),
                ),
        decreases width - end,
    {
        let c = screen.char_at(row, end + 1);
        if !(is_ascii_alnum_char(c) || c == '_') {
            break ;
        }
        end = end + 1;
    }
    (start, end)
}

/// Whether two rectangles overlap significantly: their intersection
/// covers more than half of the smaller one.
pub open spec fn spec_overlap_significant(a: Rect, b: Rect) -> bool {
    let x1 = if a.x >= b.x {
        a.x as int
    } else {
        b.x as int
    };
    let y1 = if a.y >= b.y {
        a.y as int
    } else {
        b.y as int
    };
    let ax2 = a.x + a.width;
    let bx2 = b.x + b.width;
    let x2 = if ax2 <= bx2 {
        ax2
    } else {
        bx2
    };
    let ay2 = a.y + a.height;
    let by2 = b.y + b.height;
    let y2 = if ay2 <= by2 {
        ay2
    } else {
        by2
    };
    if x2 <= x1 || y2 <= y1 {
        false
    } else {
        let inter = (x2 - x1) * (y2 - y1);
        let area_a = a.width * a.height;
        let area_b = b.width * b.height;
        let smaller = if area_a <= area_b {
            area_a
        } else {
            area_b
        };
        smaller != 0 && inter * 2 > smaller
    }
}

/// Whether two rectangles overlap on more than half the smaller area.
pub fn regions_overlap_significantly(a: &Rect, b: &Rect) -> (r: bool)
    ensures
        r == spec_overlap_significant(*a, *b),
{
    let x1: u32 = if a.x >= b.x {
        a.x as u32
    } else {
        b.x as u32
    };
    let y1: u32 = if a.y >= b.y {
        a.y as u32
    } else {
        b.y as u32
    };
    let ax2: u32 = a.x as u32 + a.width as u32;
    let bx2: u32 = b.x as u32 + b.width as u32;
    let x2: u32 = if ax2 <= bx2 {
        ax2
    } else {
        bx2
    };
    let ay2: u32 = a.y as u32 + a.height as u32;
    let by2: u32 = b.y as u32 + b.height as u32;
    let y2: u32 = if ay2 <= by2 {
        ay2
    } else {
        by2
    };
    if x2 <= x1 || y2 <= y1 {
        return false;
    }
    proof {
        assert((x2 - x1) as int * (y2 - y1) as int <= 0x10000 * 0x10000) by (nonlinear_arith)
            requires
                0 < (x2 - x1) as int <= 0x10000,
                0 < (y2 - y1) as int <= 0x10000,
        ;
        assert(a.width as int * a.height as int <= 0xffff * 0xffff) by (nonlinear_arith)
            requires
                0 <= a.width as int <= 0xffff,
                0 <= a.height as int <= 0xffff,
        ;
        assert(b.width as int * b.height as int <= 0xffff * 0xffff) by (nonlinear_arith)
            requires
                0 <= b.width as int <= 0xffff,
                0 <= b.height as int <= 0xffff,
        ;
    }
    let inter: u64 = (x2 - x1) as u64 * (y2 - y1) as u64;
    let area_a: u64 = a.width as u64 * a.height as u64;
    let area_b: u64 = b.width as u64 * b.height as u64;
    let smaller: u64 = if area_a <= area_b {
        area_a
    } else {
        area_b
    };
    if smaller == 0 {
        return false;
    }
    inter * 2 > smaller
}

/// Whether region `a` is better than `b`: more specifically typed, or as
/// specific but smaller.
pub open spec fn spec_is_better(a: Region, b: Region) -> bool {
    let a_specific = a.region_type != RegionType::Unknown;
    let b_specific = b.region_type != RegionType::Unknown;
    if a_specific && !b_specific {
        true
    } else if !a_specific && b_specific {
        false
    } else {
        a.bounds.width * a.bounds.height < b.bounds.width * b.bounds.height
    }
}

/// Whether region `a` should win over an overlapping `b`.
pub fn is_better_region(a: &Region, b: &Region) -> (r: bool)
    ensures
        r == spec_is_better(*a, *b),
{
    let a_specific = !(a.region_type == RegionType::Unknown);
    let b_specific = !(b.region_type == RegionType::Unknown);
    if a_specific && !b_specific {
        return true;
    }
    if !a_specific && b_specific {
        return false;
    }
    proof {
        assert(a.bounds.width as int * a.bounds.height as int <= 0xffff * 0xffff)
            by (nonlinear_arith)
            requires
                0 <= a.bounds.width as int <= 0xffff,
                0 <= a.bounds.height as int <= 0xffff,
        ;
        assert(b.bounds.width as int * b.bounds.height as int <= 0xffff * 0xffff)
            by (nonlinear_arith)
            requires
                0 <= b.bounds.width as int <= 0xffff,
                0 <= b.bounds.height as int <= 0xffff,
        ;
    }
    let area_a: u64 = a.bounds.width as u64 * a.bounds.height as u64;
    let area_b: u64 = b.bounds.width as u64 * b.bounds.height as u64;
    area_a < area_b
}

/// One region is dominated when a kept region overlaps it and is better.
pub open spec fn spec_dominated(r: Region, kept: Seq<Region>) -> bool {
    exists|i: int|
        0 <= i < kept.len() && spec_overlap_significant(r.bounds, (#[trigger] kept[i]).bounds)
            && spec_is_better(kept[i], r)
}

/// The kept regions that a new region does not dominate.
pub open spec fn spec_not_dominated_by(kept: Seq<Region>, r: Region) -> Seq<Region> {
    kept.filter(
        |e: Region|
            !(spec_overlap_significant(r.bounds, e.bounds) && spec_is_better(r, e)),
    )
}

/// Deduplication: regions considered in order; one dominated by an
/// already kept region is dropped, and a newcomer evicts the kept
/// regions it beats.
pub open spec fn spec_dedup_regions(rs: Seq<Region>, kept: Seq<Region>) -> Seq<Region>
    decreases rs.len(),
{
    if rs.len() == 0 {
        kept
    } else if spec_dominated(rs[0], kept) {
        spec_dedup_regions(rs.drop_first(), kept)
    } else {
        spec_dedup_regions(rs.drop_first(), spec_not_dominated_by(kept, rs[0]).push(rs[0]))
    }
}

/// Removes overlapping duplicate regions, keeping the more specific or
/// more precise one. Lists of one region or none pass through unchanged.
pub fn deduplicate_regions(regions: Vec<Region>) -> (r: Vec<Region>)
    ensures
        regions@.len() <= 1 ==> r@ == regions@,
        regions@.len() > 1 ==> r@ == spec_dedup_regions(regions@, Seq::empty()),
{
    if regions.len() <= 1 {
        return regions;
    }
    let ghost rs = regions@;
    let mut rest = regions;
    let mut result: Vec<Region> = Vec::new();
    proof {
        assert(rs.skip(0) =~= rs);
    }
    while rest.len() > 0
        invariant
            rest@ =~= rs.skip(rs.len() - rest@.len()),
            rest@.len() <= rs.len(),
            spec_dedup_regions(rs, Seq::empty()) == spec_dedup_regions(rest@, result@),
        decreases rest@.len(),
    {
        let region = rest.remove(0);
        proof {
            let k = rs.len() - rest@.len() - 1;
            assert(rs.skip(k)[0] == rs[k]);
            assert(rs.skip(k).drop_first() =~= rs.skip(k + 1));
            assert(rest@ =~= rs.skip(k + 1));
        }
        let nkept = result.len();
        let mut dominated = false;
        for i in 0..nkept
            invariant
                nkept == result@.len(),
                dominated == exists|j: int|
                    0 <= j < i && spec_overlap_significant(
                        region.bounds,
                        (#[trigger] result@[j]).bounds,
                    ) && spec_is_better(result@[j], region),
        {
            if regions_overlap_significantly(&region.bounds, &result[i].bounds)
                && is_better_region(&result[i], &region) {
                dominated = true;
            }
        }
        if dominated {
            proof {
                assert(spec_dominated(region, result@));
            }
            continue ;
        }
        proof {
            assert(!spec_dominated(region, result@));
        }
        let mut filtered: Vec<Region> = Vec::new();
        let ghost res0 = result@;
        let mut old_res = result;
        proof {
            reveal(Seq::filter);
            assert(res0.take(0) =~= Seq::<Region>::empty());
            assert(old_res@ =~= res0.skip(0));
        }
        while old_res.len() > 0
            invariant
                old_res@.len() <= res0.len(),
                old_res@ =~= res0.skip(res0.len() - old_res@.len()),
                filtered@ =~= spec_not_dominated_by(
                    res0.take(res0.len() - old_res@.len()),
                    region,
                ),
            decreases old_res@.len(),
        {
            let ghost p = res0.len() - old_res@.len();
            let e = old_res.remove(0);
            proof {
                reveal(Seq::filter);
                assert(res0.skip(p)[0] == res0[p]);
                assert(res0.skip(p).drop_first() =~= res0.skip(p + 1));
                assert(old_res@ =~= res0.skip(p + 1));
                assert(e == res0[p]);
                assert(res0.take(p + 1).drop_last() =~= res0.take(p));
                assert(res0.take(p + 1).last() == res0[p]);
            }
            let keep = !(regions_overlap_significantly(&region.bounds, &e.bounds)
                && is_better_region(&region, &e));
            if keep {
                filtered.push(e);
            }
        }
        proof {
            assert(res0.take(res0.len() as int) =~= res0);
            assert(filtered@ =~= spec_not_dominated_by(res0, region));
        }
        filtered.push(region);
        result = filtered;
    }
    proof {
        assert(spec_dedup_regions(rest@, result@) == result@);
    }
    result
}

/// Splitting always yields at least one piece.
pub proof fn lemma_split_nonempty_pub(t: Seq<char>)
    ensures
        spec_split(t, '\n').len() > 0,
{
    lemma_split_rec_nonempty(t, '\n', Seq::empty());
}

proof fn lemma_split_rec_nonempty(s: Seq<char>, sep: char, cur: Seq<char>)
    ensures
        crate::chars::spec_split_rec(s, sep, cur).len() > 0,
    decreases s.len(),
{
    if s.len() > 0 {
        if s[0] == sep {
        } else {
            lemma_split_rec_nonempty(s.drop_first(), sep, cur.push(s[0]));
        }
    }
}

} // verus!
