//! The screen grid that element detection reads: a rectangle of cells,
//! each a character with its visual style. Its view is the sequence of
//! rows, each row a sequence of cells of the grid's width.

use vstd::prelude::*;

use crate::chars::chars_of;
use crate::style::CellStyle;

verus! {

/// A single terminal cell: its character and visual style.
#[derive(Debug, Clone, Copy, PartialEq, Eq, Structural)]
pub struct ScreenCell {
    /// The character in this cell (space for empty cells).
    pub ch: char,
    /// Visual style attributes.
    pub style: CellStyle,
}

impl ScreenCell {
    /// A cell with the given character and style.
    pub fn new(ch: char, style: CellStyle) -> (r: Self)
        ensures
            r == (ScreenCell { ch, style }),
    {
        ScreenCell { ch, style }
    }
}

/// The blank cell: a space with the default style.
pub open spec fn spec_blank_cell() -> ScreenCell {
    ScreenCell { ch: ' ', style: crate::style::spec_default_style() }
}

/// Terminal screen content for element detection, with 0-based coordinates
/// counted from the top-left.
#[derive(Debug, Clone)]
pub struct ScreenGrid {
    rows: u16,
    cols: u16,
    cells: Vec<ScreenCell>,
}

impl View for ScreenGrid {
    type V = Seq<Seq<ScreenCell>>;

    closed spec fn view(&self) -> Seq<Seq<ScreenCell>> {
        Seq::new(
            self.rows as nat,
            |r: int| Seq::new(self.cols as nat, |c: int| self.cells@[r * (self.cols as int) + c]),
        )
    }
}

impl ScreenGrid {
    /// The width every row of the view has.
    pub closed spec fn spec_cols(&self) -> nat {
        self.cols as nat
    }

    /// Every row of the view has length `spec_cols`, and there are at most
    /// `u16::MAX` rows of at most `u16::MAX` columns.
    pub proof fn lemma_view_shape(&self)
        ensures
            self@.len() <= 0xffff,
            self.spec_cols() <= 0xffff,
            forall|r: int| 0 <= r < self@.len() ==> (#[trigger] self@[r]).len() == self.spec_cols(),
    {
    }

    /// A grid of blank cells.
    pub fn new(rows: u16, cols: u16) -> (g: ScreenGrid)
        ensures
            g.wf(),
            g@.len() == rows,
            g.spec_cols() == cols,
            forall|r: int, c: int|
                0 <= r < rows && 0 <= c < cols ==> #[trigger] g@[r][c] == spec_blank_cell(),
    {
        proof {
            assert((rows as int) * (cols as int) <= 0xffff * 0xffff) by (nonlinear_arith)
                requires
                    rows as int <= 0xffff,
                    cols as int <= 0xffff,
                    0 <= rows as int,
                    0 <= cols as int,
            ;
        }
        let count: usize = (rows as usize) * (cols as usize);
        let mut cells: Vec<ScreenCell> = Vec::new();
        let blank = ScreenCell { ch: ' ', style: CellStyle::new() };
        for i in 0..count
            invariant
                cells@.len() == i,
                forall|j: int| 0 <= j < i ==> #[trigger] cells@[j] == spec_blank_cell(),
        {
            cells.push(blank);
        }
        let g = ScreenGrid { rows, cols, cells };
        proof {
            assert forall|r: int, c: int| 0 <= r < rows && 0 <= c < cols implies #[trigger] g@[r][c]
                == spec_blank_cell() by {
                assert(0 <= r * (cols as int) + c < (rows as int) * (cols as int))
                    by (nonlinear_arith)
                    requires
                        0 <= r < rows as int,
                        0 <= c < cols as int,
                ;
            }
        }
        g
    }

    /// Number of rows.
    pub fn rows(&self) -> (r: u16)
        ensures
            r == self@.len(),
    {
        self.rows
    }

    /// Number of columns.
    pub fn cols(&self) -> (r: u16)
        ensures
            r == self.spec_cols(),
    {
        self.cols
    }

    /// Whether the stored cells cover the whole rectangle.
    pub closed spec fn wf(&self) -> bool {
        self.cells@.len() == (self.rows as int) * (self.cols as int)
    }

    /// The cell at `(row, col)`, or `None` out of bounds.
    pub fn cell(&self, row: u16, col: u16) -> (r: Option<ScreenCell>)
        requires
            self.wf(),
        ensures
            row < self@.len() && col < self.spec_cols() ==> r == Some(self@[row as int][col as int]),
            !(row < self@.len() && col < self.spec_cols()) ==> r is None,
    {
        if row < self.rows && col < self.cols {
            proof {
                let ri = row as int;
                let ci = col as int;
                let w = self.cols as int;
                assert(0 <= ri * w + ci < (self.rows as int) * w && ri * w + ci < 0x100000000)
                    by (nonlinear_arith)
                    requires
                        0 <= ri < self.rows as int,
                        0 <= ci < w,
                        self.rows as int <= 0xffff,
                        w <= 0xffff,
                ;
            }
            let idx: usize = (row as usize) * (self.cols as usize) + (col as usize);
            Some(self.cells[idx])
        } else {
            None
        }
    }

    /// Writes `cell` at `(row, col)`; out-of-bounds writes are ignored.
    pub fn set_cell(&mut self, row: u16, col: u16, cell: ScreenCell)
        requires
            old(self).wf(),
        ensures
            final(self).wf(),
            final(self)@.len() == old(self)@.len(),
            final(self).spec_cols() == old(self).spec_cols(),
            forall|r2: int, c2: int|
                0 <= r2 < old(self)@.len() && 0 <= c2 < old(self).spec_cols() && !(r2 == row && c2
                    == col) ==> #[trigger] final(self)@[r2][c2] == old(self)@[r2][c2],
            row < old(self)@.len() && col < old(self).spec_cols() ==> final(self)@[row as int][col as int]
                == cell,
    {
        if row < self.rows && col < self.cols {
            proof {
                let ri = row as int;
                let ci = col as int;
                let w = self.cols as int;
                assert(0 <= ri * w + ci < (self.rows as int) * w && ri * w + ci < 0x100000000)
                    by (nonlinear_arith)
                    requires
                        0 <= ri < self.rows as int,
                        0 <= ci < w,
                        self.rows as int <= 0xffff,
                        w <= 0xffff,
                ;
            }
            let idx: usize = (row as usize) * (self.cols as usize) + (col as usize);
            self.cells[idx] = cell;
            proof {
                let ri = row as int;
                let ci = col as int;
                let w = self.cols as int;
                assert(self.cells@ == old(self).cells@.update(ri * w + ci, cell));
                assert forall|r2: int, c2: int|
                    0 <= r2 < self.rows as int && 0 <= c2 < w && !(r2 == ri && c2 == ci) implies #[trigger] self@[r2][c2]
                    == old(self)@[r2][c2] by {
                    assert(0 <= r2 * w + c2 < (self.rows as int) * w) by (nonlinear_arith)
                        requires
                            0 <= r2 < self.rows as int,
                            0 <= c2 < w,
                    ;
                    if r2 != ri {
                        assert(r2 * w + c2 != ri * w + ci) by (nonlinear_arith)
                            requires
                                0 <= r2 < 0x10000,
                                0 <= ri < 0x10000,
                                0 <= c2 < w,
                                0 <= ci < w,
                                r2 != ri,
                        ;
                    }
                    assert(self@[r2][c2] == self.cells@[r2 * w + c2]);
                    assert(old(self)@[r2][c2] == old(self).cells@[r2 * w + c2]);
                }
                assert(self@[ri][ci] == self.cells@[ri * w + ci]);
            }
        }
    }

    /// Applies `style` to the cells `[start_col, end_col)` of `row`,
    /// keeping their characters; cells outside the grid are ignored.
    pub fn style_range(&mut self, row: u16, start_col: u16, end_col: u16, style: CellStyle)
        requires
            old(self).wf(),
        ensures
            final(self).wf(),
            final(self)@.len() == old(self)@.len(),
            final(self).spec_cols() == old(self).spec_cols(),
            forall|r: int, c: int|
                0 <= r < old(self)@.len() && 0 <= c < old(self).spec_cols() && !(r == row
                    && start_col <= c < end_col) ==> #[trigger] final(self)@[r][c] == old(
                    self,
                )@[r][c],
            forall|c: int|
                0 <= c < old(self).spec_cols() && (row as int) < old(self)@.len() && start_col <= c
                    < end_col ==> #[trigger] final(self)@[row as int][c] == (ScreenCell {
                    ch: old(self)@[row as int][c].ch,
                    style,
                }),
    {
        let mut col = start_col;
        while col < end_col
            invariant
                self.wf(),
                self@.len() == old(self)@.len(),
                self.spec_cols() == old(self).spec_cols(),
                start_col <= col,
                forall|r: int, c: int|
                    0 <= r < self@.len() && 0 <= c < self.spec_cols() && !(r == row && start_col
                        <= c < col) ==> #[trigger] self@[r][c] == old(self)@[r][c],
                forall|c: int|
                    0 <= c < self.spec_cols() && (row as int) < self@.len() && start_col <= c < col
                        ==> #[trigger] self@[row as int][c] == (ScreenCell {
                        ch: old(self)@[row as int][c].ch,
                        style,
                    }),
                col <= end_col || col == start_col,
            decreases end_col - col,
        {
            match self.cell(row, col) {
                Some(existing) => {
                    self.set_cell(row, col, ScreenCell { ch: existing.ch, style });
                },
                None => {
                    return ;
                },
            }
            col = col + 1;
        }
    }

    /// A grid whose rows hold the characters of `lines`, left-aligned and
    /// padded with blanks, in the default style; characters past `cols`
    /// are dropped.
    pub fn from_text(lines: &[&str], cols: u16) -> (g: ScreenGrid)
        requires
            lines@.len() <= 0xffff,
        ensures
            g@.len() == lines@.len(),
            g.spec_cols() == cols,
            forall|r: int, c: int|
                0 <= r < g@.len() && 0 <= c < cols ==> #[trigger] g@[r][c] == (ScreenCell {
                    ch: if c < lines@[r]@.len() {
                        lines@[r]@[c]
                    } else {
                        ' '
                    },
                    style: crate::style::spec_default_style(),
                }),
    {
        let rows: u16 = lines.len() as u16;
        let mut g = ScreenGrid::new(rows, cols);
        proof {
            g.lemma_view_shape();
        }
        let nl = lines.len();
        for r in 0..nl
            invariant
                nl == lines@.len(),
                nl <= 0xffff,
                g@.len() == nl,
                g.spec_cols() == cols,
                g.wf(),
                forall|r2: int, c: int|
                    0 <= r2 < r && 0 <= c < cols ==> #[trigger] g@[r2][c] == (ScreenCell {
                        ch: if c < lines@[r2]@.len() {
                            lines@[r2]@[c]
                        } else {
                            ' '
                        },
                        style: crate::style::spec_default_style(),
                    }),
                forall|r2: int, c: int|
                    r <= r2 < nl && 0 <= c < cols ==> #[trigger] g@[r2][c] == spec_blank_cell(),
        {
            let line = chars_of(lines[r]);
            let nc = line.len();
            for ci in 0..nc
                invariant
                    nl == lines@.len(),
                    nl <= 0xffff,
                    r < nl,
                    nc == lines@[r as int]@.len(),
                    line@ == lines@[r as int]@,
                    g@.len() == nl,
                    g.spec_cols() == cols,
                    g.wf(),
                    forall|r2: int, c: int|
                        0 <= r2 < r && 0 <= c < cols ==> #[trigger] g@[r2][c] == (ScreenCell {
                            ch: if c < lines@[r2]@.len() {
                                lines@[r2]@[c]
                            } else {
                                ' '
                            },
                            style: crate::style::spec_default_style(),
                        }),
                    forall|c: int|
                        0 <= c < cols && ci <= c ==> #[trigger] g@[r as int][c]
                            == spec_blank_cell(),
                    forall|c: int|
                        0 <= c < cols && c < ci && c < nc ==> #[trigger] g@[r as int][c] == (
                        ScreenCell {
                            ch: lines@[r as int]@[c],
                            style: crate::style::spec_default_style(),
                        }),
                    forall|r2: int, c: int|
                        r < r2 < nl && 0 <= c < cols ==> #[trigger] g@[r2][c]
                            == spec_blank_cell(),
            {
                if ci < cols as usize {
                    let style = CellStyle::new();
                    g.set_cell(r as u16, ci as u16, ScreenCell { ch: line[ci], style });
                }
            }
        }
        proof {
            assert forall|r2: int, c: int|
                0 <= r2 < g@.len() && 0 <= c < cols implies #[trigger] g@[r2][c] == (ScreenCell {
                ch: if c < lines@[r2]@.len() {
                    lines@[r2]@[c]
                } else {
                    ' '
                },
                style: crate::style::spec_default_style(),
            }) by {
                if c >= lines@[r2]@.len() {
                    assert(g@[r2][c] == spec_blank_cell());
                }
            }
        }
        g
    }
}


} // verus!
