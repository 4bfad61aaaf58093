//! Segmentation: grouping adjacent cells of one row into clusters by
//! identical visual style, then dropping all-whitespace clusters.

use vstd::prelude::*;

use crate::chars::{all_whitespace, chars_of, spec_all_whitespace, string_of};
use crate::grid::{ScreenCell, ScreenGrid};
use crate::style::CellStyle;
use crate::width::{display_width_u16, spec_display_width};

verus! {

/// A cluster of adjacent cells with identical visual style, spanning a
/// contiguous region of a single row.
#[derive(Debug, Clone)]
pub struct Cluster {
    /// Row index (0-based, from the top).
    pub row: u16,
    /// Column index (0-based, from the left).
    pub col: u16,
    /// Width in display columns (East-Asian wide characters count 2).
    pub width: u16,
    /// Text content of the cluster.
    pub text: String,
    /// Visual style shared by all cells in this cluster.
    pub style: CellStyle,
}

/// The mathematical shape of a cluster: where it starts, its characters,
/// and its style.
pub struct ClusterModel {
    pub row: int,
    pub col: int,
    pub text: Seq<char>,
    pub style: CellStyle,
}

/// The model of a concrete cluster.
pub open spec fn cluster_model(c: Cluster) -> ClusterModel {
    ClusterModel { row: c.row as int, col: c.col as int, text: c.text@, style: c.style }
}

/// The width a cluster carries: its display width, saturated to `u16::MAX`.
pub open spec fn spec_cluster_width(text: Seq<char>) -> nat {
    if spec_display_width(text) > 0xffff {
        0xffffnat
    } else {
        spec_display_width(text)
    }
}

impl Cluster {
    /// A cluster at `(row, col)` with the given text and style; its width
    /// is the display width of the text.
    pub fn new(row: u16, col: u16, text: String, style: CellStyle) -> (r: Cluster)
        ensures
            r.row == row,
            r.col == col,
            r.text == text,
            r.style == style,
            r.width == spec_cluster_width(text@),
    {
        let v = chars_of(text.as_str());
        let width = display_width_u16(&v);
        Cluster { row, col, width, text, style }
    }

    /// Whether the cluster holds only whitespace.
    pub fn is_whitespace_only(&self) -> (r: bool)
        ensures
            r == spec_all_whitespace(self.text@),
    {
        let v = chars_of(self.text.as_str());
        all_whitespace(&v)
    }
}

/// The characters of the cells `[i, j)` of a row.
pub open spec fn spec_row_text(cells: Seq<ScreenCell>, i: int, j: int) -> Seq<char> {
    cells.subrange(i, j).map_values(|cell: ScreenCell| cell.ch)
}

/// The length of the maximal run of cells sharing one style from `i`.
pub open spec fn spec_run_len(cells: Seq<ScreenCell>, i: int) -> nat
    recommends
        0 <= i < cells.len(),
    decreases cells.len() - i,
{
    if i + 1 < cells.len() && cells[i + 1].style == cells[i].style {
        1 + spec_run_len(cells, i + 1)
    } else {
        1
    }
}

/// The clusters of one row from column `i` on: each is a maximal run of
/// cells with one style, carrying its text.
pub open spec fn spec_row_clusters(cells: Seq<ScreenCell>, row: int, i: int) -> Seq<ClusterModel>
    decreases cells.len() - i,
    via spec_row_clusters_decreases
{
    if i < 0 || i >= cells.len() {
        Seq::empty()
    } else {
        let l = spec_run_len(cells, i) as int;
        seq![
            ClusterModel {
                row,
                col: i,
                text: spec_row_text(cells, i, i + l),
                style: cells[i].style,
            },
        ] + spec_row_clusters(cells, row, i + l)
    }
}

#[via_fn]
proof fn spec_row_clusters_decreases(cells: Seq<ScreenCell>, row: int, i: int) {
    if 0 <= i < cells.len() {
        lemma_run_len_bounds(cells, i);
    }
}

/// A run is non-empty and stays within the row.
pub proof fn lemma_run_len_bounds(cells: Seq<ScreenCell>, i: int)
    requires
        0 <= i < cells.len(),
    ensures
        1 <= spec_run_len(cells, i),
        i + spec_run_len(cells, i) <= cells.len(),
    decreases cells.len() - i,
{
    if i + 1 < cells.len() && cells[i + 1].style == cells[i].style {
        lemma_run_len_bounds(cells, i + 1);
    }
}

/// The clusters of a whole grid, row by row from `r` down.
pub open spec fn spec_grid_clusters(g: Seq<Seq<ScreenCell>>, r: int) -> Seq<ClusterModel>
    decreases g.len() - r,
{
    if r < 0 || r >= g.len() {
        Seq::empty()
    } else {
        spec_row_clusters(g[r], r, 0) + spec_grid_clusters(g, r + 1)
    }
}

/// The clusters that hold anything besides whitespace.
pub open spec fn spec_nonws_clusters(cs: Seq<ClusterModel>) -> Seq<ClusterModel> {
    cs.filter(|c: ClusterModel| !spec_all_whitespace(c.text))
}

/// Every cluster's width is the display width of its text.
pub open spec fn spec_cluster_widths_ok(cs: Seq<Cluster>) -> bool {
    forall|i: int|
        0 <= i < cs.len() ==> (#[trigger] cs[i]).width == spec_cluster_width(cs[i].text@)
}

/// A run bounded by a style change (or the row's end) on both sides has
/// exactly that length.
proof fn lemma_run_len_exact(cells: Seq<ScreenCell>, i: int, j: int)
    requires
        0 <= i < j <= cells.len(),
        forall|k: int| i <= k < j ==> (#[trigger] cells[k]).style == cells[i].style,
        j == cells.len() || cells[j].style != cells[i].style,
    ensures
        spec_run_len(cells, i) == j - i,
    decreases j - i,
{
    if i + 1 == j {
        if j < cells.len() {
            assert(cells[j].style != cells[i].style);
        }
    } else {
        assert(cells[i + 1].style == cells[i].style);
        lemma_run_len_exact(cells, i + 1, j);
    }
}

/// Segments one row of the grid into its style clusters, left to right.
/// A row index past the bottom of the grid yields no clusters.
pub fn segment_row(grid: &ScreenGrid, row: u16) -> (r: Vec<Cluster>)
    requires
        grid.wf(),
    ensures
        (row as int) < grid@.len() ==> r@.map_values(|c: Cluster| cluster_model(c))
            == spec_row_clusters(grid@[row as int], row as int, 0),
        (row as int) >= grid@.len() ==> r@.len() == 0,
        spec_cluster_widths_ok(r@),
{
    let mut clusters: Vec<Cluster> = Vec::new();
    let rows = grid.rows();
    let cols = grid.cols();
    if row >= rows {
        return clusters;
    }
    let ghost cells = grid@[row as int];
    proof {
        grid.lemma_view_shape();
        assert(cells.len() == cols);
    }
    let mut i: u16 = 0;
    while i < cols
        invariant
            grid.wf(),
            row < grid@.len(),
            cells == grid@[row as int],
            cells.len() == cols,
            i <= cols,
            clusters@.map_values(|c: Cluster| cluster_model(c)) + spec_row_clusters(
                cells,
                row as int,
                i as int,
            ) =~= spec_row_clusters(cells, row as int, 0),
            spec_cluster_widths_ok(clusters@),
        decreases cols - i,
    {
        let first = match grid.cell(row, i) {
            Some(c) => c,
            None => {
                return clusters;
            },
        };
        let style = first.style;
        let mut text: Vec<char> = Vec::new();
        text.push(first.ch);
        let mut j: u16 = i + 1;
        proof {
            assert(text@ =~= spec_row_text(cells, i as int, j as int));
        }
        #[verifier::loop_isolation(true)]
        while j < cols
            invariant
                grid.wf(),
                row < grid@.len(),
                cells == grid@[row as int],
                cells.len() == cols,
                i < j <= cols,
                style == cells[i as int].style,
                text@ =~= spec_row_text(cells, i as int, j as int),
                forall|k: int| i <= k < j ==> (#[trigger] cells[k]).style == cells[i as int].style,
            ensures
                i < j <= cols,
                text@ =~= spec_row_text(cells, i as int, j as int),
                forall|k: int| i <= k < j ==> (#[trigger] cells[k]).style == cells[i as int].style,
                j == cols || cells[j as int].style != cells[i as int].style,
            decreases cols - j,
        {
            let cell = match grid.cell(row, j) {
                Some(c) => c,
                None => {
                    proof {
                        grid.lemma_view_shape();
                        assert(false);
                    }
                    break ;
                },
            };
            if !(cell.style == style) {
                break ;
            }
            text.push(cell.ch);
            proof {
                assert(text@ =~= spec_row_text(cells, i as int, j + 1));
            }
            j = j + 1;
        }
        proof {
            lemma_run_len_exact(cells, i as int, j as int);
        }
        let cl = Cluster::new(row, i, string_of(&text), style);
        clusters.push(cl);
        proof {
            assert(clusters@.map_values(|c: Cluster| cluster_model(c)) =~= clusters@.drop_last(
            ).map_values(|c: Cluster| cluster_model(c)).push(cluster_model(clusters@.last())));
            assert(cluster_model(cl) == (ClusterModel {
                row: row as int,
                col: i as int,
                text: spec_row_text(cells, i as int, j as int),
                style: cells[i as int].style,
            }));
            assert(spec_row_clusters(cells, row as int, i as int) =~= seq![cluster_model(cl)]
                + spec_row_clusters(cells, row as int, j as int));
        }
        i = j;
    }
    proof {
        assert(spec_row_clusters(cells, row as int, cols as int) =~= Seq::<ClusterModel>::empty());
        assert(clusters@.map_values(|c: Cluster| cluster_model(c)) =~= spec_row_clusters(
            cells,
            row as int,
            0,
        ));
    }
    clusters
}

/// Segments every row of the grid, top to bottom.
pub fn segment_grid(grid: &ScreenGrid) -> (r: Vec<Cluster>)
    requires
        grid.wf(),
    ensures
        r@.map_values(|c: Cluster| cluster_model(c)) == spec_grid_clusters(grid@, 0),
        spec_cluster_widths_ok(r@),
{
    let mut clusters: Vec<Cluster> = Vec::new();
    let rows = grid.rows();
    let mut row: u16 = 0;
    while row < rows
        invariant
            grid.wf(),
            rows == grid@.len(),
            row <= rows,
            clusters@.map_values(|c: Cluster| cluster_model(c)) + spec_grid_clusters(
                grid@,
                row as int,
            ) =~= spec_grid_clusters(grid@, 0),
            spec_cluster_widths_ok(clusters@),
        decreases rows - row,
    {
        let mut rc = segment_row(grid, row);
        let ghost prev = clusters@;
        let ghost rcv = rc@;
        clusters.append(&mut rc);
        proof {
            assert(clusters@.map_values(|c: Cluster| cluster_model(c)) =~= prev.map_values(
                |c: Cluster| cluster_model(c),
            ) + rcv.map_values(|c: Cluster| cluster_model(c)));
        }
        row = row + 1;
    }
    proof {
        assert(spec_grid_clusters(grid@, rows as int) =~= Seq::<ClusterModel>::empty());
        assert(clusters@.map_values(|c: Cluster| cluster_model(c)) =~= spec_grid_clusters(
            grid@,
            0,
        ));
    }
    clusters
}

/// Keeps only the clusters that hold anything besides whitespace.
pub fn filter_whitespace(clusters: Vec<Cluster>) -> (r: Vec<Cluster>)
    ensures
        r@.map_values(|c: Cluster| cluster_model(c)) == spec_nonws_clusters(
            clusters@.map_values(|c: Cluster| cluster_model(c)),
        ),
        spec_cluster_widths_ok(clusters@) ==> spec_cluster_widths_ok(r@),
{
    let ghost models = clusters@.map_values(|c: Cluster| cluster_model(c));
    let n = clusters.len();
    let mut rest = clusters;
    let mut out: Vec<Cluster> = Vec::new();
    proof {
        reveal(Seq::filter);
        assert(models.take(0) =~= Seq::<ClusterModel>::empty());
        assert(models.skip(0) =~= models);
    }
    while rest.len() > 0
        invariant
            n == models.len(),
            rest@.len() <= n,
            rest@.map_values(|c: Cluster| cluster_model(c)) =~= models.skip(n - rest@.len()),
            out@.map_values(|c: Cluster| cluster_model(c)) =~= spec_nonws_clusters(
                models.take(n - rest@.len()),
            ),
            spec_cluster_widths_ok(clusters@) ==> spec_cluster_widths_ok(out@),
            spec_cluster_widths_ok(clusters@) ==> spec_cluster_widths_ok(rest@),
        decreases rest@.len(),
    {
        let ghost idx = n - rest@.len();
        let ghost old_rest = rest@;
        let c = rest.remove(0);
        proof {
            reveal(Seq::filter);
            assert(old_rest.map_values(|cl: Cluster| cluster_model(cl))[0] == cluster_model(c));
            assert(cluster_model(c) == models.skip(idx)[0]);
            assert(models.skip(idx)[0] == models[idx]);
            assert(rest@ =~= old_rest.drop_first());
            assert forall|k: int| 0 <= k < rest@.len() implies rest@.map_values(
                |cl: Cluster| cluster_model(cl),
            )[k] == #[trigger] models.skip(idx + 1)[k] by {
                assert(rest@[k] == old_rest[k + 1]);
                assert(old_rest.map_values(|cl: Cluster| cluster_model(cl))[k + 1]
                    == cluster_model(old_rest[k + 1]));
                assert(models.skip(idx)[k + 1] == models[idx + 1 + k]);
            }
            assert(rest@.map_values(|cl: Cluster| cluster_model(cl)) =~= models.skip(idx + 1));
            assert(models.take(idx + 1).drop_last() =~= models.take(idx));
            assert(models.take(idx + 1).last() == models[idx]);
        }
        if !c.is_whitespace_only() {
            out.push(c);
            proof {
                assert(out@.map_values(|cl: Cluster| cluster_model(cl)) =~= out@.drop_last(
                ).map_values(|cl: Cluster| cluster_model(cl)).push(cluster_model(out@.last())));
            }
        }
    }
    proof {
        assert(models.take(n as int) =~= models);
    }
    out
}

/// Segments a grid and drops all-whitespace clusters: the clusters of
/// every row, in reading order, each a maximal same-style run with text
/// that is not only whitespace.
pub fn segment(grid: &ScreenGrid) -> (r: Vec<Cluster>)
    requires
        grid.wf(),
    ensures
        r@.map_values(|c: Cluster| cluster_model(c)) == spec_nonws_clusters(
            spec_grid_clusters(grid@, 0),
        ),
        spec_cluster_widths_ok(r@),
{
    filter_whitespace(segment_grid(grid))
}

} // verus!
