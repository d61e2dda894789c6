//! Where drawing a string puts its grapheme clusters in a cell buffer:
//! left to right from a start cell, wrapping at the buffer's right edge,
//! a newline going back to the start column on the next row.
use crate::word::{grapheme_clusters, graphemes_of};
use vstd::prelude::*;

verus! {

/// The columns a string takes, as `UnicodeWidthStr::width` counts them.
pub uninterp spec fn unicode_str_width(s: Seq<char>) -> usize;

/// Calls `UnicodeWidthStr::width` on the chars as a string.
#[verifier::external_body]
fn str_columns(s: &[char]) -> (w: usize)
    ensures
        w == unicode_str_width(s@),
{
    let text: String = s.iter().collect();
    unicode_width::UnicodeWidthStr::width(text.as_str())
}

/// One cluster placed: its cell, the cluster's index among the text's
/// clusters, and the columns it takes.
#[derive(Clone, Copy, Debug, PartialEq, Eq, Structural)]
pub struct TextCell {
    pub col: usize,
    pub row: usize,
    pub cluster: usize,
    pub width: usize,
}

/// The columns a cluster takes: its width, at least 1.
pub open spec fn cluster_width(g: Seq<char>) -> usize {
    if unicode_str_width(g) < 1 { 1 } else { unicode_str_width(g) }
}

/// Placing the first `n` clusters, from column `x` of row `y`, in a buffer
/// `width` columns wide and `height` rows high: the row and column next
/// written, whether drawing has stopped (it ran past the last row), and
/// the cells written.
pub open spec fn place_clusters(gs: Seq<Seq<char>>, width: int, height: int, x: int, y: int, n: int) -> (
    int,
    int,
    bool,
    Seq<TextCell>,
)
    decreases n,
{
    if n <= 0 {
        (y, x, false, Seq::empty())
    } else {
        let (row, col, stopped, cells) = place_clusters(gs, width, height, x, y, n - 1);
        let g = gs[n - 1];
        if stopped {
            (row, col, true, cells)
        } else if g == seq!['\n'] {
            if row + 1 >= height {
                (row, col, true, cells)
            } else {
                (row + 1, x, false, cells)
            }
        } else if row >= height {
            (row, col, true, cells)
        } else {
            let w = cluster_width(g);
            let cells2 = cells.push(TextCell { col: col as usize, row: row as usize, cluster: (n - 1) as usize, width: w });
            if col + w >= width {
                (row + 1, 0, false, cells2)
            } else {
                (row, col + w, false, cells2)
            }
        }
    }
}

/// The cells a string is drawn into: none when the start cell is outside
/// the buffer or the string is empty.
pub open spec fn text_cells(width: int, height: int, x: int, y: int, text: Seq<char>) -> Seq<TextCell> {
    if x >= width || y >= height || text.len() == 0 {
        Seq::empty()
    } else {
        let gs = grapheme_clusters(text);
        place_clusters(gs, width, height, x, y, gs.len() as int).3
    }
}

proof fn lemma_place_bounds(gs: Seq<Seq<char>>, width: int, height: int, x: int, y: int, n: int)
    requires
        0 <= x < width,
        0 <= y < height,
        0 <= n <= gs.len(),
    ensures
        ({
            let (row, col, stopped, cells) = place_clusters(gs, width, height, x, y, n);
            &&& y <= row && row <= height
            &&& 0 <= col < width
            &&& cells.len() <= n
            &&& forall|k: int| 0 <= k < cells.len() ==> #[trigger] cells[k].cluster < n && cells[k].col < width
                && cells[k].row < height
        }),
    decreases n,
{
    if n > 0 {
        lemma_place_bounds(gs, width, height, x, y, n - 1);
    }
}

/// Every cell a string is drawn into lies in the buffer and names one of
/// the string's clusters.
pub proof fn lemma_text_cells_in_buffer(width: usize, height: usize, x: usize, y: usize, text: Seq<char>)
    ensures
        forall|k: int|
            0 <= k < text_cells(width as int, height as int, x as int, y as int, text).len() ==> {
                let c = #[trigger] text_cells(width as int, height as int, x as int, y as int, text)[k];
                &&& c.col < width && c.row < height
                &&& c.cluster < grapheme_clusters(text).len()
            },
{
    if !(x >= width || y >= height || text.len() == 0) {
        let gs = grapheme_clusters(text);
        lemma_place_bounds(gs, width as int, height as int, x as int, y as int, gs.len() as int);
        let cells = place_clusters(gs, width as int, height as int, x as int, y as int, gs.len() as int).3;
        assert(text_cells(width as int, height as int, x as int, y as int, text) == cells);
        assert forall|k: int| 0 <= k < cells.len() implies cells[k].col < width && cells[k].row < height && cells[k].cluster
            < gs.len() by {
            assert(cells[k].cluster < gs.len());
        }
    }
}

/// Places a string's grapheme clusters in a buffer of `width` by `height`
/// cells from cell `(x, y)`: the clusters, and one cell per cluster drawn
/// (their count is what drawing the text reports as written).
pub fn plan_text(width: usize, height: usize, x: usize, y: usize, text: &[char]) -> (r: (Vec<Vec<char>>, Vec<TextCell>))
    ensures
        r.0@.map_values(|g: Vec<char>| g@) == grapheme_clusters(text@),
        r.1@ == text_cells(width as int, height as int, x as int, y as int, text@),
{
    let gs = graphemes_of(text);
    let ghost gv = gs@.map_values(|g: Vec<char>| g@);
    let mut cells: Vec<TextCell> = Vec::new();
    if x >= width || y >= height || text.len() == 0 {
        return (gs, cells);
    }
    let mut row: usize = y;
    let mut col: usize = x;
    let mut stopped: bool = false;
    let mut i: usize = 0;
    while i < gs.len()
        invariant
            0 <= x < width,
            0 <= y < height,
            i <= gs@.len(),
            gv == gs@.map_values(|g: Vec<char>| g@),
            gv == grapheme_clusters(text@),
            (row as int, col as int, stopped, cells@) == place_clusters(gv, width as int, height as int, x as int, y as int, i as int),
        decreases gs@.len() - i,
    {
        proof {
            lemma_place_bounds(gv, width as int, height as int, x as int, y as int, i as int);
        }
        let g = &gs[i];
        assert(g@ == gv[i as int]);
        if !stopped {
            let is_newline: bool = g.len() == 1 && g[0] == '\n';
            assert(is_newline <==> g@ == seq!['\n']) by {
                if g@ == seq!['\n'] {
                    assert(g@.len() == 1 && g@[0] == '\n');
                }
                if is_newline {
                    assert(g@ =~= seq!['\n']);
                }
            }
            if is_newline {
                if row >= height - 1 {
                    stopped = true;
                } else {
                    row = row + 1;
                    col = x;
                }
            } else if row >= height {
                stopped = true;
            } else {
                let measured: usize = str_columns(g.as_slice());
                let w: usize = if measured < 1 { 1 } else { measured };
                cells.push(TextCell { col, row, cluster: i, width: w });
                if w >= width - col {
                    row = row + 1;
                    col = 0;
                } else {
                    col = col + w;
                }
            }
        }
        i = i + 1;
    }
    (gs, cells)
}

} // verus!
