//! Offsets and (row, column) positions name the same places: converting
//! one to the other and back gives it back, as long as the text's running
//! weight never saturates.
use crate::text::{
    lines_of,
    char_weight_spec, col_prefix, first_at_weight_from, first_position_from, first_row_from, lemma_prefix_bounds,
    line_start, offset_position, position_offset, row_prefix, sat, unicode_char_width, weight_prefix,
};
use crate::edit_buffer::{cursor_spec, line_col_target, line_width_spec, move_down_target, move_up_target, EditView};
use vstd::prelude::*;

verus! {

/// The text's running weight stays below `u32::MAX`, so no running total
/// saturates.
pub open spec fn unsaturated(text: Seq<char>, tab_width: u8) -> bool {
    weight_prefix(text, tab_width, text.len() as int) < u32::MAX
}

pub(crate) proof fn lemma_weight_nonneg(c: char, tab_width: u8)
    ensures
        char_weight_spec(c, tab_width) >= 0,
{
    match unicode_char_width(c) {
        Some(w) => {},
        None => {},
    }
}

pub(crate) proof fn lemma_monotone(text: Seq<char>, tab_width: u8, i: int, j: int)
    requires
        0 <= i <= j,
    ensures
        weight_prefix(text, tab_width, i) <= weight_prefix(text, tab_width, j),
        row_prefix(text, i) <= row_prefix(text, j),
        0 <= weight_prefix(text, tab_width, i),
        0 <= row_prefix(text, i),
        0 <= col_prefix(text, tab_width, i),
    decreases j,
{
    crate::text::lemma_prefix_bounds(text, tab_width, i);
    if i < j {
        lemma_monotone(text, tab_width, i, j - 1);
        lemma_weight_nonneg(text[j - 1], tab_width);
        crate::text::lemma_prefix_bounds(text, tab_width, j - 1);
    }
}

/// Below the saturation point every step of the running totals is exact.
pub(crate) proof fn lemma_exact_step(text: Seq<char>, tab_width: u8, k: int)
    requires
        unsaturated(text, tab_width),
        0 <= k < text.len(),
    ensures
        weight_prefix(text, tab_width, k + 1) == weight_prefix(text, tab_width, k) + char_weight_spec(text[k], tab_width),
        row_prefix(text, k + 1) == row_prefix(text, k) + if text[k] == '\n' { 1int } else { 0int },
        col_prefix(text, tab_width, k + 1) == if text[k] == '\n' {
            0
        } else {
            col_prefix(text, tab_width, k) + char_weight_spec(text[k], tab_width)
        },
{
    lemma_monotone(text, tab_width, k + 1, text.len() as int);
    lemma_row_col_below_weight(text, tab_width, k);
    lemma_weight_nonneg(text[k], tab_width);
}

proof fn lemma_row_col_below_weight(text: Seq<char>, tab_width: u8, k: int)
    requires
        0 <= k,
    ensures
        row_prefix(text, k) <= weight_prefix(text, tab_width, k),
        col_prefix(text, tab_width, k) <= weight_prefix(text, tab_width, k),
    decreases k,
{
    if k > 0 {
        lemma_row_col_below_weight(text, tab_width, k - 1);
        lemma_weight_nonneg(text[k - 1], tab_width);
        lemma_monotone(text, tab_width, k - 1, k);
    }
}

/// Two indices on one row have no newline between them.
proof fn lemma_same_row_no_newline(text: Seq<char>, tab_width: u8, i: int, j: int)
    requires
        unsaturated(text, tab_width),
        0 <= i <= j <= text.len(),
        row_prefix(text, i) == row_prefix(text, j),
    ensures
        forall|k: int| i <= k < j ==> text[k] != '\n',
    decreases j - i,
{
    if i < j {
        lemma_exact_step(text, tab_width, j - 1);
        lemma_monotone(text, tab_width, i, j - 1);
        lemma_same_row_no_newline(text, tab_width, i, j - 1);
    }
}

/// Without a newline between two indices, the column grows by what the
/// running weight grows.
proof fn lemma_row_segment(text: Seq<char>, tab_width: u8, i: int, j: int)
    requires
        unsaturated(text, tab_width),
        0 <= i <= j <= text.len(),
        forall|k: int| i <= k < j ==> text[k] != '\n',
    ensures
        col_prefix(text, tab_width, j) - col_prefix(text, tab_width, i) == weight_prefix(text, tab_width, j)
            - weight_prefix(text, tab_width, i),
        row_prefix(text, j) == row_prefix(text, i),
    decreases j - i,
{
    if i < j {
        lemma_row_segment(text, tab_width, i, j - 1);
        lemma_exact_step(text, tab_width, j - 1);
    }
}

/// Zero total weight between two indices leaves row and column alone.
proof fn lemma_flat_segment(text: Seq<char>, tab_width: u8, i: int, j: int)
    requires
        unsaturated(text, tab_width),
        0 <= i <= j <= text.len(),
        weight_prefix(text, tab_width, i) == weight_prefix(text, tab_width, j),
    ensures
        row_prefix(text, j) == row_prefix(text, i),
        col_prefix(text, tab_width, j) == col_prefix(text, tab_width, i),
    decreases j - i,
{
    if i < j {
        lemma_exact_step(text, tab_width, j - 1);
        lemma_monotone(text, tab_width, i, j - 1);
        lemma_weight_nonneg(text[j - 1], tab_width);
        lemma_flat_segment(text, tab_width, i, j - 1);
    }
}

/// The position at an index fixes the running weight there.
proof fn lemma_position_fixes_weight(text: Seq<char>, tab_width: u8, i: int, j: int)
    requires
        unsaturated(text, tab_width),
        0 <= i <= text.len(),
        0 <= j <= text.len(),
        row_prefix(text, i) == row_prefix(text, j),
        col_prefix(text, tab_width, i) == col_prefix(text, tab_width, j),
    ensures
        weight_prefix(text, tab_width, i) == weight_prefix(text, tab_width, j),
{
    if i <= j {
        lemma_same_row_no_newline(text, tab_width, i, j);
        lemma_row_segment(text, tab_width, i, j);
    } else {
        lemma_same_row_no_newline(text, tab_width, j, i);
        lemma_row_segment(text, tab_width, j, i);
    }
}

/// The running weight at an index fixes the position there.
proof fn lemma_weight_fixes_position(text: Seq<char>, tab_width: u8, i: int, j: int)
    requires
        unsaturated(text, tab_width),
        0 <= i <= text.len(),
        0 <= j <= text.len(),
        weight_prefix(text, tab_width, i) == weight_prefix(text, tab_width, j),
    ensures
        row_prefix(text, i) == row_prefix(text, j),
        col_prefix(text, tab_width, i) == col_prefix(text, tab_width, j),
{
    if i <= j {
        lemma_flat_segment(text, tab_width, i, j);
    } else {
        lemma_flat_segment(text, tab_width, j, i);
    }
}

proof fn lemma_weight_search(text: Seq<char>, tab_width: u8, target: int, a: int)
    requires
        0 <= a,
    ensures
        ({
            let r = first_at_weight_from(text, tab_width, target, a);
            r >= 0 ==> a <= r <= text.len() && weight_prefix(text, tab_width, r) == target
        }),
    decreases text.len() + 1 - a,
{
    if a <= text.len() && weight_prefix(text, tab_width, a) != target {
        lemma_weight_search(text, tab_width, target, a + 1);
    }
}

proof fn lemma_weight_search_finds(text: Seq<char>, tab_width: u8, target: int, a: int, k: int)
    requires
        0 <= a <= k <= text.len(),
        weight_prefix(text, tab_width, k) == target,
    ensures
        first_at_weight_from(text, tab_width, target, a) >= 0,
    decreases k - a,
{
    if weight_prefix(text, tab_width, a) != target {
        lemma_weight_search_finds(text, tab_width, target, a + 1, k);
    }
}

proof fn lemma_position_search(text: Seq<char>, tab_width: u8, row: int, col: int, a: int)
    requires
        0 <= a,
    ensures
        ({
            let r = first_position_from(text, tab_width, row, col, a);
            r >= 0 ==> a <= r <= text.len() && row_prefix(text, r) == row && col_prefix(text, tab_width, r) == col
        }),
    decreases text.len() + 1 - a,
{
    if a <= text.len() && !(row_prefix(text, a) == row && col_prefix(text, tab_width, a) == col) {
        lemma_position_search(text, tab_width, row, col, a + 1);
    }
}

proof fn lemma_position_search_finds(text: Seq<char>, tab_width: u8, row: int, col: int, a: int, k: int)
    requires
        0 <= a <= k <= text.len(),
        row_prefix(text, k) == row && col_prefix(text, tab_width, k) == col,
    ensures
        first_position_from(text, tab_width, row, col, a) >= 0,
    decreases k - a,
{
    if !(row_prefix(text, a) == row && col_prefix(text, tab_width, a) == col) {
        lemma_position_search_finds(text, tab_width, row, col, a + 1, k);
    }
}

/// An offset that names a place converts to a position that converts back
/// to the same offset.
pub proof fn lemma_offset_position_round_trip(text: Seq<char>, tab_width: u8, target: int)
    requires
        unsaturated(text, tab_width),
        offset_position(text, tab_width, target) is Some,
    ensures
        ({
            let p = offset_position(text, tab_width, target)->0;
            position_offset(text, tab_width, p.0 as int, p.1 as int) == Some(target as u32)
        }),
{
    let i = first_at_weight_from(text, tab_width, target, 0);
    lemma_weight_search(text, tab_width, target, 0);
    crate::text::lemma_prefix_bounds(text, tab_width, i);
    let row = row_prefix(text, i);
    let col = col_prefix(text, tab_width, i);
    lemma_monotone(text, tab_width, i, text.len() as int);
    if row == 0 && col == 0 {
        lemma_position_fixes_weight(text, tab_width, i, 0);
    } else {
        lemma_position_search_finds(text, tab_width, row, col, 0, i);
        let k = first_position_from(text, tab_width, row, col, 0);
        lemma_position_search(text, tab_width, row, col, 0);
        lemma_position_fixes_weight(text, tab_width, i, k);
    }
}

/// A position that names a place converts to an offset that converts back
/// to the same position.
pub proof fn lemma_position_offset_round_trip(text: Seq<char>, tab_width: u8, row: u32, col: u32)
    requires
        unsaturated(text, tab_width),
        position_offset(text, tab_width, row as int, col as int) is Some,
    ensures
        ({
            let o = position_offset(text, tab_width, row as int, col as int)->0;
            offset_position(text, tab_width, o as int) == Some((row, col))
        }),
{
    let o = position_offset(text, tab_width, row as int, col as int)->0;
    let k: int = if row == 0 && col == 0 {
        0
    } else {
        lemma_position_search(text, tab_width, row as int, col as int, 0);
        first_position_from(text, tab_width, row as int, col as int, 0)
    };
    crate::text::lemma_prefix_bounds(text, tab_width, k);
    assert(weight_prefix(text, tab_width, k) == o as int);
    lemma_weight_search_finds(text, tab_width, o as int, 0, k);
    lemma_weight_search(text, tab_width, o as int, 0);
    let i = first_at_weight_from(text, tab_width, o as int, 0);
    lemma_weight_fixes_position(text, tab_width, i, k);
}

/// Moving an edit buffer's cursor to a (row, column) that names a place
/// makes the cursor report that row and column.
pub proof fn lemma_cursor_reports_line_col(m: EditView, row: u32, col: u32)
    requires
        unsaturated(m.text, m.tab_width),
        position_offset(m.text, m.tab_width, row as int, col as int) is Some,
    ensures
        ({
            let c = cursor_spec(EditView { cursor: line_col_target(m, row, col), ..m });
            c.row == row && c.col == col
        }),
{
    lemma_position_offset_round_trip(m.text, m.tab_width, row, col);
}

/// From an index just past a place off row `row`, the first place at
/// (`row`, 0) is the first place on row `row`.
proof fn lemma_first_position_is_first_on_row(text: Seq<char>, tab_width: u8, row: int, a: int)
    requires
        row > 0,
        1 <= a,
        row_prefix(text, a - 1) != row,
    ensures
        first_position_from(text, tab_width, row, 0, a) == first_row_from(text, row, a),
    decreases text.len() + 1 - a,
{
    if a <= text.len() {
        lemma_prefix_bounds(text, tab_width, a - 1);
        if row_prefix(text, a) != row {
            lemma_first_position_is_first_on_row(text, tab_width, row, a + 1);
        }
    }
}

/// A line starts where its column 0 is: the offset of the start of row
/// `row` is the offset of position (`row`, 0), and both are absent together.
pub proof fn lemma_line_start_is_column_zero(text: Seq<char>, tab_width: u8, row: int)
    requires
        row >= 0,
    ensures
        line_start(text, tab_width, row) == position_offset(text, tab_width, row, 0),
{
    if row > 0 {
        lemma_first_position_is_first_on_row(text, tab_width, row, 1);
    }
}

/// Moving up from row `r > 0` lands on row `r - 1` at the cursor's column,
/// or at that row's width when it is narrower, provided a char starts
/// there.
pub proof fn lemma_move_up_keeps_column(m: EditView)
    requires
        unsaturated(m.text, m.tab_width),
        cursor_spec(m).row > 0,
        ({
            let c = cursor_spec(m);
            let w = line_width_spec(m.text, m.tab_width, c.row - 1);
            let k = if c.col <= w { c.col as int } else { w };
            position_offset(m.text, m.tab_width, c.row - 1, k) is Some
        }),
    ensures
        ({
            let c = cursor_spec(m);
            let w = line_width_spec(m.text, m.tab_width, c.row - 1);
            let k = if c.col <= w { c.col as int } else { w };
            let after = cursor_spec(EditView { cursor: move_up_target(m), ..m });
            after.row == c.row - 1 && after.col == k
        }),
{
    let c = cursor_spec(m);
    let w = line_width_spec(m.text, m.tab_width, c.row - 1);
    let k = if c.col <= w { c.col as int } else { w };
    if 0 <= c.row - 1 < lines_of(m.text).len() {
        let line = lines_of(m.text)[c.row - 1];
        crate::text::lemma_prefix_bounds(line, m.tab_width, line.len() as int);
    }
    lemma_position_offset_round_trip(m.text, m.tab_width, (c.row - 1) as u32, k as u32);
}

/// Moving down from a row with a row below lands on that row at the
/// cursor's column, or at that row's width when it is narrower, provided a
/// char starts there.
pub proof fn lemma_move_down_keeps_column(m: EditView)
    requires
        unsaturated(m.text, m.tab_width),
        cursor_spec(m).row + 1 < lines_of(m.text).len(),
        cursor_spec(m).row + 1 < u32::MAX,
        ({
            let c = cursor_spec(m);
            let w = line_width_spec(m.text, m.tab_width, c.row + 1);
            let k = if c.col <= w { c.col as int } else { w };
            position_offset(m.text, m.tab_width, c.row + 1, k) is Some
        }),
    ensures
        ({
            let c = cursor_spec(m);
            let w = line_width_spec(m.text, m.tab_width, c.row + 1);
            let k = if c.col <= w { c.col as int } else { w };
            let after = cursor_spec(EditView { cursor: move_down_target(m), ..m });
            after.row == c.row + 1 && after.col == k
        }),
{
    let c = cursor_spec(m);
    let w = line_width_spec(m.text, m.tab_width, c.row + 1);
    let k = if c.col <= w { c.col as int } else { w };
    if 0 <= c.row + 1 < lines_of(m.text).len() {
        let line = lines_of(m.text)[c.row + 1];
        crate::text::lemma_prefix_bounds(line, m.tab_width, line.len() as int);
    }
    lemma_position_offset_round_trip(m.text, m.tab_width, (c.row + 1) as u32, k as u32);
}

} // verus!
