//! Where word-boundary navigation lands: going forward, at the end of the
//! first boundary ahead of the cursor on its line; going back, at the end
//! of the boundary nearest before it.
use crate::text::{lines_of, offset_position, position_offset, sat, width_prefix};
use crate::word::{backward_target, forward_target, or_else, word_boundary_spec, wrap_boundaries, WrapBoundary};
use vstd::prelude::*;

verus! {

/// The column where a boundary ends.
pub open spec fn boundary_end(b: WrapBoundary) -> int {
    sat(b.start_offset + b.width)
}

/// `k` is the last of the leading boundaries that all end before `col`:
/// boundaries `0..=k` end before it, boundary `k + 1` (if any) does not.
pub open spec fn last_before(bs: Seq<WrapBoundary>, col: int, k: int) -> bool {
    &&& 0 <= k < bs.len()
    &&& forall|j: int| 0 <= j <= k ==> #[trigger] boundary_end(bs[j]) < col
    &&& k + 1 < bs.len() ==> boundary_end(bs[k + 1]) >= col
}

proof fn lemma_backward_scan(bs: Seq<WrapBoundary>, col: int, i: int, last: Option<u32>)
    requires
        0 <= i <= bs.len(),
        forall|j: int| 0 <= j < i ==> #[trigger] boundary_end(bs[j]) < col,
        i == 0 ==> last is None,
        i > 0 ==> last == Some(boundary_end(bs[i - 1]) as u32),
    ensures
        match backward_target(bs, col, i, last) {
            Some(t) => exists|k: int| #[trigger] last_before(bs, col, k) && t == boundary_end(bs[k]),
            None => bs.len() == 0 || boundary_end(bs[0]) >= col,
        },
    decreases bs.len() - i,
{
    if i > 0 {
        assert(0 <= boundary_end(bs[i - 1]) <= u32::MAX);
    }
    if i < bs.len() {
        let t = sat(bs[i].start_offset + bs[i].width);
        if t < col {
            assert(boundary_end(bs[i]) == t);
            lemma_backward_scan(bs, col, i + 1, Some(t as u32));
        } else if i > 0 {
            assert(last_before(bs, col, i - 1));
        }
    } else if i > 0 {
        assert(last_before(bs, col, i - 1));
    }
}

/// Going back from a cursor on a line, word navigation stops at the end of
/// the boundary nearest before the cursor: of the line's leading boundaries
/// that end before the cursor's column, the last one; no boundary after it
/// ends before the cursor. Only when no boundary ends before the cursor
/// does it go to the end of the previous line, or to 0 on the first line.
pub proof fn lemma_previous_word_boundary_is_nearest(text: Seq<char>, offset: u32, tab_width: u8)
    requires
        offset_position(text, tab_width, offset as int) is Some,
        (offset_position(text, tab_width, offset as int)->0).0 < lines_of(text).len(),
    ensures
        ({
            let p = offset_position(text, tab_width, offset as int)->0;
            let row = p.0 as int;
            let col = p.1 as int;
            let bs = wrap_boundaries(lines_of(text)[row], tab_width);
            let r = word_boundary_spec(text, offset, tab_width, false);
            ||| exists|k: int|
                #[trigger] last_before(bs, col, k) && r == or_else(
                    position_offset(text, tab_width, row, boundary_end(bs[k])),
                    offset,
                )
            ||| (bs.len() == 0 || boundary_end(bs[0]) >= col) && r == if row > 0 {
                let prev = lines_of(text)[row - 1];
                or_else(position_offset(text, tab_width, row - 1, width_prefix(prev, tab_width, prev.len() as int)), offset)
            } else {
                0
            }
        }),
{
    let p = offset_position(text, tab_width, offset as int)->0;
    let bs = wrap_boundaries(lines_of(text)[p.0 as int], tab_width);
    lemma_backward_scan(bs, p.1 as int, 0, None);
    match backward_target(bs, p.1 as int, 0, None) {
        Some(t) => {
            let k = choose|k: int| #[trigger] last_before(bs, p.1 as int, k) && t == boundary_end(bs[k]);
            assert(last_before(bs, p.1 as int, k));
        },
        None => {},
    }
}

/// Boundary `j` lies ahead of column `col`: it starts after it, or a word
/// starts right at it.
pub open spec fn ahead(bs: Seq<WrapBoundary>, col: int, j: int) -> bool {
    bs[j].start_offset > col || (bs[j].start_offset == col && bs[j].is_word)
}

/// `k` is the first boundary ahead of `col`.
pub open spec fn first_ahead(bs: Seq<WrapBoundary>, col: int, k: int) -> bool {
    &&& 0 <= k < bs.len()
    &&& ahead(bs, col, k)
    &&& forall|j: int| 0 <= j < k ==> !#[trigger] ahead(bs, col, j)
}

proof fn lemma_forward_scan(bs: Seq<WrapBoundary>, col: int, i: int)
    requires
        0 <= i <= bs.len(),
        forall|j: int| 0 <= j < i ==> !#[trigger] ahead(bs, col, j),
    ensures
        match forward_target(bs, col, i) {
            Some(t) => exists|k: int| #[trigger] first_ahead(bs, col, k) && t == boundary_end(bs[k]),
            None => forall|j: int| 0 <= j < bs.len() ==> !#[trigger] ahead(bs, col, j),
        },
    decreases bs.len() - i,
{
    if i < bs.len() {
        if ahead(bs, col, i) {
            assert(first_ahead(bs, col, i));
        } else {
            lemma_forward_scan(bs, col, i + 1);
        }
    }
}

/// Going forward from a cursor on a line, word navigation stops at the end
/// of the first boundary ahead of the cursor: the first that starts after
/// the cursor's column, or a word that starts right at it. Only when no
/// boundary is ahead does it go to the start of the next line, or to the
/// end of the last line.
pub proof fn lemma_next_word_boundary_is_first_ahead(text: Seq<char>, offset: u32, tab_width: u8)
    requires
        offset_position(text, tab_width, offset as int) is Some,
        (offset_position(text, tab_width, offset as int)->0).0 < lines_of(text).len(),
    ensures
        ({
            let p = offset_position(text, tab_width, offset as int)->0;
            let row = p.0 as int;
            let col = p.1 as int;
            let bs = wrap_boundaries(lines_of(text)[row], tab_width);
            let r = word_boundary_spec(text, offset, tab_width, true);
            ||| exists|k: int|
                #[trigger] first_ahead(bs, col, k) && r == or_else(
                    position_offset(text, tab_width, row, boundary_end(bs[k])),
                    offset,
                )
            ||| (forall|j: int| 0 <= j < bs.len() ==> !#[trigger] ahead(bs, col, j)) && r == if row + 1
                < lines_of(text).len() {
                or_else(position_offset(text, tab_width, sat(row + 1), 0), offset)
            } else {
                let line = lines_of(text)[row];
                or_else(position_offset(text, tab_width, row, width_prefix(line, tab_width, line.len() as int)), offset)
            }
        }),
{
    let p = offset_position(text, tab_width, offset as int)->0;
    let bs = wrap_boundaries(lines_of(text)[p.0 as int], tab_width);
    lemma_forward_scan(bs, p.1 as int, 0);
    match forward_target(bs, p.1 as int, 0) {
        Some(t) => {
            let k = choose|k: int| #[trigger] first_ahead(bs, p.1 as int, k) && t == boundary_end(bs[k]);
            assert(first_ahead(bs, p.1 as int, k));
        },
        None => {},
    }
}

} // verus!
