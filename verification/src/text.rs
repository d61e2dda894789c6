//! Column arithmetic on text held as a sequence of chars.
//!
//! Two measures are used. The *weight* of a char counts a newline as one
//! column, a carriage return as none, a tab as the tab width (at least one)
//! and any other char as its Unicode display width. The *display width* is
//! the same except that a newline counts as none. Running totals saturate at
//! `u32::MAX`.
use vstd::prelude::*;

verus! {

/// The display width that `unicode_width` assigns to a char (`None` for a
/// control char).
pub uninterp spec fn unicode_char_width(c: char) -> Option<usize>;

/// Calls `UnicodeWidthChar::width`. Its source answers `None` below U+0020
/// and in U+007F..U+00A0, `Some(1)` in U+0020..U+007F, and never more than 3
/// columns.
#[verifier::external_body]
pub(crate) fn char_width_lookup(c: char) -> (w: Option<usize>)
    ensures
        w == unicode_char_width(c),
        (c as u32) < 0x20 ==> w is None,
        0x20 <= (c as u32) < 0x7f ==> w == Some(1usize),
        0x7f <= (c as u32) < 0xa0 ==> w is None,
        w matches Some(x) ==> x <= 3,
{
    unicode_width::UnicodeWidthChar::width(c)
}

pub open spec fn sat(x: int) -> int {
    if x > u32::MAX { u32::MAX as int } else { x }
}

pub open spec fn tab_cols(tab_width: u8) -> int {
    if tab_width == 0 { 1 } else { tab_width as int }
}

/// The width of a char that is neither a newline, a carriage return nor a tab.
pub open spec fn plain_width(c: char) -> int {
    match unicode_char_width(c) {
        Some(w) => w as int,
        None => 0,
    }
}

pub open spec fn char_weight_spec(c: char, tab_width: u8) -> int {
    if c == '\r' {
        0
    } else if c == '\n' {
        1
    } else if c == '\t' {
        tab_cols(tab_width)
    } else {
        plain_width(c)
    }
}

pub open spec fn char_display_spec(c: char, tab_width: u8) -> int {
    if c == '\n' || c == '\r' {
        0
    } else {
        char_weight_spec(c, tab_width)
    }
}

/// Saturating total weight of the first `i` chars.
pub open spec fn weight_prefix(text: Seq<char>, tab_width: u8, i: int) -> int
    decreases i,
{
    if i <= 0 {
        0
    } else {
        sat(weight_prefix(text, tab_width, i - 1) + char_weight_spec(text[i - 1], tab_width))
    }
}

/// Saturating total display width of the first `i` chars.
pub open spec fn width_prefix(text: Seq<char>, tab_width: u8, i: int) -> int
    decreases i,
{
    if i <= 0 {
        0
    } else {
        sat(width_prefix(text, tab_width, i - 1) + char_display_spec(text[i - 1], tab_width))
    }
}

/// Saturating count of newlines among the first `i` chars: the row at index `i`.
pub open spec fn row_prefix(text: Seq<char>, i: int) -> int
    decreases i,
{
    if i <= 0 {
        0
    } else {
        sat(row_prefix(text, i - 1) + if text[i - 1] == '\n' { 1int } else { 0int })
    }
}

/// The column at index `i`: the saturating weight since the last newline.
pub open spec fn col_prefix(text: Seq<char>, tab_width: u8, i: int) -> int
    decreases i,
{
    if i <= 0 {
        0
    } else if text[i - 1] == '\n' {
        0
    } else {
        sat(col_prefix(text, tab_width, i - 1) + char_weight_spec(text[i - 1], tab_width))
    }
}

pub proof fn lemma_prefix_bounds(text: Seq<char>, tab_width: u8, i: int)
    ensures
        0 <= weight_prefix(text, tab_width, i) <= u32::MAX,
        0 <= width_prefix(text, tab_width, i) <= u32::MAX,
        0 <= row_prefix(text, i) <= u32::MAX,
        0 <= col_prefix(text, tab_width, i) <= u32::MAX,
    decreases i,
{
    if i > 0 {
        lemma_prefix_bounds(text, tab_width, i - 1);
    }
}

pub proof fn lemma_weight_monotone(text: Seq<char>, tab_width: u8, i: int, j: int)
    requires
        i <= j,
    ensures
        weight_prefix(text, tab_width, i) <= weight_prefix(text, tab_width, j),
    decreases j - i,
{
    if i < j {
        lemma_weight_monotone(text, tab_width, i, j - 1);
        lemma_prefix_bounds(text, tab_width, j - 1);
        if j > 0 {
            assert(char_weight_spec(text[j - 1], tab_width) >= 0) by {
                match unicode_char_width(text[j - 1]) {
                    Some(w) => {},
                    None => {},
                }
            }
        }
    }
}

pub proof fn lemma_width_monotone(text: Seq<char>, tab_width: u8, i: int, j: int)
    requires
        i <= j,
    ensures
        width_prefix(text, tab_width, i) <= width_prefix(text, tab_width, j),
    decreases j - i,
{
    if i < j {
        lemma_width_monotone(text, tab_width, i, j - 1);
        lemma_prefix_bounds(text, tab_width, j - 1);
        if j > 0 {
            assert(char_display_spec(text[j - 1], tab_width) >= 0) by {
                match unicode_char_width(text[j - 1]) {
                    Some(w) => {},
                    None => {},
                }
            }
        }
    }
}

/// Prefixes of a sequence only depend on the chars they cover.
pub proof fn lemma_prefix_take(text: Seq<char>, tab_width: u8, n: int, i: int)
    requires
        0 <= i <= n <= text.len(),
    ensures
        weight_prefix(text.take(n), tab_width, i) == weight_prefix(text, tab_width, i),
        width_prefix(text.take(n), tab_width, i) == width_prefix(text, tab_width, i),
        row_prefix(text.take(n), i) == row_prefix(text, i),
        col_prefix(text.take(n), tab_width, i) == col_prefix(text, tab_width, i),
    decreases i,
{
    if i > 0 {
        lemma_prefix_take(text, tab_width, n, i - 1);
    }
}

/// `k` is the first index at which the running weight reaches `bound` (or
/// the length when none does).
pub open spec fn first_reaching_weight(text: Seq<char>, tab_width: u8, bound: int, r: int) -> bool {
    &&& 0 <= r <= text.len()
    &&& r < text.len() ==> weight_prefix(text, tab_width, r) >= bound
    &&& forall|j: int| 0 <= j < r ==> weight_prefix(text, tab_width, j) < bound
}

/// The same, for the running display width.
pub open spec fn first_reaching_width(text: Seq<char>, tab_width: u8, bound: int, r: int) -> bool {
    &&& 0 <= r <= text.len()
    &&& r < text.len() ==> width_prefix(text, tab_width, r) >= bound
    &&& forall|j: int| 0 <= j < r ==> width_prefix(text, tab_width, j) < bound
}

/// The char at `k` starts at `target` or ends past it.
pub open spec fn covers_offset(text: Seq<char>, tab_width: u8, target: int, k: int) -> bool {
    weight_prefix(text, tab_width, k) == target || target < weight_prefix(text, tab_width, k + 1)
}

/// `k` is the first index whose char starts at `target` or ends past it.
pub open spec fn first_covering(text: Seq<char>, tab_width: u8, target: int, k: int) -> bool {
    &&& 0 <= k < text.len()
    &&& covers_offset(text, tab_width, target, k)
    &&& forall|j: int| 0 <= j < k ==> !covers_offset(text, tab_width, target, j)
}

/// `i` is the first index whose running weight equals `target`.
pub open spec fn first_at_weight(text: Seq<char>, tab_width: u8, target: int, i: int) -> bool {
    &&& 0 <= i <= text.len()
    &&& weight_prefix(text, tab_width, i) == target
    &&& forall|j: int| 0 <= j < i ==> weight_prefix(text, tab_width, j) != target
}

/// `i` is the first index at the given row and column.
pub open spec fn first_at_position(text: Seq<char>, tab_width: u8, row: int, col: int, i: int) -> bool {
    &&& 0 <= i <= text.len()
    &&& row_prefix(text, i) == row && col_prefix(text, tab_width, i) == col
    &&& forall|j: int| 0 <= j < i ==> !(row_prefix(text, j) == row && col_prefix(text, tab_width, j) == col)
}

/// `i` is the first index after the start on row `row`.
pub open spec fn first_on_row(text: Seq<char>, row: int, i: int) -> bool {
    &&& 1 <= i <= text.len()
    &&& row_prefix(text, i) == row
    &&& forall|j: int| 1 <= j < i ==> row_prefix(text, j) != row
}

/// The first index in `i..=len` whose running weight is `target`, or -1.
pub open spec fn first_at_weight_from(text: Seq<char>, tab_width: u8, target: int, i: int) -> int
    decreases text.len() + 1 - i,
{
    if i < 0 || i > text.len() {
        -1
    } else if weight_prefix(text, tab_width, i) == target {
        i
    } else {
        first_at_weight_from(text, tab_width, target, i + 1)
    }
}

/// The (row, column) of the first index whose running weight is `target`.
pub open spec fn offset_position(text: Seq<char>, tab_width: u8, target: int) -> Option<(u32, u32)> {
    let i = first_at_weight_from(text, tab_width, target, 0);
    if i < 0 {
        None
    } else {
        Some((row_prefix(text, i) as u32, col_prefix(text, tab_width, i) as u32))
    }
}

/// The first index in `i..=len` at the given row and column, or -1.
pub open spec fn first_position_from(text: Seq<char>, tab_width: u8, row: int, col: int, i: int) -> int
    decreases text.len() + 1 - i,
{
    if i < 0 || i > text.len() {
        -1
    } else if row_prefix(text, i) == row && col_prefix(text, tab_width, i) == col {
        i
    } else {
        first_position_from(text, tab_width, row, col, i + 1)
    }
}

/// The running weight at the first index at the given row and column.
pub open spec fn position_offset(text: Seq<char>, tab_width: u8, row: int, col: int) -> Option<u32> {
    if row == 0 && col == 0 {
        Some(0)
    } else {
        let i = first_position_from(text, tab_width, row, col, 0);
        if i < 0 {
            None
        } else {
            Some(weight_prefix(text, tab_width, i) as u32)
        }
    }
}

/// The first index in `i..=len`, at least 1, that lies on `row`, or -1.
pub open spec fn first_row_from(text: Seq<char>, row: int, i: int) -> int
    decreases text.len() + 1 - i,
{
    if i < 1 || i > text.len() {
        -1
    } else if row_prefix(text, i) == row {
        i
    } else {
        first_row_from(text, row, i + 1)
    }
}

/// The running weight at the start of row `row`.
pub open spec fn line_start(text: Seq<char>, tab_width: u8, row: int) -> Option<u32> {
    if row == 0 {
        Some(0)
    } else {
        let i = first_row_from(text, row, 1);
        if i < 0 {
            None
        } else {
            Some(weight_prefix(text, tab_width, i) as u32)
        }
    }
}

pub proof fn lemma_first_at_weight_from(text: Seq<char>, tab_width: u8, target: int, a: int, b: int)
    requires
        0 <= a <= b <= text.len() + 1,
        forall|j: int| a <= j < b ==> weight_prefix(text, tab_width, j) != target,
    ensures
        first_at_weight_from(text, tab_width, target, a) == first_at_weight_from(text, tab_width, target, b),
    decreases b - a,
{
    if a < b {
        lemma_first_at_weight_from(text, tab_width, target, a + 1, b);
    }
}

pub proof fn lemma_first_position_from(text: Seq<char>, tab_width: u8, row: int, col: int, a: int, b: int)
    requires
        0 <= a <= b <= text.len() + 1,
        forall|j: int| a <= j < b ==> !(row_prefix(text, j) == row && col_prefix(text, tab_width, j) == col),
    ensures
        first_position_from(text, tab_width, row, col, a) == first_position_from(text, tab_width, row, col, b),
    decreases b - a,
{
    if a < b {
        lemma_first_position_from(text, tab_width, row, col, a + 1, b);
    }
}

pub proof fn lemma_first_row_from(text: Seq<char>, row: int, a: int, b: int)
    requires
        1 <= a <= b <= text.len() + 1,
        forall|j: int| a <= j < b ==> row_prefix(text, j) != row,
    ensures
        first_row_from(text, row, a) == first_row_from(text, row, b),
    decreases b - a,
{
    if a < b {
        lemma_first_row_from(text, row, a + 1, b);
    }
}

/// The offset one char before `target`.
pub open spec fn previous_offset_spec(text: Seq<char>, tab_width: u8, target: int) -> int {
    let k = first_weight_from(text, tab_width, target, 0);
    if k == 0 {
        0
    } else {
        weight_prefix(text, tab_width, k - 1)
    }
}

/// The first index in `i..len` whose char starts at `target` or ends past it,
/// or the length.
pub open spec fn first_covering_from(text: Seq<char>, tab_width: u8, target: int, i: int) -> int
    decreases text.len() - i,
{
    if i < 0 || i >= text.len() {
        text.len() as int
    } else if covers_offset(text, tab_width, target, i) {
        i
    } else {
        first_covering_from(text, tab_width, target, i + 1)
    }
}

/// The offset one char after `target`.
pub open spec fn next_offset_spec(text: Seq<char>, tab_width: u8, target: int) -> int {
    let total = weight_prefix(text, tab_width, text.len() as int);
    if target >= total {
        total
    } else {
        weight_prefix(text, tab_width, first_covering_from(text, tab_width, target, 0) + 1)
    }
}

pub proof fn lemma_first_covering_from(text: Seq<char>, tab_width: u8, target: int, a: int, b: int)
    requires
        0 <= a <= b <= text.len(),
        forall|j: int| a <= j < b ==> !covers_offset(text, tab_width, target, j),
    ensures
        first_covering_from(text, tab_width, target, a) == first_covering_from(text, tab_width, target, b),
    decreases b - a,
{
    if a < b {
        lemma_first_covering_from(text, tab_width, target, a + 1, b);
    }
}

pub fn char_weight(ch: char, tab_width: u8) -> (w: u32)
    ensures
        w == char_weight_spec(ch, tab_width),
        w <= 255,
{
    if ch == '\r' {
        0
    } else if ch == '\n' {
        1
    } else if ch == '\t' {
        if tab_width == 0 { 1 } else { tab_width as u32 }
    } else {
        match char_width_lookup(ch) {
            Some(w) => w as u32,
            None => 0,
        }
    }
}

pub fn char_display_width(ch: char, tab_width: u8) -> (w: u32)
    ensures
        w == char_display_spec(ch, tab_width),
        w <= 255,
{
    if ch == '\n' || ch == '\r' {
        0
    } else {
        char_weight(ch, tab_width)
    }
}

/// Display width of a text: newlines and carriage returns count nothing.
pub fn text_width(text: &[char], tab_width: u8) -> (w: u32)
    ensures
        w == width_prefix(text@, tab_width, text@.len() as int),
{
    let mut width: u32 = 0;
    let mut i: usize = 0;
    while i < text.len()
        invariant
            i <= text@.len(),
            width == width_prefix(text@, tab_width, i as int),
        decreases text@.len() - i,
    {
        width = width.saturating_add(char_display_width(text[i], tab_width));
        i = i + 1;
    }
    width
}

/// Total weight of a text: offsets within it range over `0..=text_weight`.
pub fn text_weight(text: &[char], tab_width: u8) -> (w: u32)
    ensures
        w == weight_prefix(text@, tab_width, text@.len() as int),
{
    let mut weight: u32 = 0;
    let mut i: usize = 0;
    while i < text.len()
        invariant
            i <= text@.len(),
            weight == weight_prefix(text@, tab_width, i as int),
        decreases text@.len() - i,
    {
        weight = weight.saturating_add(char_weight(text[i], tab_width));
        i = i + 1;
    }
    weight
}

/// The index of the first char at which the running weight equals `target`,
/// or the length when there is none.
pub fn weight_to_index(text: &[char], tab_width: u8, target: u32) -> (r: usize)
    ensures
        r <= text@.len(),
        r < text@.len() ==> weight_prefix(text@, tab_width, r as int) == target,
        forall|j: int| 0 <= j < r ==> weight_prefix(text@, tab_width, j) != target,
{
    let mut weight: u32 = 0;
    let mut i: usize = 0;
    while i < text.len()
        invariant
            i <= text@.len(),
            weight == weight_prefix(text@, tab_width, i as int),
            forall|j: int| 0 <= j < i ==> weight_prefix(text@, tab_width, j) != target,
        decreases text@.len() - i,
    {
        if weight == target {
            return i;
        }
        weight = weight.saturating_add(char_weight(text[i], tab_width));
        i = i + 1;
    }
    text.len()
}

/// The offset one char before `target`: the running weight before the first
/// char at which the weight reaches `target`.
pub fn previous_offset(text: &[char], tab_width: u8, target: u32) -> (r: u32)
    ensures
        exists|k: int|
            #[trigger] first_reaching_weight(text@, tab_width, target as int, k) && r == if k == 0 {
                0
            } else {
                weight_prefix(text@, tab_width, k - 1)
            },
        r == previous_offset_spec(text@, tab_width, target as int),
{
    let mut weight: u32 = 0;
    let mut previous: u32 = 0;
    let mut i: usize = 0;
    while i < text.len()
        invariant
            i <= text@.len(),
            weight == weight_prefix(text@, tab_width, i as int),
            previous == if i == 0 { 0 } else { weight_prefix(text@, tab_width, i - 1) },
            forall|j: int| 0 <= j < i ==> weight_prefix(text@, tab_width, j) < target,
        decreases text@.len() - i,
    {
        if weight >= target {
            assert(first_reaching_weight(text@, tab_width, target as int, i as int));
            proof {
                lemma_first_weight_skip(text@, tab_width, target as int, 0, i as int);
            }
            return previous;
        }
        previous = weight;
        weight = weight.saturating_add(char_weight(text[i], tab_width));
        i = i + 1;
    }
    assert(first_reaching_weight(text@, tab_width, target as int, text@.len() as int));
    proof {
        lemma_first_weight_skip(text@, tab_width, target as int, 0, text@.len() as int);
    }
    previous
}

/// The offset one char after `target`: the total weight when `target` is at
/// or past it, else the running weight after the first char that starts at
/// `target` or ends past it.
pub fn next_offset(text: &[char], tab_width: u8, target: u32) -> (r: u32)
    ensures
        target >= weight_prefix(text@, tab_width, text@.len() as int) ==> r == weight_prefix(
            text@,
            tab_width,
            text@.len() as int,
        ),
        target < weight_prefix(text@, tab_width, text@.len() as int) ==> exists|k: int|
            #[trigger] first_covering(text@, tab_width, target as int, k) && r == weight_prefix(
                text@,
                tab_width,
                k + 1,
            ),
        r == next_offset_spec(text@, tab_width, target as int),
{
    let total = text_weight(text, tab_width);
    if target >= total {
        return total;
    }
    let mut weight: u32 = 0;
    let mut i: usize = 0;
    while i < text.len()
        invariant
            i <= text@.len(),
            weight == weight_prefix(text@, tab_width, i as int),
            total == weight_prefix(text@, tab_width, text@.len() as int),
            target < total,
            forall|j: int| 0 <= j < i ==> !covers_offset(text@, tab_width, target as int, j),
        decreases text@.len() - i,
    {
        let next = weight.saturating_add(char_weight(text[i], tab_width));
        if weight == target {
            assert(first_covering(text@, tab_width, target as int, i as int));
            proof {
                lemma_first_covering_from(text@, tab_width, target as int, 0, i as int);
            }
            return next;
        }
        if target < next {
            assert(first_covering(text@, tab_width, target as int, i as int));
            proof {
                lemma_first_covering_from(text@, tab_width, target as int, 0, i as int);
            }
            return next;
        }
        weight = next;
        i = i + 1;
    }
    assert(text@.len() > 0 ==> !covers_offset(text@, tab_width, target as int, text@.len() - 1));
    total
}

/// The (row, column) of the first index whose running weight is `target`.
pub fn offset_to_position(text: &[char], tab_width: u8, target: u32) -> (r: Option<(u32, u32)>)
    ensures
        r is Some <==> exists|i: int|
            0 <= i <= text@.len() && weight_prefix(text@, tab_width, i) == target,
        r matches Some(p) ==> exists|i: int|
            #[trigger] first_at_weight(text@, tab_width, target as int, i) && p.0 == row_prefix(text@, i) && p.1
                == col_prefix(text@, tab_width, i),
        r == offset_position(text@, tab_width, target as int),
{
    let total = text_weight(text, tab_width);
    if target > total {
        proof {
            assert forall|i: int| 0 <= i <= text@.len() implies weight_prefix(text@, tab_width, i) != target by {
                lemma_weight_monotone(text@, tab_width, i, text@.len() as int);
            }
            lemma_first_at_weight_from(text@, tab_width, target as int, 0, text@.len() as int + 1);
        }
        return None;
    }
    let mut row: u32 = 0;
    let mut col: u32 = 0;
    let mut offset: u32 = 0;
    let mut i: usize = 0;
    while i < text.len()
        invariant
            i <= text@.len(),
            offset == weight_prefix(text@, tab_width, i as int),
            row == row_prefix(text@, i as int),
            col == col_prefix(text@, tab_width, i as int),
            forall|j: int| 0 <= j < i ==> weight_prefix(text@, tab_width, j) != target,
        decreases text@.len() - i,
    {
        if offset == target {
            assert(first_at_weight(text@, tab_width, target as int, i as int));
            proof {
                lemma_first_at_weight_from(text@, tab_width, target as int, 0, i as int);
                lemma_prefix_bounds(text@, tab_width, i as int);
            }
            return Some((row, col));
        }
        let ch = text[i];
        if ch == '\n' {
            offset = offset.saturating_add(1);
            row = row.saturating_add(1);
            col = 0;
        } else {
            let w = char_weight(ch, tab_width);
            offset = offset.saturating_add(w);
            col = col.saturating_add(w);
        }
        i = i + 1;
    }
    proof {
        lemma_first_at_weight_from(text@, tab_width, target as int, 0, i as int);
        lemma_prefix_bounds(text@, tab_width, i as int);
    }
    if offset == target {
        assert(first_at_weight(text@, tab_width, target as int, i as int));
        Some((row, col))
    } else {
        proof {
            lemma_first_at_weight_from(text@, tab_width, target as int, 0, i as int + 1);
        }
        None
    }
}

/// The running weight at the first index whose (row, column) is the given one.
pub fn position_to_offset(text: &[char], tab_width: u8, row: u32, col: u32) -> (r: Option<u32>)
    ensures
        r is Some <==> exists|i: int|
            0 <= i <= text@.len() && row_prefix(text@, i) == row && col_prefix(text@, tab_width, i) == col,
        r matches Some(o) ==> exists|i: int|
            #[trigger] first_at_position(text@, tab_width, row as int, col as int, i) && o == weight_prefix(
                text@,
                tab_width,
                i,
            ),
        r == position_offset(text@, tab_width, row as int, col as int),
{
    if row == 0 && col == 0 {
        proof {
            assert(first_at_position(text@, tab_width, row as int, col as int, 0));
        }
        return Some(0);
    }
    let mut current_row: u32 = 0;
    let mut current_col: u32 = 0;
    let mut offset: u32 = 0;
    let mut i: usize = 0;
    while i < text.len()
        invariant
            i <= text@.len(),
            offset == weight_prefix(text@, tab_width, i as int),
            current_row == row_prefix(text@, i as int),
            current_col == col_prefix(text@, tab_width, i as int),
            forall|j: int| 0 <= j < i ==> !(row_prefix(text@, j) == row && col_prefix(text@, tab_width, j) == col),
        decreases text@.len() - i,
    {
        if current_row == row && current_col == col {
            assert(first_at_position(text@, tab_width, row as int, col as int, i as int));
            proof {
                lemma_first_position_from(text@, tab_width, row as int, col as int, 0, i as int);
            }
            return Some(offset);
        }
        let ch = text[i];
        if ch == '\n' {
            offset = offset.saturating_add(1);
            current_row = current_row.saturating_add(1);
            current_col = 0;
        } else {
            let w = char_weight(ch, tab_width);
            offset = offset.saturating_add(w);
            current_col = current_col.saturating_add(w);
        }
        i = i + 1;
    }
    proof {
        lemma_first_position_from(text@, tab_width, row as int, col as int, 0, i as int);
    }
    if current_row == row && current_col == col {
        assert(first_at_position(text@, tab_width, row as int, col as int, i as int));
        Some(offset)
    } else {
        proof {
            lemma_first_position_from(text@, tab_width, row as int, col as int, 0, i as int + 1);
        }
        None
    }
}

/// The running weight at the first index that lies on row `row`.
pub fn line_start_offset(text: &[char], tab_width: u8, row: u32) -> (r: Option<u32>)
    ensures
        row == 0 ==> r == Some(0u32),
        row > 0 ==> (r is Some <==> exists|i: int| 1 <= i <= text@.len() && row_prefix(text@, i) == row),
        row > 0 ==> (r matches Some(o) ==> exists|i: int|
            #[trigger] first_on_row(text@, row as int, i) && o == weight_prefix(text@, tab_width, i)),
        r == line_start(text@, tab_width, row as int),
{
    if row == 0 {
        return Some(0);
    }
    let mut current_row: u32 = 0;
    let mut offset: u32 = 0;
    let mut i: usize = 0;
    while i < text.len()
        invariant
            i <= text@.len(),
            row > 0,
            offset == weight_prefix(text@, tab_width, i as int),
            current_row == row_prefix(text@, i as int),
            forall|j: int| 1 <= j <= i ==> row_prefix(text@, j) != row,
        decreases text@.len() - i,
    {
        let ch = text[i];
        if ch == '\n' {
            offset = offset.saturating_add(1);
            current_row = current_row.saturating_add(1);
            if current_row == row {
                assert(first_on_row(text@, row as int, i + 1));
                proof {
                    lemma_first_row_from(text@, row as int, 1, i + 1);
                }
                return Some(offset);
            }
        } else {
            offset = offset.saturating_add(char_weight(ch, tab_width));
        }
        i = i + 1;
    }
    proof {
        lemma_first_row_from(text@, row as int, 1, text@.len() as int + 1);
    }
    None
}

/// The first index from `i` on whose running weight reaches `bound`, or the
/// length.
pub open spec fn first_weight_from(text: Seq<char>, tab_width: u8, bound: int, i: int) -> int
    decreases text.len() - i,
{
    if i < 0 || i >= text.len() {
        text.len() as int
    } else if weight_prefix(text, tab_width, i) >= bound {
        i
    } else {
        first_weight_from(text, tab_width, bound, i + 1)
    }
}

/// The first index from `i` on whose running display width reaches `bound`,
/// or the length.
pub open spec fn first_width_from(text: Seq<char>, tab_width: u8, bound: int, i: int) -> int
    decreases text.len() - i,
{
    if i < 0 || i >= text.len() {
        text.len() as int
    } else if width_prefix(text, tab_width, i) >= bound {
        i
    } else {
        first_width_from(text, tab_width, bound, i + 1)
    }
}

/// The chars between weight offsets `start` and `end`.
pub open spec fn weight_slice(text: Seq<char>, tab_width: u8, start: int, end: int) -> Seq<char> {
    if start >= end {
        Seq::empty()
    } else {
        text.subrange(first_weight_from(text, tab_width, start, 0), first_weight_from(text, tab_width, end, 0))
    }
}

/// The chars between display offsets `start` and `end`.
pub open spec fn display_slice(text: Seq<char>, tab_width: u8, start: int, end: int) -> Seq<char> {
    if start >= end {
        Seq::empty()
    } else {
        text.subrange(first_width_from(text, tab_width, start, 0), first_width_from(text, tab_width, end, 0))
    }
}

pub proof fn lemma_first_weight_skip(text: Seq<char>, tab_width: u8, bound: int, a: int, b: int)
    requires
        0 <= a <= b <= text.len(),
        forall|j: int| a <= j < b ==> weight_prefix(text, tab_width, j) < bound,
    ensures
        first_weight_from(text, tab_width, bound, a) == first_weight_from(text, tab_width, bound, b),
    decreases b - a,
{
    if a < b {
        lemma_first_weight_skip(text, tab_width, bound, a + 1, b);
    }
}

pub proof fn lemma_first_width_skip(text: Seq<char>, tab_width: u8, bound: int, a: int, b: int)
    requires
        0 <= a <= b <= text.len(),
        forall|j: int| a <= j < b ==> width_prefix(text, tab_width, j) < bound,
    ensures
        first_width_from(text, tab_width, bound, a) == first_width_from(text, tab_width, bound, b),
    decreases b - a,
{
    if a < b {
        lemma_first_width_skip(text, tab_width, bound, a + 1, b);
    }
}

/// The chars between weight offsets `start` and `end`: from the first index
/// whose running weight reaches `start` to the first that reaches `end`.
pub fn slice_by_weight_offsets(text: &[char], tab_width: u8, start_offset: u32, end_offset: u32) -> (r: Vec<
    char,
>)
    ensures
        start_offset >= end_offset ==> r@ == Seq::<char>::empty(),
        start_offset < end_offset ==> exists|s: int, e: int|
            #[trigger] first_reaching_weight(text@, tab_width, start_offset as int, s)
                && #[trigger] first_reaching_weight(text@, tab_width, end_offset as int, e) && s <= e && r@
                == text@.subrange(s, e),
        r@ == weight_slice(text@, tab_width, start_offset as int, end_offset as int),
{
    if start_offset >= end_offset {
        return Vec::new();
    }
    let mut acc: u32 = 0;
    let mut s: usize = 0;
    while s < text.len() && acc < start_offset
        invariant
            s <= text@.len(),
            acc == weight_prefix(text@, tab_width, s as int),
            forall|j: int| 0 <= j < s ==> weight_prefix(text@, tab_width, j) < start_offset,
        decreases text@.len() - s,
    {
        acc = acc.saturating_add(char_weight(text[s], tab_width));
        s = s + 1;
    }
    let mut e: usize = s;
    while e < text.len() && acc < end_offset
        invariant
            s <= e <= text@.len(),
            acc == weight_prefix(text@, tab_width, e as int),
            forall|j: int| 0 <= j < e ==> weight_prefix(text@, tab_width, j) < end_offset,
        decreases text@.len() - e,
    {
        acc = acc.saturating_add(char_weight(text[e], tab_width));
        e = e + 1;
    }
    proof {
        assert(first_reaching_weight(text@, tab_width, start_offset as int, s as int));
        assert(first_reaching_weight(text@, tab_width, end_offset as int, e as int));
        lemma_first_weight_skip(text@, tab_width, start_offset as int, 0, s as int);
        lemma_first_weight_skip(text@, tab_width, end_offset as int, 0, e as int);
    }
    copy_range(text, s, e)
}

/// The chars between display offsets `start` and `end`.
pub fn slice_by_display_offsets(text: &[char], tab_width: u8, start_offset: u32, end_offset: u32) -> (r: Vec<
    char,
>)
    ensures
        start_offset >= end_offset ==> r@ == Seq::<char>::empty(),
        start_offset < end_offset ==> exists|s: int, e: int|
            #[trigger] first_reaching_width(text@, tab_width, start_offset as int, s)
                && #[trigger] first_reaching_width(text@, tab_width, end_offset as int, e) && s <= e && r@
                == text@.subrange(s, e),
        r@ == display_slice(text@, tab_width, start_offset as int, end_offset as int),
{
    if start_offset >= end_offset {
        return Vec::new();
    }
    let mut acc: u32 = 0;
    let mut s: usize = 0;
    while s < text.len() && acc < start_offset
        invariant
            s <= text@.len(),
            acc == width_prefix(text@, tab_width, s as int),
            forall|j: int| 0 <= j < s ==> width_prefix(text@, tab_width, j) < start_offset,
        decreases text@.len() - s,
    {
        acc = acc.saturating_add(char_display_width(text[s], tab_width));
        s = s + 1;
    }
    let mut e: usize = s;
    while e < text.len() && acc < end_offset
        invariant
            s <= e <= text@.len(),
            acc == width_prefix(text@, tab_width, e as int),
            forall|j: int| 0 <= j < e ==> width_prefix(text@, tab_width, j) < end_offset,
        decreases text@.len() - e,
    {
        acc = acc.saturating_add(char_display_width(text[e], tab_width));
        e = e + 1;
    }
    proof {
        assert(first_reaching_width(text@, tab_width, start_offset as int, s as int));
        assert(first_reaching_width(text@, tab_width, end_offset as int, e as int));
        lemma_first_width_skip(text@, tab_width, start_offset as int, 0, s as int);
        lemma_first_width_skip(text@, tab_width, end_offset as int, 0, e as int);
    }
    copy_range(text, s, e)
}

pub fn copy_range(text: &[char], s: usize, e: usize) -> (r: Vec<char>)
    requires
        s <= e <= text@.len(),
    ensures
        r@ == text@.subrange(s as int, e as int),
{
    let mut v: Vec<char> = Vec::new();
    let mut k: usize = s;
    while k < e
        invariant
            s <= k <= e <= text@.len(),
            v@ == text@.subrange(s as int, k as int),
        decreases e - k,
    {
        v.push(text[k]);
        proof {
            assert(v@ =~= text@.subrange(s as int, k + 1));
        }
        k = k + 1;
    }
    v
}

} // verus!

verus! {

/// The lines of a text as `str::split('\n')` yields them: one more line than
/// there are newlines.
pub open spec fn split_lines(s: Seq<char>) -> Seq<Seq<char>>
    decreases s.len(),
{
    if s.len() == 0 {
        seq![Seq::<char>::empty()]
    } else {
        let p = split_lines(s.drop_last());
        if s.last() == '\n' {
            p.push(Seq::<char>::empty())
        } else {
            p.update(p.len() - 1, p.last().push(s.last()))
        }
    }
}

/// The lines of a text; an empty text has none.
pub open spec fn lines_of(s: Seq<char>) -> Seq<Seq<char>> {
    if s.len() == 0 {
        Seq::empty()
    } else {
        split_lines(s)
    }
}

pub proof fn lemma_split_lines_nonempty(s: Seq<char>)
    ensures
        split_lines(s).len() >= 1,
    decreases s.len(),
{
    if s.len() > 0 {
        lemma_split_lines_nonempty(s.drop_last());
    }
}

/// A text has at most one more line than chars.
pub proof fn lemma_split_lines_len_bound(s: Seq<char>)
    ensures
        split_lines(s).len() <= s.len() + 1,
    decreases s.len(),
{
    if s.len() > 0 {
        lemma_split_lines_len_bound(s.drop_last());
        lemma_split_lines_nonempty(s.drop_last());
    }
}

/// Lines before the last one of a prefix stay lines of every longer prefix.
pub proof fn lemma_split_lines_stable(s: Seq<char>, i: int, j: int, r: int)
    requires
        0 <= i <= j <= s.len(),
        0 <= r < split_lines(s.take(i)).len() - 1,
    ensures
        r < split_lines(s.take(j)).len(),
        split_lines(s.take(j))[r] == split_lines(s.take(i))[r],
    decreases j - i,
{
    lemma_split_lines_nonempty(s.take(i));
    if i < j {
        lemma_split_lines_stable(s, i, j - 1, r);
        lemma_split_lines_nonempty(s.take(j - 1));
        assert(s.take(j).drop_last() =~= s.take(j - 1));
        let p = split_lines(s.take(j - 1));
        assert(split_lines(s.take(j - 1)).len() >= split_lines(s.take(i)).len()) by {
            lemma_split_lines_len_monotone(s, i, j - 1);
        }
    }
}

pub proof fn lemma_split_lines_len_monotone(s: Seq<char>, i: int, j: int)
    requires
        0 <= i <= j <= s.len(),
    ensures
        split_lines(s.take(i)).len() <= split_lines(s.take(j)).len(),
    decreases j - i,
{
    if i < j {
        lemma_split_lines_len_monotone(s, i, j - 1);
        lemma_split_lines_nonempty(s.take(j - 1));
        assert(s.take(j).drop_last() =~= s.take(j - 1));
    }
}

/// The char range `(start, end)` of line `row` of `lines_of(text)`, if the
/// text has such a line.
pub fn line_range(text: &[char], row: usize) -> (r: Option<(usize, usize)>)
    ensures
        r is Some <==> row < lines_of(text@).len(),
        r matches Some(p) ==> p.0 <= p.1 <= text@.len() && text@.subrange(p.0 as int, p.1 as int)
            == lines_of(text@)[row as int],
{
    let n = text.len();
    if n == 0 {
        return None;
    }
    let mut count: usize = 0;
    let mut start: usize = 0;
    let mut i: usize = 0;
    proof {
        assert(text@.take(0) =~= Seq::<char>::empty());
        assert(text@.subrange(0, 0) =~= Seq::<char>::empty());
    }
    while i < n
        invariant
            n == text@.len(),
            n > 0,
            i <= n,
            start <= i,
            count <= i,
            count <= row,
            split_lines(text@.take(i as int)).len() == count + 1,
            split_lines(text@.take(i as int)).last() == text@.subrange(start as int, i as int),
        decreases n - i,
    {
        proof {
            assert(text@.take(i + 1).drop_last() =~= text@.take(i as int));
            assert(text@.take(i + 1).last() == text@[i as int]);
        }
        if text[i] == '\n' {
            if count == row {
                proof {
                    lemma_split_lines_stable(text@, i + 1, n as int, row as int);
                    assert(text@.take(n as int) =~= text@);
                }
                return Some((start, i));
            }
            count = count + 1;
            start = i + 1;
            proof {
                assert(text@.subrange(start as int, i + 1) =~= Seq::<char>::empty());
            }
        } else {
            proof {
                assert(text@.subrange(start as int, i + 1) =~= text@.subrange(start as int, i as int).push(
                    text@[i as int],
                ));
            }
        }
        i = i + 1;
    }
    proof {
        assert(text@.take(n as int) =~= text@);
    }
    if count == row {
        Some((start, n))
    } else {
        None
    }
}

/// Display width of `text[start..end]`.
pub fn range_width(text: &[char], tab_width: u8, start: usize, end: usize) -> (w: u32)
    requires
        start <= end <= text@.len(),
    ensures
        w == width_prefix(text@.subrange(start as int, end as int), tab_width, (end - start) as int),
{
    let ghost sub = text@.subrange(start as int, end as int);
    let mut width: u32 = 0;
    let mut k: usize = start;
    while k < end
        invariant
            start <= k <= end <= text@.len(),
            sub == text@.subrange(start as int, end as int),
            width == width_prefix(sub, tab_width, (k - start) as int),
        decreases end - k,
    {
        assert(sub[(k - start) as int] == text@[k as int]);
        width = width.saturating_add(char_display_width(text[k], tab_width));
        k = k + 1;
    }
    width
}

/// Display width of line `row`, or 0 when there is no such line.
pub fn line_width_at(text: &[char], tab_width: u8, row: u32) -> (w: u32)
    ensures
        (row as int) < lines_of(text@).len() ==> w == width_prefix(
            lines_of(text@)[row as int],
            tab_width,
            lines_of(text@)[row as int].len() as int,
        ),
        (row as int) >= lines_of(text@).len() ==> w == 0,
{
    match line_range(text, row as usize) {
        Some((a, b)) => range_width(text, tab_width, a, b),
        None => 0,
    }
}

/// The UTF-8 decoding that `String::from_utf8_lossy` performs, replacing
/// invalid sequences.
pub uninterp spec fn utf8_lossy(bytes: Seq<u8>) -> Seq<char>;

/// Calls `String::from_utf8_lossy`; per its documentation, valid UTF-8 is
/// decoded unchanged.
#[verifier::external_body]
pub(crate) fn decode_utf8_lossy(data: &[u8]) -> (r: Vec<char>)
    ensures
        r@ == utf8_lossy(data@),
        vstd::utf8::valid_utf8(data@) ==> r@ == vstd::utf8::decode_utf8(data@),
{
    String::from_utf8_lossy(data).chars().collect()
}

/// Builds a `String` from chars (`FromIterator<char>` for `String`).
#[verifier::external_body]
pub(crate) fn chars_to_string(chars: &[char]) -> (r: String)
    ensures
        r@ == chars@,
{
    chars.iter().collect()
}

/// Every carriage return becomes a newline; a carriage return directly
/// followed by a newline is dropped in favour of that newline.
pub open spec fn normalize_newlines(s: Seq<char>) -> Seq<char>
    decreases s.len(),
{
    if s.len() == 0 {
        Seq::empty()
    } else if s[0] == '\r' {
        if s.len() > 1 && s[1] == '\n' {
            seq!['\n'] + normalize_newlines(s.skip(2))
        } else {
            seq!['\n'] + normalize_newlines(s.skip(1))
        }
    } else {
        seq![s[0]] + normalize_newlines(s.skip(1))
    }
}

pub fn normalize_chars(text: &[char]) -> (r: Vec<char>)
    ensures
        r@ == normalize_newlines(text@),
{
    let n = text.len();
    let mut out: Vec<char> = Vec::new();
    let mut i: usize = 0;
    proof {
        assert(text@.skip(0) =~= text@);
        assert(out@ + normalize_newlines(text@) =~= normalize_newlines(text@));
    }
    while i < n
        invariant
            n == text@.len(),
            i <= n,
            normalize_newlines(text@) == out@ + normalize_newlines(text@.skip(i as int)),
        decreases n - i,
    {
        let ghost rest = text@.skip(i as int);
        assert(rest[0] == text@[i as int]);
        if text[i] == '\r' {
            out.push('\n');
            if i + 1 < n && text[i + 1] == '\n' {
                assert(rest[1] == text@[i + 1]);
                assert(rest.skip(2) =~= text@.skip(i + 2));
                i = i + 2;
            } else {
                assert(rest.skip(1) =~= text@.skip(i + 1));
                i = i + 1;
            }
        } else {
            out.push(text[i]);
            assert(rest.skip(1) =~= text@.skip(i + 1));
            i = i + 1;
        }
    }
    proof {
        assert(text@.skip(n as int) =~= Seq::<char>::empty());
        assert(out@ + Seq::<char>::empty() =~= out@);
    }
    out
}

/// The text holds no carriage return.
pub open spec fn no_cr(s: Seq<char>) -> bool {
    forall|i: int| 0 <= i < s.len() ==> s[i] != '\r'
}

pub proof fn lemma_normalize_no_cr(s: Seq<char>)
    ensures
        no_cr(normalize_newlines(s)),
    decreases s.len(),
{
    if s.len() > 0 {
        if s[0] == '\r' && s.len() > 1 && s[1] == '\n' {
            lemma_normalize_no_cr(s.skip(2));
        } else {
            lemma_normalize_no_cr(s.skip(1));
        }
        let r = normalize_newlines(s);
        assert forall|i: int| 0 <= i < r.len() implies r[i] != '\r' by {
            if i > 0 {
                if s[0] == '\r' && s.len() > 1 && s[1] == '\n' {
                    assert(r[i] == normalize_newlines(s.skip(2))[i - 1]);
                } else {
                    assert(r[i] == normalize_newlines(s.skip(1))[i - 1]);
                }
            }
        }
    }
}

pub proof fn lemma_normalize_identity(s: Seq<char>)
    requires
        no_cr(s),
    ensures
        normalize_newlines(s) == s,
    decreases s.len(),
{
    if s.len() > 0 {
        assert(s[0] != '\r');
        lemma_normalize_identity(s.skip(1));
        assert(seq![s[0]] + s.skip(1) =~= s);
    }
}

/// Decodes bytes as UTF-8 (lossily) and normalizes line endings to `\n`.
pub fn normalize_text_bytes(data: &[u8]) -> (r: Vec<char>)
    ensures
        r@ == normalize_newlines(utf8_lossy(data@)),
        no_cr(r@),
        vstd::utf8::valid_utf8(data@) ==> r@ == normalize_newlines(vstd::utf8::decode_utf8(data@)),
{
    proof {
        lemma_normalize_no_cr(utf8_lossy(data@));
    }
    let chars = decode_utf8_lossy(data);
    normalize_chars(chars.as_slice())
}

pub proof fn lemma_encode_utf8_append(a: Seq<char>, b: Seq<char>)
    ensures
        vstd::utf8::encode_utf8(a + b) == vstd::utf8::encode_utf8(a) + vstd::utf8::encode_utf8(b),
    decreases a.len(),
{
    if a.len() == 0 {
        assert(a + b =~= b);
    } else {
        assert((a + b).drop_first() =~= a.drop_first() + b);
        lemma_encode_utf8_append(a.drop_first(), b);
    }
}

fn push_scalar(out: &mut Vec<u8>, c: char)
    ensures
        final(out)@ == old(out)@ + vstd::utf8::encode_scalar(c as u32),
{
    proof {
        vstd::utf8::char_is_scalar(c);
    }
    push_code_point(out, c as u32);
}

/// Appends the UTF-8 encoding of a Unicode scalar value.
pub fn push_code_point(out: &mut Vec<u8>, v: u32)
    requires
        vstd::utf8::is_scalar(v),
    ensures
        final(out)@ == old(out)@ + vstd::utf8::encode_scalar(v),
{
    if v <= 0x7F {
        out.push((v & 0x7F) as u8);
    } else if v <= 0x7FF {
        out.push(0xC0 | ((v >> 6) & 0x1F) as u8);
        out.push(0x80 | (v & 0x3F) as u8);
    } else if v <= 0xFFFF {
        out.push(0xE0 | ((v >> 12) & 0x0F) as u8);
        out.push(0x80 | ((v >> 6) & 0x3F) as u8);
        out.push(0x80 | (v & 0x3F) as u8);
    } else {
        out.push(0xF0 | ((v >> 18) & 0x7) as u8);
        out.push(0x80 | ((v >> 12) & 0x3F) as u8);
        out.push(0x80 | ((v >> 6) & 0x3F) as u8);
        out.push(0x80 | (v & 0x3F) as u8);
    }
    proof {
        assert(final(out)@ =~= old(out)@ + vstd::utf8::encode_scalar(v));
    }
}

/// The UTF-8 bytes of a char sequence.
pub fn encode_chars(text: &[char]) -> (r: Vec<u8>)
    ensures
        r@ == vstd::utf8::encode_utf8(text@),
{
    let n = text.len();
    let mut out: Vec<u8> = Vec::new();
    let mut i: usize = 0;
    while i < n
        invariant
            n == text@.len(),
            i <= n,
            out@ == vstd::utf8::encode_utf8(text@.take(i as int)),
        decreases n - i,
    {
        proof {
            assert(text@.take(i + 1) =~= text@.take(i as int) + seq![text@[i as int]]);
            lemma_encode_utf8_append(text@.take(i as int), seq![text@[i as int]]);
            assert(seq![text@[i as int]].drop_first() =~= Seq::<char>::empty());
            assert(vstd::utf8::encode_utf8(Seq::<char>::empty()) =~= Seq::<u8>::empty());
            assert(vstd::utf8::encode_utf8(seq![text@[i as int]]) =~= vstd::utf8::encode_scalar(text@[i as int] as u32));
        }
        push_scalar(&mut out, text[i]);
        i = i + 1;
    }
    proof {
        assert(text@.take(n as int) =~= text@);
    }
    out
}

} // verus!
