//! What wrapping promises of a view's rows.
use crate::text::{char_weight_spec, lines_of, sat, width_prefix};
use crate::word::white_space;
use crate::text_buffer_view::{
    char_step, char_wrap_count, char_wrap_rows, chars_fold, line_rows, row_at, rows_upto, token_step, tokens_fold,
    virtual_lines_spec, visible_lines_spec, word_wrap_rows, ws_split, ws_tokens, VirtualLine, WordWrapState, WrapLine,
};
use vstd::prelude::*;

verus! {

proof fn lemma_char_rows_fit(line_width: u32, w: WrapLine)
    requires
        w.wrap_width > 0,
    ensures
        forall|k: int| 0 <= k < char_wrap_rows(line_width, w).len() ==> #[trigger] char_wrap_rows(line_width, w)[k].width_cols
            <= w.wrap_width,
{
}

proof fn lemma_rows_upto_fit(text: Seq<char>, tab_width: u8, wrap_width: u32, mode: u8, n: int)
    requires
        wrap_width > 0,
        mode != 2,
        0 <= n <= lines_of(text).len(),
    ensures
        forall|k: int| 0 <= k < rows_upto(text, tab_width, Some(wrap_width), mode, n).len() ==> #[trigger] rows_upto(
            text,
            tab_width,
            Some(wrap_width),
            mode,
            n,
        )[k].width_cols <= wrap_width,
    decreases n,
{
    if n > 0 {
        lemma_rows_upto_fit(text, tab_width, wrap_width, mode, n - 1);
        let a = rows_upto(text, tab_width, Some(wrap_width), mode, n - 1);
        let b = line_rows(text, tab_width, Some(wrap_width), mode, n - 1);
        let line = lines_of(text)[n - 1];
        if line.len() != 0 {
            let start = crate::word::or_else(crate::text::line_start(text, tab_width, (n - 1) as u32 as int), 0);
            let line_width = crate::text::width_prefix(line, tab_width, line.len() as int) as u32;
            lemma_char_rows_fit(
                line_width,
                WrapLine { line_start: start, source: (n - 1) as u32, wrap_width, tab_width },
            );
        }
        assert forall|k: int| 0 <= k < (a + b).len() implies #[trigger] (a + b)[k].width_cols <= wrap_width by {
            if k >= a.len() {
                assert((a + b)[k] == b[k - a.len()]);
            }
        }
    }
}

/// Wrapping at chars, every row of a view is at most the wrap width wide.
pub proof fn lemma_char_wrap_rows_fit(text: Seq<char>, tab_width: u8, wrap_width: u32, mode: u8)
    requires
        wrap_width > 0,
        mode != 2,
    ensures
        forall|k: int| 0 <= k < virtual_lines_spec(text, tab_width, Some(wrap_width), mode).len() ==> #[trigger] virtual_lines_spec(
            text,
            tab_width,
            Some(wrap_width),
            mode,
        )[k].width_cols <= wrap_width,
{
    if text.len() > 0 {
        lemma_rows_upto_fit(text, tab_width, wrap_width, mode, lines_of(text).len() as int);
    }
}

proof fn lemma_unwrapped_rows(text: Seq<char>, tab_width: u8, mode: u8, n: int)
    requires
        0 <= n <= lines_of(text).len(),
    ensures
        rows_upto(text, tab_width, None, mode, n).len() == n,
        forall|k: int| 0 <= k < n ==> (#[trigger] rows_upto(text, tab_width, None, mode, n)[k]).source_line == k as u32
            && rows_upto(text, tab_width, None, mode, n)[k].wrap_index == 0,
    decreases n,
{
    if n > 0 {
        lemma_unwrapped_rows(text, tab_width, mode, n - 1);
        let a = rows_upto(text, tab_width, None, mode, n - 1);
        let b = line_rows(text, tab_width, None, mode, n - 1);
        assert forall|k: int| 0 <= k < n implies (#[trigger] (a + b)[k]).source_line == k as u32 && (a + b)[k].wrap_index
            == 0 by {
            if k < n - 1 {
                assert((a + b)[k] == a[k]);
            }
        }
    }
}

/// Without wrapping, a non-empty text has exactly one row per logical line,
/// the `k`-th row showing line `k` from its start.
pub proof fn lemma_unwrapped_one_row_per_line(text: Seq<char>, tab_width: u8, mode: u8)
    requires
        text.len() > 0,
    ensures
        virtual_lines_spec(text, tab_width, None, mode).len() == lines_of(text).len(),
        forall|k: int|
            0 <= k < lines_of(text).len() ==> (#[trigger] virtual_lines_spec(text, tab_width, None, mode)[k]).source_line
                == k as u32 && virtual_lines_spec(text, tab_width, None, mode)[k].wrap_index == 0,
{
    lemma_unwrapped_rows(text, tab_width, mode, lines_of(text).len() as int);
}

/// `lo <= x < hi`.
pub open spec fn within(x: int, lo: int, hi: int) -> bool {
    lo <= x < hi
}

/// Each line the viewport shows carries the part of the selection that
/// falls on it: the offsets it marks are exactly those both selected and
/// within the line's `[start_offset, end_offset)`; it marks none when that
/// part is empty or nothing is selected. Each line ends where the next one
/// starts.
pub proof fn lemma_visible_selection_is_clipped_to_line(
    rows: Seq<VirtualLine>,
    viewport_y: u32,
    viewport_height: u32,
    selection: Option<(u32, u32)>,
)
    ensures
        forall|k: int|
            0 <= k < visible_lines_spec(rows, viewport_y, viewport_height, selection).len() ==> {
                let l = #[trigger] visible_lines_spec(rows, viewport_y, viewport_height, selection)[k];
                match selection {
                    None => l.selection_start is None && l.selection_end is None,
                    Some((s, e)) => match (l.selection_start, l.selection_end) {
                        (Some(a), Some(b)) => {
                            &&& l.start_offset <= a < b <= l.end_offset
                            &&& forall|x: int| #[trigger] within(x, a as int, b as int) <==> (within(x, s as int, e as int)
                                && within(x, l.start_offset as int, l.end_offset as int))
                        },
                        (None, None) => forall|x: int|
                            !(#[trigger] within(x, s as int, e as int) && within(
                                x,
                                l.start_offset as int,
                                l.end_offset as int,
                            )),
                        _ => false,
                    },
                }
            },
        forall|k: int|
            0 <= k && k + 1 < visible_lines_spec(rows, viewport_y, viewport_height, selection).len() ==> (
            #[trigger] visible_lines_spec(rows, viewport_y, viewport_height, selection)[k]).end_offset
                == visible_lines_spec(rows, viewport_y, viewport_height, selection)[k + 1].start_offset,
{
}

/// A line of chars that are each one column wide and none white space.
pub open spec fn unbroken_unit_line(line: Seq<char>, tab_width: u8) -> bool {
    forall|i: int| 0 <= i < line.len() ==> !white_space(#[trigger] line[i]) && char_weight_spec(line[i], tab_width) == 1
}

/// The state a line's word wrap starts from.
pub open spec fn wrap_start() -> (Seq<VirtualLine>, WordWrapState) {
    (Seq::empty(), WordWrapState { segment_start: 0, current: 0, last_break: None, wrap_index: 0 })
}

proof fn lemma_unit_split(line: Seq<char>, tab_width: u8, n: int)
    requires
        0 <= n <= line.len(),
        unbroken_unit_line(line, tab_width),
    ensures
        ws_split(line, n) == (Seq::<Seq<char>>::empty(), line.take(n)),
        n < u32::MAX ==> width_prefix(line, tab_width, n) == n,
    decreases n,
{
    if n > 0 {
        lemma_unit_split(line, tab_width, n - 1);
        assert(!white_space(line[n - 1]));
        assert(line.take(n - 1).push(line[n - 1]) =~= line.take(n));
    }
}

/// `q * w` stays within `[0, x]` and `x - q * w` below `w`, for `q = x / w`.
proof fn lemma_div_parts(x: int, w: int)
    requires
        x >= 0,
        w > 0,
    ensures
        0 <= (x / w) * w <= x < (x / w) * w + w,
        x / w >= 0,
{
    vstd::arithmetic::div_mod::lemma_fundamental_div_mod(x, w);
    assert((x / w) * w == w * (x / w)) by (nonlinear_arith);
    assert(x / w >= 0) by (nonlinear_arith)
        requires
            x >= 0,
            w > 0,
            x == w * (x / w) + x % w,
            0 <= x % w < w,
    ;
    assert(0 <= (x / w) * w) by (nonlinear_arith)
        requires
            x / w >= 0,
            w > 0,
    ;
}

proof fn lemma_unit_chars_fold(line: Seq<char>, w: WrapLine, j: int)
    requires
        0 <= j <= line.len(),
        line.len() < u32::MAX,
        w.wrap_width > 0,
        unbroken_unit_line(line, w.tab_width),
    ensures
        ({
            let s = chars_fold(wrap_start(), line, w, j);
            let q = if j == 0 { 0 } else { (j - 1) / (w.wrap_width as int) };
            &&& 0 <= q * w.wrap_width <= j
            &&& q >= 0
            &&& s.0 == Seq::new(q as nat, |k: int| row_at(w, (k * w.wrap_width) as u32, w.wrap_width, k as u32))
            &&& s.1 == (WordWrapState {
                segment_start: (q * w.wrap_width) as u32,
                current: j as u32,
                last_break: None,
                wrap_index: q as u32,
            })
        }),
    decreases j,
{
    let ww = w.wrap_width as int;
    let f = |k: int| row_at(w, (k * w.wrap_width) as u32, w.wrap_width, k as u32);
    if j == 0 {
        assert(chars_fold(wrap_start(), line, w, 0).0 =~= Seq::new(0, f));
    } else {
        let jp = j - 1;
        lemma_unit_chars_fold(line, w, jp);
        let prev = chars_fold(wrap_start(), line, w, jp);
        let qp = if jp == 0 { 0 } else { (jp - 1) / ww };
        let c = line[jp];
        assert(!white_space(c) && char_weight_spec(c, w.tab_width) == 1);
        lemma_div_parts(j - 1, ww);
        let q = (j - 1) / ww;
        if jp == 0 {
            assert(q == 0) by {
                vstd::arithmetic::div_mod::lemma_fundamental_div_mod_converse(0, ww, 0, 0);
            }
            assert(chars_fold(wrap_start(), line, w, j).0 =~= Seq::new(0, f));
        } else {
            lemma_div_parts(jp - 1, ww);
            assert(qp * ww <= jp - 1 < qp * ww + ww);
            if jp - qp * ww == ww {
                assert(jp == (qp + 1) * ww) by (nonlinear_arith)
                    requires
                        jp - qp * ww == ww,
                ;
                vstd::arithmetic::div_mod::lemma_fundamental_div_mod_converse(j - 1, ww, qp + 1, 0);
                assert(q == qp + 1);
                assert((qp + 1) * ww == qp * ww + ww) by (nonlinear_arith);
                assert(prev.0.push(row_at(w, (qp * ww) as u32, w.wrap_width, qp as u32)) =~= Seq::new(
                    (qp + 1) as nat,
                    f,
                ));
            } else {
                vstd::arithmetic::div_mod::lemma_fundamental_div_mod_converse(j - 1, ww, qp, jp - qp * ww);
                assert(q == qp);
            }
        }
    }
}

/// Word wrap cuts a line with no white space whose chars are each one
/// column wide exactly as char wrap does: every row but the last is as wide
/// as the wrap width, and the last holds the rest. So a token wider than
/// the wrap width fills each row it is cut into.
pub proof fn lemma_word_wrap_of_unbroken_unit_line(line: Seq<char>, w: WrapLine)
    requires
        line.len() > 0,
        line.len() < u32::MAX,
        w.wrap_width > 0,
        unbroken_unit_line(line, w.tab_width),
    ensures
        word_wrap_rows(line, w) == char_wrap_rows(line.len() as u32, w),
{
    let n = line.len() as int;
    let ww = w.wrap_width as int;
    lemma_unit_split(line, w.tab_width, n);
    assert(line.take(n) =~= line);
    let tokens = ws_tokens(line);
    assert(tokens =~= seq![line]);
    assert(tokens_fold(tokens, w, 0) == wrap_start());
    assert(tokens_fold(tokens, w, 1) == token_step(wrap_start(), line, w));
    assert(!white_space(line.last()));
    let wr = word_wrap_rows(line, w);
    let cr = char_wrap_rows(n as u32, w);
    lemma_div_parts(n - 1, ww);
    let q = (n - 1) / ww;
    assert((q + 1) * ww == q * ww + ww) by (nonlinear_arith);
    vstd::arithmetic::div_mod::lemma_fundamental_div_mod_converse(n + ww - 1, ww, q + 1, n - 1 - q * ww);
    assert(cr.len() == q + 1);
    if n <= ww {
        assert(q == 0) by {
            vstd::arithmetic::div_mod::lemma_fundamental_div_mod_converse(n - 1, ww, 0, n - 1);
        }
        assert(wr =~= cr);
    } else {
        lemma_unit_chars_fold(line, w, n);
        let f = |k: int| row_at(w, (k * w.wrap_width) as u32, w.wrap_width, k as u32);
        assert(wr.len() == q + 1);
        assert forall|k: int| 0 <= k < q + 1 implies wr[k] == cr[k] by {
            assert(0 <= k * ww <= q * ww) by (nonlinear_arith)
                requires
                    0 <= k <= q,
                    ww > 0,
            ;
            if k < q {
                assert(k * ww + ww <= q * ww) by (nonlinear_arith)
                    requires
                        k < q,
                        ww > 0,
                ;
                assert(wr[k] == f(k));
            }
        }
        assert(wr =~= cr);
    }
}

proof fn lemma_rows_upto_word_is_char(text: Seq<char>, tab_width: u8, wrap_width: u32, n: int)
    requires
        wrap_width > 0,
        0 <= n <= lines_of(text).len(),
        forall|i: int|
            0 <= i < lines_of(text).len() ==> #[trigger] unbroken_unit_line(lines_of(text)[i], tab_width)
                && lines_of(text)[i].len() < u32::MAX,
    ensures
        rows_upto(text, tab_width, Some(wrap_width), 2, n) == rows_upto(text, tab_width, Some(wrap_width), 1, n),
    decreases n,
{
    if n > 0 {
        lemma_rows_upto_word_is_char(text, tab_width, wrap_width, n - 1);
        let line = lines_of(text)[n - 1];
        assert(unbroken_unit_line(line, tab_width));
        if line.len() != 0 {
            let start = crate::word::or_else(crate::text::line_start(text, tab_width, (n - 1) as u32 as int), 0);
            let w = WrapLine { line_start: start, source: (n - 1) as u32, wrap_width, tab_width };
            lemma_unit_split(line, tab_width, line.len() as int);
            lemma_word_wrap_of_unbroken_unit_line(line, w);
        }
        assert(line_rows(text, tab_width, Some(wrap_width), 2, n - 1) == line_rows(
            text,
            tab_width,
            Some(wrap_width),
            1,
            n - 1,
        ));
    }
}

/// A text whose lines have no white space and only one-column chars wraps
/// the same by words as by chars: word wrap cuts a word wider than the
/// wrap width into rows exactly as wide as the wrap width, the last row
/// holding the rest.
pub proof fn lemma_word_wrap_matches_char_wrap(text: Seq<char>, tab_width: u8, wrap_width: u32)
    requires
        wrap_width > 0,
        forall|i: int|
            0 <= i < lines_of(text).len() ==> #[trigger] unbroken_unit_line(lines_of(text)[i], tab_width)
                && lines_of(text)[i].len() < u32::MAX,
    ensures
        virtual_lines_spec(text, tab_width, Some(wrap_width), 2) == virtual_lines_spec(text, tab_width, Some(wrap_width), 1),
{
    if text.len() > 0 {
        crate::text::lemma_split_lines_nonempty(text);
        lemma_rows_upto_word_is_char(text, tab_width, wrap_width, lines_of(text).len() as int);
    }
}

} // verus!
