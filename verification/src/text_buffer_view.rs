//! A view of a text buffer: virtual lines (the logical lines, wrapped by
//! char or by word), a viewport, and a selection of weight offsets.
use crate::text::{
    char_weight, char_weight_spec, copy_range, encode_chars, lemma_split_lines_len_bound, line_range,
    line_start, line_start_offset, lines_of, next_offset, next_offset_spec, sat, slice_by_weight_offsets,
    text_width, weight_slice, width_prefix,
};
use crate::text_buffer::{copy_bytes_to_out, Rgba, TextBufferState};
use crate::word::{is_whitespace_char, or_else, white_space};
use vstd::prelude::*;

verus! {

/// One row of the view: where it starts (a weight offset), how many columns
/// it spans, the logical line it comes from and its index among that line's
/// rows.
#[derive(Clone, Copy, Debug, PartialEq, Eq, Structural)]
pub struct VirtualLine {
    pub start_offset: u32,
    pub width_cols: u32,
    pub source_line: u32,
    pub wrap_index: u32,
}

/// What the word wrap of one logical line carries from token to token.
#[derive(Clone, Copy, Debug, PartialEq, Eq, Structural)]
pub struct WordWrapState {
    pub segment_start: u32,
    pub current: u32,
    pub last_break: Option<u32>,
    pub wrap_index: u32,
}

/// The fixed inputs of wrapping one logical line.
#[derive(Clone, Copy, Debug, PartialEq, Eq, Structural)]
pub struct WrapLine {
    pub line_start: u32,
    pub source: u32,
    pub wrap_width: u32,
    pub tab_width: u8,
}

pub open spec fn sat_sub(a: u32, b: u32) -> u32 {
    if a >= b { (a - b) as u32 } else { 0 }
}

pub open spec fn sat_add(a: u32, b: int) -> u32 {
    sat(a + b) as u32
}

/// A row of a logical line from column `start_col`, `width` columns wide.
pub open spec fn row_at(w: WrapLine, start_col: u32, width: u32, wrap_index: u32) -> VirtualLine {
    VirtualLine { start_offset: sat_add(w.line_start, start_col as int), width_cols: width, source_line: w.source, wrap_index }
}

/// The tokens of a line as `str::split_inclusive` on white space cuts it:
/// each ends just after a white-space char, but the last, which may end
/// without one; no token is empty.
pub open spec fn ws_tokens(line: Seq<char>) -> Seq<Seq<char>> {
    let (done, rest) = ws_split(line, line.len() as int);
    if rest.len() == 0 {
        done
    } else {
        done.push(rest)
    }
}

/// The closed tokens of the first `n` chars and the open one.
pub open spec fn ws_split(line: Seq<char>, n: int) -> (Seq<Seq<char>>, Seq<char>)
    decreases n,
{
    if n <= 0 {
        (Seq::empty(), Seq::empty())
    } else {
        let (done, cur) = ws_split(line, n - 1);
        let c = line[n - 1];
        if white_space(c) {
            (done.push(cur.push(c)), Seq::empty())
        } else {
            (done, cur.push(c))
        }
    }
}

/// Closes the current row at the last break (or at the current column).
pub open spec fn break_row(s: (Seq<VirtualLine>, WordWrapState), w: WrapLine) -> (Seq<VirtualLine>, WordWrapState) {
    let st = s.1;
    let end_col = or_else(st.last_break, st.current);
    (
        s.0.push(row_at(w, st.segment_start, sat_sub(end_col, st.segment_start), st.wrap_index)),
        WordWrapState {
            segment_start: end_col,
            current: end_col,
            last_break: None,
            wrap_index: sat_add(st.wrap_index, 1),
        },
    )
}

/// One char of a token wider than the wrap width: a row closes before it
/// when it would not fit.
pub open spec fn char_step(s: (Seq<VirtualLine>, WordWrapState), c: char, w: WrapLine) -> (
    Seq<VirtualLine>,
    WordWrapState,
) {
    let st = s.1;
    let cw = char_weight_spec(c, w.tab_width);
    let s1 = if st.current > st.segment_start && sat(sat_sub(st.current, st.segment_start) + cw) > w.wrap_width {
        (
            s.0.push(row_at(w, st.segment_start, sat_sub(st.current, st.segment_start), st.wrap_index)),
            WordWrapState { segment_start: st.current, wrap_index: sat_add(st.wrap_index, 1), ..st },
        )
    } else {
        s
    };
    let cur = sat_add(s1.1.current, cw);
    (
        s1.0,
        WordWrapState {
            current: cur,
            last_break: if white_space(c) { Some(cur) } else { s1.1.last_break },
            ..s1.1
        },
    )
}

pub open spec fn chars_fold(s: (Seq<VirtualLine>, WordWrapState), token: Seq<char>, w: WrapLine, j: int) -> (
    Seq<VirtualLine>,
    WordWrapState,
)
    decreases j,
{
    if j <= 0 {
        s
    } else {
        char_step(chars_fold(s, token, w, j - 1), token[j - 1], w)
    }
}

/// One token: a token wider than the wrap width is cut char by char, any
/// other goes to a new row when it does not fit on the current one.
pub open spec fn token_step(s: (Seq<VirtualLine>, WordWrapState), token: Seq<char>, w: WrapLine) -> (
    Seq<VirtualLine>,
    WordWrapState,
) {
    let st = s.1;
    let token_width = width_prefix(token, w.tab_width, token.len() as int);
    if token_width > w.wrap_width {
        let s1 = if st.current > st.segment_start { break_row(s, w) } else { s };
        chars_fold(s1, token, w, token.len() as int)
    } else {
        let s1 = if st.current > 0 && sat(st.current + token_width) > w.wrap_width { break_row(s, w) } else { s };
        let cur = sat_add(s1.1.current, token_width);
        (
            s1.0,
            WordWrapState {
                current: cur,
                last_break: if token.len() > 0 && white_space(token.last()) { Some(cur) } else { s1.1.last_break },
                ..s1.1
            },
        )
    }
}

pub open spec fn tokens_fold(tokens: Seq<Seq<char>>, w: WrapLine, k: int) -> (Seq<VirtualLine>, WordWrapState)
    decreases k,
{
    if k <= 0 {
        (Seq::empty(), WordWrapState { segment_start: 0, current: 0, last_break: None, wrap_index: 0 })
    } else {
        token_step(tokens_fold(tokens, w, k - 1), tokens[k - 1], w)
    }
}

/// The rows of a non-empty line wrapped at word boundaries.
pub open spec fn word_wrap_rows(line: Seq<char>, w: WrapLine) -> Seq<VirtualLine> {
    let tokens = ws_tokens(line);
    let (rows, st) = tokens_fold(tokens, w, tokens.len() as int);
    let line_width = width_prefix(line, w.tab_width, line.len() as int) as u32;
    rows.push(row_at(w, st.segment_start, sat_sub(line_width, st.segment_start), st.wrap_index))
}

/// The number of rows of a line `line_width` columns wide cut every
/// `wrap_width` columns; one for a line of width 0.
pub open spec fn char_wrap_count(line_width: u32, wrap_width: u32) -> int {
    if line_width == 0 {
        1
    } else {
        (line_width + wrap_width - 1) / (wrap_width as int)
    }
}

/// The rows of a non-empty line cut every `wrap_width` columns.
pub open spec fn char_wrap_rows(line_width: u32, w: WrapLine) -> Seq<VirtualLine> {
    Seq::new(
        char_wrap_count(line_width, w.wrap_width) as nat,
        |k: int|
            {
                let start_col = k * w.wrap_width;
                let rest = if line_width >= start_col { line_width - start_col } else { 0 };
                VirtualLine {
                    start_offset: sat_add(w.line_start, start_col),
                    width_cols: if rest <= w.wrap_width { rest as u32 } else { w.wrap_width },
                    source_line: w.source,
                    wrap_index: k as u32,
                }
            },
    )
}

/// The rows of logical line `i` of a non-empty text.
pub open spec fn line_rows(text: Seq<char>, tab_width: u8, wrap: Option<u32>, mode: u8, i: int) -> Seq<VirtualLine> {
    let line = lines_of(text)[i];
    let source = i as u32;
    let start = or_else(line_start(text, tab_width, source as int), 0);
    let line_width = width_prefix(line, tab_width, line.len() as int) as u32;
    let w = WrapLine { line_start: start, source, wrap_width: or_else(wrap, 0), tab_width };
    if line.len() == 0 {
        seq![VirtualLine { start_offset: start, width_cols: 0, source_line: source, wrap_index: 0 }]
    } else if wrap is None {
        seq![VirtualLine { start_offset: start, width_cols: line_width, source_line: source, wrap_index: 0 }]
    } else if mode == 2 {
        word_wrap_rows(line, w)
    } else {
        char_wrap_rows(line_width, w)
    }
}

pub open spec fn rows_upto(text: Seq<char>, tab_width: u8, wrap: Option<u32>, mode: u8, n: int) -> Seq<VirtualLine>
    decreases n,
{
    if n <= 0 {
        Seq::empty()
    } else {
        rows_upto(text, tab_width, wrap, mode, n - 1) + line_rows(text, tab_width, wrap, mode, n - 1)
    }
}

/// The virtual lines of a text: one empty row for an empty text, else the
/// rows of each logical line in order. `wrap` is the wrap width, `None` for
/// no wrapping; `mode` 2 wraps at words, any other mode at chars.
pub open spec fn virtual_lines_spec(text: Seq<char>, tab_width: u8, wrap: Option<u32>, mode: u8) -> Seq<VirtualLine> {
    if text.len() == 0 {
        seq![VirtualLine { start_offset: 0, width_cols: 0, source_line: 0, wrap_index: 0 }]
    } else {
        rows_upto(text, tab_width, wrap, mode, lines_of(text).len() as int)
    }
}

/// Cuts a line into white-space-ended tokens.
pub fn split_ws_tokens(line: &[char]) -> (r: Vec<Vec<char>>)
    ensures
        r@.map_values(|t: Vec<char>| t@) == ws_tokens(line@),
{
    let mut done: Vec<Vec<char>> = Vec::new();
    let mut cur: Vec<char> = Vec::new();
    let mut i: usize = 0;
    while i < line.len()
        invariant
            i <= line@.len(),
            (done@.map_values(|t: Vec<char>| t@), cur@) == ws_split(line@, i as int),
        decreases line@.len() - i,
    {
        let c = line[i];
        cur.push(c);
        if is_whitespace_char(c) {
            let token = cur;
            cur = Vec::new();
            let ghost before = done@.map_values(|t: Vec<char>| t@);
            done.push(token);
            proof {
                assert(done@.map_values(|t: Vec<char>| t@) =~= before.push(token@));
            }
        }
        i = i + 1;
    }
    if cur.len() > 0 {
        let ghost before = done@.map_values(|t: Vec<char>| t@);
        done.push(cur);
        proof {
            assert(done@.map_values(|t: Vec<char>| t@) =~= before.push(ws_split(line@, line@.len() as int).1));
        }
    }
    done
}

fn break_row_exec(rows: &mut Vec<VirtualLine>, st: WordWrapState, w: WrapLine) -> (r: WordWrapState)
    ensures
        (final(rows)@, r) == break_row((old(rows)@, st), w),
{
    let end_col = match st.last_break {
        Some(b) => b,
        None => st.current,
    };
    rows.push(
        VirtualLine {
            start_offset: w.line_start.saturating_add(st.segment_start),
            width_cols: end_col.saturating_sub(st.segment_start),
            source_line: w.source,
            wrap_index: st.wrap_index,
        },
    );
    WordWrapState { segment_start: end_col, current: end_col, last_break: None, wrap_index: st.wrap_index.saturating_add(1) }
}

fn token_step_exec(rows: &mut Vec<VirtualLine>, st: WordWrapState, token: &[char], w: WrapLine) -> (r: WordWrapState)
    ensures
        (final(rows)@, r) == token_step((old(rows)@, st), token@, w),
{
    let token_width = text_width(token, w.tab_width);
    if token_width > w.wrap_width {
        let mut s = if st.current > st.segment_start {
            break_row_exec(rows, st, w)
        } else {
            st
        };
        let ghost s1 = (rows@, s);
        let mut j: usize = 0;
        while j < token.len()
            invariant
                j <= token@.len(),
                (rows@, s) == chars_fold(s1, token@, w, j as int),
            decreases token@.len() - j,
        {
            let c = token[j];
            let cw = char_weight(c, w.tab_width);
            if s.current > s.segment_start && s.current.saturating_sub(s.segment_start).saturating_add(cw)
                > w.wrap_width {
                rows.push(
                    VirtualLine {
                        start_offset: w.line_start.saturating_add(s.segment_start),
                        width_cols: s.current.saturating_sub(s.segment_start),
                        source_line: w.source,
                        wrap_index: s.wrap_index,
                    },
                );
                s = WordWrapState { segment_start: s.current, wrap_index: s.wrap_index.saturating_add(1), ..s };
            }
            s.current = s.current.saturating_add(cw);
            if is_whitespace_char(c) {
                s.last_break = Some(s.current);
            }
            j = j + 1;
        }
        s
    } else {
        let mut s = if st.current > 0 && st.current.saturating_add(token_width) > w.wrap_width {
            break_row_exec(rows, st, w)
        } else {
            st
        };
        s.current = s.current.saturating_add(token_width);
        if token.len() > 0 && is_whitespace_char(token[token.len() - 1]) {
            s.last_break = Some(s.current);
        }
        s
    }
}

fn word_wrap_exec(rows: &mut Vec<VirtualLine>, line: &[char], w: WrapLine)
    ensures
        final(rows)@ == old(rows)@ + word_wrap_rows(line@, w),
{
    let tokens = split_ws_tokens(line);
    let ghost ts = tokens@.map_values(|t: Vec<char>| t@);
    let mut mine: Vec<VirtualLine> = Vec::new();
    let mut st = WordWrapState { segment_start: 0, current: 0, last_break: None, wrap_index: 0 };
    let mut k: usize = 0;
    while k < tokens.len()
        invariant
            k <= tokens@.len(),
            ts == tokens@.map_values(|t: Vec<char>| t@),
            ts == ws_tokens(line@),
            (mine@, st) == tokens_fold(ts, w, k as int),
        decreases tokens@.len() - k,
    {
        assert(ts[k as int] == tokens@[k as int]@);
        st = token_step_exec(&mut mine, st, tokens[k].as_slice(), w);
        k = k + 1;
    }
    let line_width = text_width(line, w.tab_width);
    mine.push(
        VirtualLine {
            start_offset: w.line_start.saturating_add(st.segment_start),
            width_cols: line_width.saturating_sub(st.segment_start),
            source_line: w.source,
            wrap_index: st.wrap_index,
        },
    );
    append_rows(rows, &mine);
}

fn append_rows(rows: &mut Vec<VirtualLine>, more: &Vec<VirtualLine>)
    ensures
        final(rows)@ == old(rows)@ + more@,
{
    let mut i: usize = 0;
    while i < more.len()
        invariant
            i <= more@.len(),
            rows@ == old(rows)@ + more@.take(i as int),
        decreases more@.len() - i,
    {
        rows.push(more[i]);
        proof {
            assert(old(rows)@ + more@.take(i + 1) =~= (old(rows)@ + more@.take(i as int)).push(more@[i as int]));
        }
        i = i + 1;
    }
    proof {
        assert(more@.take(more@.len() as int) =~= more@);
    }
}

fn char_wrap_exec(rows: &mut Vec<VirtualLine>, line_width: u32, w: WrapLine)
    requires
        w.wrap_width > 0,
    ensures
        final(rows)@ == old(rows)@ + char_wrap_rows(line_width, w),
{
    let segments: u32 = if line_width == 0 {
        1
    } else {
        let q = line_width / w.wrap_width;
        if line_width % w.wrap_width == 0 {
            q
        } else {
            assert(q < u32::MAX) by (nonlinear_arith)
                requires q == line_width / w.wrap_width, line_width % w.wrap_width != 0, w.wrap_width > 0;
            q + 1
        }
    };
    proof {
        if line_width > 0 {
            let q = line_width / w.wrap_width;
            let r = line_width % w.wrap_width;
            assert(line_width == q * w.wrap_width + r) by (nonlinear_arith)
                requires q == line_width / w.wrap_width, r == line_width % w.wrap_width, w.wrap_width > 0;
            assert((line_width + w.wrap_width - 1) / (w.wrap_width as int) == q + if r == 0 { 0int } else { 1int })
                by (nonlinear_arith)
                requires line_width == q * w.wrap_width + r, 0 <= r < w.wrap_width, w.wrap_width > 0, q >= 0;
        }
    }
    let ghost target = char_wrap_rows(line_width, w);
    let mut k: u32 = 0;
    while k < segments
        invariant
            k <= segments,
            segments == char_wrap_count(line_width, w.wrap_width),
            w.wrap_width > 0,
            target == char_wrap_rows(line_width, w),
            rows@ == old(rows)@ + target.take(k as int),
        decreases segments - k,
    {
        proof {
            if line_width > 0 {
                assert(k * w.wrap_width < line_width) by (nonlinear_arith)
                    requires
                        k < segments,
                        segments == (line_width + w.wrap_width - 1) / (w.wrap_width as int),
                        w.wrap_width > 0;
            } else {
                assert(k == 0);
            }
        }
        let start_col = k * w.wrap_width;
        let rest = line_width.saturating_sub(start_col);
        rows.push(
            VirtualLine {
                start_offset: w.line_start.saturating_add(start_col),
                width_cols: if rest <= w.wrap_width { rest } else { w.wrap_width },
                source_line: w.source,
                wrap_index: k,
            },
        );
        proof {
            assert(old(rows)@ + target.take(k + 1) =~= (old(rows)@ + target.take(k as int)).push(target[k as int]));
        }
        k = k + 1;
    }
    proof {
        assert(target.take(segments as int) =~= target);
    }
}

/// The virtual lines of a text (see `virtual_lines_spec`).
pub fn compute_virtual_lines(text: &[char], tab_width: u8, wrap: Option<u32>, mode: u8) -> (r: Vec<VirtualLine>)
    requires
        wrap matches Some(x) ==> x > 0,
    ensures
        r@ == virtual_lines_spec(text@, tab_width, wrap, mode),
{
    let mut rows: Vec<VirtualLine> = Vec::new();
    if text.len() == 0 {
        rows.push(VirtualLine { start_offset: 0, width_cols: 0, source_line: 0, wrap_index: 0 });
        proof {
            assert(rows@ =~= seq![VirtualLine { start_offset: 0, width_cols: 0, source_line: 0, wrap_index: 0 }]);
        }
        return rows;
    }
    let mut i: usize = 0;
    loop
        invariant
            text@.len() > 0,
            wrap matches Some(x) ==> x > 0,
            i <= lines_of(text@).len(),
            rows@ == rows_upto(text@, tab_width, wrap, mode, i as int),
        decreases lines_of(text@).len() - i,
    {
        let (a, b) = match line_range(text, i) {
            Some(p) => p,
            None => {
                return rows;
            },
        };
        let line = copy_range(text, a, b);
        let source = i as u32;
        let start = match line_start_offset(text, tab_width, source) {
            Some(o) => o,
            None => 0,
        };
        let line_width = text_width(line.as_slice(), tab_width);
        let ghost before = rows@;
        if line.len() == 0 {
            rows.push(VirtualLine { start_offset: start, width_cols: 0, source_line: source, wrap_index: 0 });
        } else {
            match wrap {
                None => {
                    rows.push(VirtualLine { start_offset: start, width_cols: line_width, source_line: source, wrap_index: 0 });
                },
                Some(ww) => {
                    let w = WrapLine { line_start: start, source, wrap_width: ww, tab_width };
                    if mode == 2 {
                        word_wrap_exec(&mut rows, line.as_slice(), w);
                    } else {
                        char_wrap_exec(&mut rows, line_width, w);
                    }
                },
            }
        }
        proof {
            assert(rows@ =~= before + line_rows(text@, tab_width, wrap, mode, i as int));
        }
        if i == usize::MAX {
            proof {
                lemma_split_lines_len_bound(text@);
                assert(text@.len() == text.len());
            }
            return rows;
        }
        i = i + 1;
    }
}

/// The selection of two offsets in order, none when they are equal.
pub open spec fn normalize_selection_spec(start: u32, end: u32) -> Option<(u32, u32)> {
    if start == end {
        None
    } else if start < end {
        Some((start, end))
    } else {
        Some((end, start))
    }
}

pub fn normalize_selection(start: u32, end: u32) -> (r: Option<(u32, u32)>)
    ensures
        r == normalize_selection_spec(start, end),
{
    if start == end {
        None
    } else if start < end {
        Some((start, end))
    } else {
        Some((end, start))
    }
}

/// The packed selection when there is none.
pub const NO_SELECTION: u64 = 0xffff_ffff_ffff_ffffu64;

/// The selection packed as `start << 32 | end`, or `NO_SELECTION`.
pub open spec fn packed_selection(selection: Option<(u32, u32)>) -> u64 {
    match selection {
        Some((start, end)) => (start * 0x1_0000_0000 + end) as u64,
        None => NO_SELECTION,
    }
}

/// The UTF-8 bytes of the text a selection covers, none without one.
pub open spec fn weight_slice_bytes(selection: Option<(u32, u32)>, buffer: TextBufferState) -> Seq<u8> {
    match selection {
        Some((s, e)) => vstd::utf8::encode_utf8(
            weight_slice(buffer.text_view(), buffer.tab_width_view(), s as int, e as int),
        ),
        None => Seq::empty(),
    }
}

/// The wrap width in force: none for logical lines or wrap mode 0, nor for
/// a width of 0.
pub open spec fn effective_wrap(logical_only: bool, mode: u8, width: Option<u32>) -> Option<u32> {
    if logical_only || mode == 0 {
        None
    } else {
        match width {
            Some(w) => if w > 0 { Some(w) } else { None },
            None => None,
        }
    }
}

pub open spec fn clip_u32(n: int) -> u32 {
    if n > u32::MAX { u32::MAX } else { n as u32 }
}

pub open spec fn clip_i32(n: int) -> i32 {
    if n > i32::MAX { i32::MAX } else { n as i32 }
}

pub open spec fn min_u32(a: u32, b: u32) -> u32 {
    if a <= b { a } else { b }
}

/// The widest row's width, 0 for no rows.
pub open spec fn max_width(rows: Seq<VirtualLine>) -> u32
    decreases rows.len(),
{
    if rows.len() == 0 {
        0
    } else {
        let m = max_width(rows.drop_last());
        if rows.last().width_cols > m { rows.last().width_cols } else { m }
    }
}

/// The offset just past row `i`: where the next row starts, or the row's
/// end plus `extra` for the last row.
pub open spec fn next_row_start(rows: Seq<VirtualLine>, i: int, extra: int) -> u32 {
    if i + 1 < rows.len() {
        rows[i + 1].start_offset
    } else {
        sat_add(sat_add(rows[i].start_offset, rows[i].width_cols as int), extra)
    }
}

/// The end of the last row, 0 for no rows.
pub open spec fn text_end_spec(rows: Seq<VirtualLine>) -> u32 {
    if rows.len() == 0 {
        0
    } else {
        sat_add(rows.last().start_offset, rows.last().width_cols as int)
    }
}

/// From `offset`, steps one char at a time while the next char boundary
/// stays within `target`.
pub open spec fn snap_from(text: Seq<char>, tab_width: u8, offset: u32, target: u32) -> u32
    decreases target - offset,
{
    if offset >= target {
        offset
    } else {
        let next = next_offset_spec(text, tab_width, offset as int);
        if next <= offset || next > target {
            offset
        } else {
            snap_from(text, tab_width, next as u32, target)
        }
    }
}

/// The char boundary of a row nearest below column `col` of it.
pub open spec fn snap_spec(text: Seq<char>, tab_width: u8, row: VirtualLine, col: u32) -> u32 {
    snap_from(text, tab_width, row.start_offset, sat_add(row.start_offset, min_u32(col, row.width_cols) as int))
}

/// The first row from `i` whose span `[start, next start)` holds `offset`,
/// or -1.
pub open spec fn row_holding(rows: Seq<VirtualLine>, offset: u32, i: int) -> int
    decreases rows.len() - i,
{
    if i < 0 || i >= rows.len() {
        -1
    } else if rows[i].start_offset <= offset < next_row_start(rows, i, 1) {
        i
    } else {
        row_holding(rows, offset, i + 1)
    }
}

/// (visual row, visual column, logical row, logical column, offset) of an
/// offset; (0, 0, ...) when no row holds it.
pub open spec fn visual_cursor_spec(rows: Seq<VirtualLine>, offset: u32, logical_row: u32, logical_col: u32) -> (
    u32,
    u32,
    u32,
    u32,
    u32,
) {
    let i = row_holding(rows, offset, 0);
    if i < 0 {
        (0, 0, logical_row, logical_col, offset)
    } else {
        (clip_u32(i), min_u32(sat_sub(offset, rows[i].start_offset), rows[i].width_cols), logical_row, logical_col, offset)
    }
}

/// One row as the viewport shows it, with the part of the selection on it.
#[derive(Clone, Copy, Debug, PartialEq, Eq, Structural)]
pub struct VisibleLine {
    pub viewport_row: u32,
    pub start_offset: u32,
    pub end_offset: u32,
    pub selection_start: Option<u32>,
    pub selection_end: Option<u32>,
}

#[derive(Clone, Copy, Debug, Default, PartialEq, Eq, Structural)]
pub struct MeasureResultOut {
    pub line_count: u32,
    pub width_cols_max: u32,
}

/// The rows of a view, column by column.
#[derive(Debug)]
pub struct LineInfoOut {
    pub start_cols: Vec<u32>,
    pub start_cols_len: u32,
    pub width_cols: Vec<u32>,
    pub width_cols_len: u32,
    pub sources: Vec<u32>,
    pub sources_len: u32,
    pub wraps: Vec<u32>,
    pub wraps_len: u32,
    pub width_cols_max: u32,
}

/// Row `k` of the viewport that starts at row `start`.
pub open spec fn visible_row(rows: Seq<VirtualLine>, start: int, k: int, selection: Option<(u32, u32)>) -> VisibleLine {
    let i = start + k;
    let next = next_row_start(rows, i, 0);
    let (sel_start, sel_end) = match selection {
        Some((s, e)) => {
            let a = if s >= rows[i].start_offset { s } else { rows[i].start_offset };
            let b = min_u32(e, next);
            if a < b { (Some(a), Some(b)) } else { (None, None) }
        },
        None => (None, None),
    };
    VisibleLine {
        viewport_row: clip_u32(k),
        start_offset: rows[i].start_offset,
        end_offset: next,
        selection_start: sel_start,
        selection_end: sel_end,
    }
}

/// The rows the viewport shows: from row `viewport_y`, `viewport_height`
/// of them (all the rest for a height of 0, at least one).
pub open spec fn visible_lines_spec(rows: Seq<VirtualLine>, viewport_y: u32, viewport_height: u32, selection: Option<(
    u32,
    u32,
)>) -> Seq<VisibleLine> {
    let start = viewport_y as int;
    let height = if viewport_height == 0 {
        if rows.len() >= start { rows.len() - start } else { 0 }
    } else {
        viewport_height as int
    };
    let h = if height < 1 { 1 } else { height };
    let end = if rows.len() <= start + h { rows.len() as int } else { start + h };
    if rows.len() == 0 || end <= start {
        Seq::empty()
    } else {
        Seq::new((end - start) as nat, |k: int| visible_row(rows, start, k, selection))
    }
}

pub struct TextBufferViewState {
    selection: Option<(u32, u32)>,
    selection_bg: Option<Rgba>,
    selection_fg: Option<Rgba>,
    local_selection_anchor: Option<u32>,
    wrap_width: Option<u32>,
    wrap_mode: u8,
    viewport_x: u32,
    viewport_y: u32,
    viewport_width: u32,
    viewport_height: u32,
    tab_indicator: Option<u32>,
    tab_indicator_color: Option<Rgba>,
    truncate: bool,
}

impl TextBufferViewState {
    pub closed spec fn selection_view(&self) -> Option<(u32, u32)> {
        self.selection
    }

    pub closed spec fn colors_view(&self) -> (Option<Rgba>, Option<Rgba>) {
        (self.selection_bg, self.selection_fg)
    }

    pub closed spec fn anchor_view(&self) -> Option<u32> {
        self.local_selection_anchor
    }

    pub closed spec fn wrap_width_view(&self) -> Option<u32> {
        self.wrap_width
    }

    pub closed spec fn wrap_mode_view(&self) -> u8 {
        self.wrap_mode
    }

    /// (x, y, width, height) of the viewport.
    pub closed spec fn viewport_view(&self) -> (u32, u32, u32, u32) {
        (self.viewport_x, self.viewport_y, self.viewport_width, self.viewport_height)
    }

    pub closed spec fn tab_indicator_view(&self) -> (Option<u32>, Option<Rgba>) {
        (self.tab_indicator, self.tab_indicator_color)
    }

    pub closed spec fn truncate_view(&self) -> bool {
        self.truncate
    }

    /// The view with another selection, colors and anchor.
    pub closed spec fn with_selection(
        &self,
        selection: Option<(u32, u32)>,
        colors: (Option<Rgba>, Option<Rgba>),
        anchor: Option<u32>,
    ) -> Self {
        TextBufferViewState {
            selection,
            selection_bg: colors.0,
            selection_fg: colors.1,
            local_selection_anchor: anchor,
            ..*self
        }
    }

    /// The view with another wrap width and wrap mode.
    pub closed spec fn with_layout(&self, wrap_width: Option<u32>, wrap_mode: u8) -> Self {
        TextBufferViewState { wrap_width, wrap_mode, ..*self }
    }

    /// The view with another viewport (x, y, width, height).
    pub closed spec fn with_viewport(&self, v: (u32, u32, u32, u32)) -> Self {
        TextBufferViewState { viewport_x: v.0, viewport_y: v.1, viewport_width: v.2, viewport_height: v.3, ..*self }
    }

    /// The view with another tab indicator and truncation flag.
    pub closed spec fn with_tab_indicator(&self, t: (Option<u32>, Option<Rgba>), truncate: bool) -> Self {
        TextBufferViewState { tab_indicator: t.0, tab_indicator_color: t.1, truncate, ..*self }
    }

    /// What each `with_` view changes and what it keeps.
    pub proof fn lemma_with(&self)
        ensures
            forall|w: Option<u32>, m: u8| #![trigger self.with_layout(w, m)]
                self.with_layout(w, m).wrap_width_view() == w && self.with_layout(w, m).wrap_mode_view() == m
                    && self.with_layout(w, m).selection_view() == self.selection_view()
                    && self.with_layout(w, m).viewport_view() == self.viewport_view(),
            forall|w1: Option<u32>, m1: u8, w2: Option<u32>, m2: u8| #![trigger self.with_layout(w1, m1).with_layout(w2, m2)]
                self.with_layout(w1, m1).with_layout(w2, m2) == self.with_layout(w2, m2),
            forall|v: (u32, u32, u32, u32)| #![trigger self.with_viewport(v)]
                self.with_viewport(v).viewport_view() == v && self.with_viewport(v).wrap_mode_view() == self.wrap_mode_view()
                    && self.with_viewport(v).wrap_width_view() == self.wrap_width_view(),
    {
    }

    /// The rows this view shows of a buffer; `logical_only` leaves them
    /// unwrapped.
    pub open spec fn rows_of(&self, buffer: &TextBufferState, logical_only: bool) -> Seq<VirtualLine> {
        virtual_lines_spec(
            buffer.text_view(),
            buffer.tab_width_view(),
            effective_wrap(logical_only, self.wrap_mode_view(), self.wrap_width_view()),
            self.wrap_mode_view(),
        )
    }

    /// A view with no selection, no wrapping and an empty viewport.
    pub closed spec fn initial() -> Self {
        TextBufferViewState {
            selection: None,
            selection_bg: None,
            selection_fg: None,
            local_selection_anchor: None,
            wrap_width: None,
            wrap_mode: 0,
            viewport_x: 0,
            viewport_y: 0,
            viewport_width: 0,
            viewport_height: 0,
            tab_indicator: None,
            tab_indicator_color: None,
            truncate: false,
        }
    }

    pub fn new() -> (v: Self)
        ensures
            v == Self::initial(),
            v.selection_view() is None,
            v.colors_view() == (None::<Rgba>, None::<Rgba>),
            v.anchor_view() is None,
            v.wrap_width_view() is None,
            v.wrap_mode_view() == 0,
            v.viewport_view() == (0u32, 0u32, 0u32, 0u32),
            v.tab_indicator_view() == (None::<u32>, None::<Rgba>),
            !v.truncate_view(),
    {
        TextBufferViewState {
            selection: None,
            selection_bg: None,
            selection_fg: None,
            local_selection_anchor: None,
            wrap_width: None,
            wrap_mode: 0,
            viewport_x: 0,
            viewport_y: 0,
            viewport_width: 0,
            viewport_height: 0,
            tab_indicator: None,
            tab_indicator_color: None,
            truncate: false,
        }
    }

    /// Selects between two offsets (in either order) and anchors at `start`.
    pub fn set_selection(&mut self, start: u32, end: u32, bg: Option<Rgba>, fg: Option<Rgba>)
        ensures
            *final(self) == old(self).with_selection(normalize_selection_spec(start, end), (bg, fg), Some(start)),
    {
        self.selection = normalize_selection(start, end);
        self.selection_bg = bg;
        self.selection_fg = fg;
        self.local_selection_anchor = Some(start);
    }

    /// Moves the selection's end, keeping its anchor (or its start).
    pub fn update_selection(&mut self, end: u32, bg: Option<Rgba>, fg: Option<Rgba>)
        ensures
            *final(self) == old(self).with_selection(
                match old(self).anchor_view() {
                    Some(a) => normalize_selection_spec(a, end),
                    None => match old(self).selection_view() {
                        Some(p) => normalize_selection_spec(p.0, end),
                        None => None,
                    },
                },
                (bg, fg),
                old(self).anchor_view(),
            ),
    {
        let anchor = match self.local_selection_anchor {
            Some(a) => Some(a),
            None => match self.selection {
                Some((start, _)) => Some(start),
                None => None,
            },
        };
        self.selection = match anchor {
            Some(start) => normalize_selection(start, end),
            None => None,
        };
        self.selection_bg = bg;
        self.selection_fg = fg;
    }

    pub fn reset_selection(&mut self)
        ensures
            *final(self) == old(self).with_selection(None, (None, None), None),
    {
        self.selection = None;
        self.selection_bg = None;
        self.selection_fg = None;
        self.local_selection_anchor = None;
    }

    pub fn reset_local_selection(&mut self)
        ensures
            *final(self) == old(self).with_selection(None, (None, None), None),
    {
        self.reset_selection();
    }

    /// The selection packed as `start << 32 | end`, or `NO_SELECTION`.
    pub fn selection_info(&self) -> (r: u64)
        ensures
            r == packed_selection(self.selection_view()),
    {
        match self.selection {
            Some((start, end)) => {
                let r = ((start as u64) << 32u64) | (end as u64);
                assert(((start as u64) << 32u64) | (end as u64) == start * 0x1_0000_0000 + end) by (bit_vector);
                r
            },
            None => NO_SELECTION,
        }
    }

    /// Sets the wrap width; 0 turns wrapping off.
    pub fn set_wrap_width(&mut self, width: u32)
        ensures
            *final(self) == old(self).with_layout(if width == 0 { None } else { Some(width) }, old(self).wrap_mode_view()),
    {
        self.wrap_width = if width == 0 { None } else { Some(width) };
    }

    pub fn set_wrap_mode(&mut self, mode: u8)
        ensures
            *final(self) == old(self).with_layout(old(self).wrap_width_view(), mode),
    {
        self.wrap_mode = mode;
    }

    pub fn set_viewport_size(&mut self, width: u32, height: u32)
        ensures
            *final(self) == old(self).with_viewport((old(self).viewport_view().0, old(self).viewport_view().1, width, height)),
    {
        self.viewport_width = width;
        self.viewport_height = height;
    }

    pub fn set_viewport(&mut self, x: u32, y: u32, width: u32, height: u32)
        ensures
            *final(self) == old(self).with_viewport((x, y, width, height)),
    {
        self.viewport_x = x;
        self.viewport_y = y;
        self.viewport_width = width;
        self.viewport_height = height;
    }

    pub fn set_tab_indicator(&mut self, indicator: u32)
        ensures
            *final(self) == old(self).with_tab_indicator((Some(indicator), old(self).tab_indicator_view().1), old(self).truncate_view()),
    {
        self.tab_indicator = Some(indicator);
    }

    /// Sets the tab indicator's color (channels as `f32` bit patterns).
    pub fn set_tab_indicator_color(&mut self, color: Rgba)
        ensures
            *final(self) == old(self).with_tab_indicator((old(self).tab_indicator_view().0, Some(color)), old(self).truncate_view()),
    {
        self.tab_indicator_color = Some(color);
    }

    pub fn set_truncate(&mut self, truncate: bool)
        ensures
            *final(self) == old(self).with_tab_indicator(old(self).tab_indicator_view(), truncate),
    {
        self.truncate = truncate;
    }

    /// The selection's background and foreground colors.
    pub fn selection_colors(&self) -> (r: (Option<Rgba>, Option<Rgba>))
        ensures
            r == self.colors_view(),
    {
        (self.selection_bg, self.selection_fg)
    }

    /// The buffer's text as UTF-8 bytes.
    pub fn plain_text_bytes(&self, buffer: &TextBufferState) -> (b: Vec<u8>)
        ensures
            b@ == vstd::utf8::encode_utf8(buffer.text_view()),
    {
        buffer.plain_text_bytes()
    }

    /// The selected text as UTF-8 bytes, empty without a selection.
    pub fn selected_text_bytes(&self, buffer: &TextBufferState) -> (b: Vec<u8>)
        ensures
            b@ == weight_slice_bytes(self.selection_view(), *buffer),
    {
        match self.selection {
            Some((start, end)) => {
                let chars = slice_by_weight_offsets(buffer.text_chars(), buffer.tab_width(), start, end);
                encode_chars(chars.as_slice())
            },
            None => Vec::new(),
        }
    }

    /// The text between two weight offsets.
    pub fn text_for_offsets(&self, buffer: &TextBufferState, start: u32, end: u32) -> (s: String)
        ensures
            s@ == weight_slice(buffer.text_view(), buffer.tab_width_view(), start as int, end as int),
    {
        buffer.text_range(start, end)
    }

    fn rows(&self, buffer: &TextBufferState, logical_only: bool, width: Option<u32>) -> (r: Vec<VirtualLine>)
        ensures
            r@ == virtual_lines_spec(
                buffer.text_view(),
                buffer.tab_width_view(),
                effective_wrap(logical_only, self.wrap_mode_view(), width),
                self.wrap_mode_view(),
            ),
    {
        let wrap = if logical_only || self.wrap_mode == 0 {
            None
        } else {
            match width {
                Some(w) => if w > 0 { Some(w) } else { None },
                None => None,
            }
        };
        compute_virtual_lines(buffer.text_chars(), buffer.tab_width(), wrap, self.wrap_mode)
    }

    /// The rows of the view, wrapped as it is set to wrap.
    pub fn visual_lines(&self, buffer: &TextBufferState) -> (r: Vec<VirtualLine>)
        ensures
            r@ == self.rows_of(buffer, false),
    {
        self.rows(buffer, false, self.wrap_width)
    }

    /// The number of rows, at least 1, capped at `u32::MAX`.
    pub fn virtual_line_count(&self, buffer: &TextBufferState) -> (n: u32)
        ensures
            n == if self.rows_of(buffer, false).len() == 0 { 1 } else { clip_u32(self.rows_of(buffer, false).len() as int) },
    {
        let rows = self.rows(buffer, false, self.wrap_width);
        let n: u32 = if rows.len() > u32::MAX as usize { u32::MAX } else { rows.len() as u32 };
        if n < 1 { 1 } else { n }
    }

    /// The number of rows and the widest row when wrapped at `width`.
    pub fn measure_for_dimensions(&self, buffer: &TextBufferState, width: u32, height: u32) -> (m: MeasureResultOut)
        ensures
            ({
                let rows = virtual_lines_spec(
                    buffer.text_view(),
                    buffer.tab_width_view(),
                    effective_wrap(false, self.wrap_mode_view(), Some(width)),
                    self.wrap_mode_view(),
                );
                &&& m.line_count == if rows.len() == 0 { 1 } else { clip_u32(rows.len() as int) }
                &&& m.width_cols_max == max_width(rows)
            }),
    {
        let rows = self.rows(buffer, false, Some(width));
        let n: u32 = if rows.len() > u32::MAX as usize { u32::MAX } else { rows.len() as u32 };
        MeasureResultOut { line_count: if n < 1 { 1 } else { n }, width_cols_max: widest(&rows) }
    }

    fn line_info_of(&self, buffer: &TextBufferState, logical_only: bool) -> (r: LineInfoOut)
        ensures
            line_info_matches(r, self.rows_of(buffer, logical_only)),
    {
        let rows = self.rows(buffer, logical_only, self.wrap_width);
        let mut start_cols: Vec<u32> = Vec::new();
        let mut width_cols: Vec<u32> = Vec::new();
        let mut sources: Vec<u32> = Vec::new();
        let mut wraps: Vec<u32> = Vec::new();
        let mut i: usize = 0;
        while i < rows.len()
            invariant
                i <= rows@.len(),
                start_cols@ == Seq::new(i as nat, |k: int| rows@[k].start_offset),
                width_cols@ == Seq::new(i as nat, |k: int| rows@[k].width_cols),
                sources@ == Seq::new(i as nat, |k: int| rows@[k].source_line),
                wraps@ == Seq::new(i as nat, |k: int| rows@[k].wrap_index),
            decreases rows@.len() - i,
        {
            start_cols.push(rows[i].start_offset);
            width_cols.push(rows[i].width_cols);
            sources.push(rows[i].source_line);
            wraps.push(rows[i].wrap_index);
            proof {
                assert(start_cols@ =~= Seq::new((i + 1) as nat, |k: int| rows@[k].start_offset));
                assert(width_cols@ =~= Seq::new((i + 1) as nat, |k: int| rows@[k].width_cols));
                assert(sources@ =~= Seq::new((i + 1) as nat, |k: int| rows@[k].source_line));
                assert(wraps@ =~= Seq::new((i + 1) as nat, |k: int| rows@[k].wrap_index));
            }
            i = i + 1;
        }
        if rows.len() == 0 {
            start_cols.push(0);
            width_cols.push(0);
            sources.push(0);
            wraps.push(0);
            proof {
                assert(start_cols@ =~= seq![0u32]);
                assert(width_cols@ =~= seq![0u32]);
                assert(sources@ =~= seq![0u32]);
                assert(wraps@ =~= seq![0u32]);
            }
        }
        let width_cols_max = widest(&rows);
        let n = start_cols.len();
        let len: u32 = if n > u32::MAX as usize { u32::MAX } else { n as u32 };
        LineInfoOut {
            start_cols,
            start_cols_len: len,
            width_cols,
            width_cols_len: len,
            sources,
            sources_len: len,
            wraps,
            wraps_len: len,
            width_cols_max,
        }
    }

    /// The rows of the view, column by column.
    pub fn line_info(&self, buffer: &TextBufferState) -> (r: LineInfoOut)
        ensures
            line_info_matches(r, self.rows_of(buffer, false)),
    {
        self.line_info_of(buffer, false)
    }

    /// The logical (unwrapped) lines, column by column.
    pub fn logical_line_info(&self, buffer: &TextBufferState) -> (r: LineInfoOut)
        ensures
            line_info_matches(r, self.rows_of(buffer, true)),
    {
        self.line_info_of(buffer, true)
    }
}

impl TextBufferViewState {
    /// The rows the viewport shows, each with the part of the selection on it.
    pub fn visible_lines(&self, buffer: &TextBufferState) -> (r: Vec<VisibleLine>)
        ensures
            r@ == visible_lines_spec(self.rows_of(buffer, false), self.viewport_view().1, self.viewport_view().3, self.selection_view()),
    {
        let rows = self.rows(buffer, false, self.wrap_width);
        let ghost target = visible_lines_spec(rows@, self.viewport_y, self.viewport_height, self.selection);
        let mut out: Vec<VisibleLine> = Vec::new();
        if rows.len() == 0 {
            return out;
        }
        let start = self.viewport_y as usize;
        let height: usize = if self.viewport_height == 0 {
            if rows.len() >= start { rows.len() - start } else { 0 }
        } else {
            self.viewport_height as usize
        };
        let h: usize = if height < 1 { 1 } else { height };
        let end: usize = if start <= usize::MAX - h && start + h < rows.len() { start + h } else { rows.len() };
        if end <= start {
            return out;
        }
        let mut index: usize = start;
        while index < end
            invariant
                start <= index <= end <= rows@.len(),
                target == visible_lines_spec(rows@, self.viewport_y, self.viewport_height, self.selection),
                end - start == target.len(),
                forall|k: int| 0 <= k < target.len() ==> #[trigger] target[k] == visible_row(rows@, start as int, k, self.selection),
                out@ == target.take(index - start),
            decreases end - index,
        {
            let line = rows[index];
            let next_start = if index + 1 < rows.len() {
                rows[index + 1].start_offset
            } else {
                line.start_offset.saturating_add(line.width_cols)
            };
            let (selection_start, selection_end) = match self.selection {
                Some((s, e)) => {
                    let a = if s >= line.start_offset { s } else { line.start_offset };
                    let b = if e <= next_start { e } else { next_start };
                    if a < b { (Some(a), Some(b)) } else { (None, None) }
                },
                None => (None, None),
            };
            let k = index - start;
            let row = VisibleLine {
                viewport_row: if k > u32::MAX as usize { u32::MAX } else { k as u32 },
                start_offset: line.start_offset,
                end_offset: next_start,
                selection_start,
                selection_end,
            };
            proof {
                assert(row == visible_row(rows@, start as int, k as int, self.selection));
                assert(target.take(k + 1) =~= target.take(k as int).push(target[k as int]));
            }
            out.push(row);
            index = index + 1;
        }
        proof {
            assert(target.take(end - start) =~= target);
        }
        out
    }

    /// The end of the last row, 0 for none.
    pub fn text_end_offset(&self, buffer: &TextBufferState) -> (r: u32)
        ensures
            r == text_end_spec(self.rows_of(buffer, false)),
    {
        let rows = self.rows(buffer, false, self.wrap_width);
        if rows.len() == 0 {
            0
        } else {
            let last = rows[rows.len() - 1];
            last.start_offset.saturating_add(last.width_cols)
        }
    }

    /// The char boundary of a row nearest below column `visual_col` of it.
    pub fn snap_visual_offset(&self, buffer: &TextBufferState, line: VirtualLine, visual_col: u32) -> (r: u32)
        ensures
            r == snap_spec(buffer.text_view(), buffer.tab_width_view(), line, visual_col),
    {
        let text = buffer.text_chars();
        let tab_width = buffer.tab_width();
        let col = if visual_col <= line.width_cols { visual_col } else { line.width_cols };
        let target = line.start_offset.saturating_add(col);
        let mut offset = line.start_offset;
        while offset < target
            invariant
                text@ == buffer.text_view(),
                tab_width == buffer.tab_width_view(),
                target == sat_add(line.start_offset, min_u32(visual_col, line.width_cols) as int),
                snap_from(text@, tab_width, offset, target) == snap_spec(text@, tab_width, line, visual_col),
            ensures
                snap_from(text@, tab_width, offset, target) == offset,
            decreases target - offset,
        {
            let next = next_offset(text, tab_width, offset);
            if next <= offset || next > target {
                break;
            }
            offset = next;
        }
        offset
    }

    /// (visual row, visual column, logical row, logical column, offset) of
    /// an offset.
    pub fn visual_cursor_for_offset(&self, buffer: &TextBufferState, offset: u32, logical_row: u32, logical_col: u32) -> (r: (
        u32,
        u32,
        u32,
        u32,
        u32,
    ))
        ensures
            r == visual_cursor_spec(self.rows_of(buffer, false), offset, logical_row, logical_col),
    {
        let rows = self.rows(buffer, false, self.wrap_width);
        let mut index: usize = 0;
        while index < rows.len()
            invariant
                index <= rows@.len(),
                rows@ == self.rows_of(buffer, false),
                row_holding(rows@, offset, 0) == row_holding(rows@, offset, index as int),
            decreases rows@.len() - index,
        {
            let line = rows[index];
            let next_start = if index + 1 < rows.len() {
                rows[index + 1].start_offset
            } else {
                line.start_offset.saturating_add(line.width_cols).saturating_add(1)
            };
            if offset >= line.start_offset && offset < next_start {
                let d = offset.saturating_sub(line.start_offset);
                let visual_col = if d <= line.width_cols { d } else { line.width_cols };
                let vrow: u32 = if index > u32::MAX as usize { u32::MAX } else { index as u32 };
                return (vrow, visual_col, logical_row, logical_col, offset);
            }
            index = index + 1;
        }
        (0, 0, logical_row, logical_col, offset)
    }

    /// The char boundary at (visual row, visual column), if the row exists.
    pub fn offset_for_visual_position(&self, buffer: &TextBufferState, visual_row: u32, visual_col: u32) -> (r: Option<u32>)
        ensures
            r == if (visual_row as int) < self.rows_of(buffer, false).len() {
                Some(snap_spec(buffer.text_view(), buffer.tab_width_view(), self.rows_of(buffer, false)[visual_row as int], visual_col))
            } else {
                None::<u32>
            },
    {
        let rows = self.rows(buffer, false, self.wrap_width);
        let row = visual_row as usize;
        if row >= rows.len() {
            return None;
        }
        let line = rows[row];
        let col = if visual_col <= line.width_cols { visual_col } else { line.width_cols };
        Some(self.snap_visual_offset(buffer, line, col))
    }
}

/// The char boundary under viewport cell (x, y), if that row exists.
pub open spec fn coords_offset_spec(view: (u32, u32, u32, u32), rows: Seq<VirtualLine>, text: Seq<char>, tab_width: u8, x: i32, y: i32) -> Option<u32> {
    if x < 0 || y < 0 {
        None
    } else {
        let row = sat_add(view.1, y as int);
        let col = sat_add(view.0, x as int);
        if (row as int) < rows.len() {
            Some(snap_spec(text, tab_width, rows[row as int], min_u32(col, rows[row as int].width_cols)))
        } else {
            None
        }
    }
}

/// The offset a selection takes from viewport cell (x, y): 0 left of or
/// above the text, `text_end` below it.
pub open spec fn selection_offset_spec(view: (u32, u32, u32, u32), rows: Seq<VirtualLine>, text: Seq<char>, tab_width: u8, x: i32, y: i32, text_end: u32) -> Option<u32> {
    if rows.len() == 0 {
        Some(0)
    } else if y < 0 || x < 0 {
        Some(0)
    } else if y > clip_i32(rows.len() as int) - 1 {
        Some(text_end)
    } else {
        coords_offset_spec(view, rows, text, tab_width, x, y)
    }
}

impl TextBufferViewState {
    pub open spec fn selection_offset_of(&self, buffer: &TextBufferState, x: i32, y: i32) -> Option<u32> {
        selection_offset_spec(
            self.viewport_view(),
            self.rows_of(buffer, false),
            buffer.text_view(),
            buffer.tab_width_view(),
            x,
            y,
            text_end_spec(self.rows_of(buffer, false)),
        )
    }

    fn visual_coords_to_offset(&self, buffer: &TextBufferState, x: i32, y: i32) -> (r: Option<u32>)
        ensures
            r == coords_offset_spec(self.viewport_view(), self.rows_of(buffer, false), buffer.text_view(), buffer.tab_width_view(), x, y),
    {
        if x < 0 || y < 0 {
            return None;
        }
        let visual_row = self.viewport_y.saturating_add(y as u32) as usize;
        let visual_col = self.viewport_x.saturating_add(x as u32);
        let rows = self.rows(buffer, false, self.wrap_width);
        if visual_row >= rows.len() {
            return None;
        }
        let line = rows[visual_row];
        let col = if visual_col <= line.width_cols { visual_col } else { line.width_cols };
        Some(self.snap_visual_offset(buffer, line, col))
    }

    fn selection_offset_for_coords(&self, buffer: &TextBufferState, x: i32, y: i32, text_end_offset: u32) -> (r: Option<u32>)
        ensures
            r == selection_offset_spec(self.viewport_view(), self.rows_of(buffer, false), buffer.text_view(), buffer.tab_width_view(), x, y, text_end_offset),
    {
        let rows = self.rows(buffer, false, self.wrap_width);
        if rows.len() == 0 {
            return Some(0);
        }
        let max_y: i32 = if rows.len() > i32::MAX as usize { i32::MAX - 1 } else { rows.len() as i32 - 1 };
        if y < 0 || x < 0 {
            return Some(0);
        }
        if y > max_y {
            return Some(text_end_offset);
        }
        self.visual_coords_to_offset(buffer, x, y)
    }

    /// Selects between the offsets under two viewport cells; returns whether
    /// a selection is set, or when both cells lie above (or both below) the
    /// rows or one has no offset, drops the selection and returns whether
    /// there was one.
    pub fn set_local_selection(
        &mut self,
        buffer: &TextBufferState,
        anchor_x: i32,
        anchor_y: i32,
        focus_x: i32,
        focus_y: i32,
        bg: Option<Rgba>,
        fg: Option<Rgba>,
    ) -> (r: bool)
        ensures
            ({
                let rows = old(self).rows_of(buffer, false);
                let max_y = clip_i32(rows.len() as int) - 1;
                let outside = (anchor_y < 0 && focus_y < 0) || (anchor_y > max_y && focus_y > max_y);
                let anchor = old(self).selection_offset_of(buffer, anchor_x, anchor_y);
                let focus = old(self).selection_offset_of(buffer, focus_x, focus_y);
                let dropped = old(self).with_selection(None, old(self).colors_view(), None);
                if outside || anchor is None || focus is None {
                    &&& r == old(self).selection_view() is Some
                    &&& *final(self) == dropped
                } else {
                    &&& r
                    &&& *final(self) == old(self).with_selection(
                        normalize_selection_spec(anchor->0, focus->0),
                        (bg, fg),
                        anchor,
                    )
                }
            }),
    {
        let rows = self.rows(buffer, false, self.wrap_width);
        let max_y: i32 = if rows.len() > i32::MAX as usize { i32::MAX - 1 } else { rows.len() as i32 - 1 };
        let anchor_above = anchor_y < 0;
        let focus_above = focus_y < 0;
        let anchor_below = anchor_y > max_y;
        let focus_below = focus_y > max_y;
        if (anchor_above && focus_above) || (anchor_below && focus_below) {
            let had_selection = self.selection.is_some();
            self.selection = None;
            self.local_selection_anchor = None;
            return had_selection;
        }
        let text_end_offset = self.text_end_offset(buffer);
        let anchor = match self.selection_offset_for_coords(buffer, anchor_x, anchor_y, text_end_offset) {
            Some(a) => a,
            None => {
                let had_selection = self.selection.is_some();
                self.selection = None;
                self.local_selection_anchor = None;
                return had_selection;
            },
        };
        let focus = match self.selection_offset_for_coords(buffer, focus_x, focus_y, text_end_offset) {
            Some(f) => f,
            None => {
                let had_selection = self.selection.is_some();
                self.selection = None;
                self.local_selection_anchor = None;
                return had_selection;
            },
        };
        self.local_selection_anchor = Some(anchor);
        self.selection = normalize_selection(anchor, focus);
        self.selection_bg = bg;
        self.selection_fg = fg;
        true
    }

    /// Moves the focus of a local selection to a viewport cell, keeping the
    /// anchor (or taking it from another cell); the end is one past the
    /// anchor when the focus comes before it, within the text. Returns
    /// whether it did; nothing changes when an offset is missing.
    pub fn update_local_selection(
        &mut self,
        buffer: &TextBufferState,
        anchor_x: i32,
        anchor_y: i32,
        focus_x: i32,
        focus_y: i32,
        bg: Option<Rgba>,
        fg: Option<Rgba>,
    ) -> (r: bool)
        ensures
            ({
                let text_end = text_end_spec(old(self).rows_of(buffer, false));
                let anchor = match old(self).anchor_view() {
                    Some(a) => Some(a),
                    None => old(self).selection_offset_of(buffer, anchor_x, anchor_y),
                };
                let focus = old(self).selection_offset_of(buffer, focus_x, focus_y);
                if anchor is None || focus is None {
                    &&& !r
                    &&& *final(self) == *old(self)
                } else {
                    let a = anchor->0;
                    let f = focus->0;
                    let start = min_u32(a, f);
                    let end = if f < a { min_u32(sat_add(a, 1), text_end) } else { f };
                    &&& r
                    &&& *final(self) == old(self).with_selection(
                        if start == end { None } else { Some((start, end)) },
                        (bg, fg),
                        Some(a),
                    )
                }
            }),
    {
        let text_end_offset = self.text_end_offset(buffer);
        let anchor = match self.local_selection_anchor {
            Some(a) => a,
            None => match self.selection_offset_for_coords(buffer, anchor_x, anchor_y, text_end_offset) {
                Some(a) => a,
                None => {
                    return false;
                },
            },
        };
        let focus = match self.selection_offset_for_coords(buffer, focus_x, focus_y, text_end_offset) {
            Some(f) => f,
            None => {
                return false;
            },
        };
        self.local_selection_anchor = Some(anchor);
        let start = if anchor <= focus { anchor } else { focus };
        let mut end = if anchor <= focus { focus } else { anchor };
        if focus < anchor {
            let e = end.saturating_add(1);
            end = if e <= text_end_offset { e } else { text_end_offset };
        }
        self.selection = if start == end { None } else { Some((start, end)) };
        self.selection_bg = bg;
        self.selection_fg = fg;
        true
    }
}

/// Copies the selected text's bytes into `out`, as many as fit; returns
/// how many.
pub fn copy_selected_text(view: &TextBufferViewState, buffer: &TextBufferState, out: &mut [u8]) -> (n: usize)
    ensures
        ({
            let data = weight_slice_bytes(view.selection_view(), *buffer);
            &&& n == if data.len() <= old(out)@.len() { data.len() as int } else { old(out)@.len() as int }
            &&& final(out)@ == data.take(n as int) + old(out)@.skip(n as int)
        }),
{
    let data = view.selected_text_bytes(buffer);
    copy_bytes_to_out(data.as_slice(), out)
}

/// The columns of a line info are those of the rows (one zero row for none).
pub open spec fn line_info_matches(r: LineInfoOut, rows: Seq<VirtualLine>) -> bool {
    let n = if rows.len() == 0 { 1 } else { rows.len() as int };
    &&& r.start_cols@ == if rows.len() == 0 { seq![0u32] } else { Seq::new(rows.len(), |k: int| rows[k].start_offset) }
    &&& r.width_cols@ == if rows.len() == 0 { seq![0u32] } else { Seq::new(rows.len(), |k: int| rows[k].width_cols) }
    &&& r.sources@ == if rows.len() == 0 { seq![0u32] } else { Seq::new(rows.len(), |k: int| rows[k].source_line) }
    &&& r.wraps@ == if rows.len() == 0 { seq![0u32] } else { Seq::new(rows.len(), |k: int| rows[k].wrap_index) }
    &&& r.start_cols_len == clip_u32(n)
    &&& r.width_cols_len == clip_u32(n)
    &&& r.sources_len == clip_u32(n)
    &&& r.wraps_len == clip_u32(n)
    &&& r.width_cols_max == max_width(rows)
}

/// The widest row's width.
pub fn widest(rows: &Vec<VirtualLine>) -> (m: u32)
    ensures
        m == max_width(rows@),
{
    let mut m: u32 = 0;
    let mut i: usize = 0;
    while i < rows.len()
        invariant
            i <= rows@.len(),
            m == max_width(rows@.take(i as int)),
        decreases rows@.len() - i,
    {
        proof {
            assert(rows@.take(i + 1).drop_last() =~= rows@.take(i as int));
        }
        if rows[i].width_cols > m {
            m = rows[i].width_cols;
        }
        i = i + 1;
    }
    proof {
        assert(rows@.take(rows@.len() as int) =~= rows@);
    }
    m
}

} // verus!
