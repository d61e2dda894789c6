//! Word boundaries within a line: break chars and CJK/ASCII transitions,
//! found over grapheme clusters.
use crate::text::{
    lemma_split_lines_len_bound, lines_of, line_range, copy_range, offset_position, position_offset, position_to_offset, offset_to_position,
    sat, text_weight, text_width, weight_prefix, width_prefix,
};
use vstd::prelude::*;

verus! {

/// The extended grapheme clusters that `unicode_segmentation` finds in a text.
pub uninterp spec fn grapheme_clusters(text: Seq<char>) -> Seq<Seq<char>>;

/// Whether a char has the Unicode `White_Space` property, as the Unicode
/// Character Database lists it: tab through carriage return, space, next
/// line, no-break space, ogham space mark, the en quad through hair space
/// range, line and paragraph separators, narrow no-break space, medium
/// mathematical space and ideographic space.
pub open spec fn white_space(c: char) -> bool {
    let u = c as u32;
    ||| 0x9 <= u <= 0xD
    ||| u == 0x20
    ||| u == 0x85
    ||| u == 0xA0
    ||| u == 0x1680
    ||| 0x2000 <= u <= 0x200A
    ||| u == 0x2028
    ||| u == 0x2029
    ||| u == 0x202F
    ||| u == 0x205F
    ||| u == 0x3000
}

/// Calls `UnicodeSegmentation::graphemes(text, true)` on the text and hands
/// back each cluster as chars.
#[verifier::external_body]
pub(crate) fn graphemes_of(text: &[char]) -> (r: Vec<Vec<char>>)
    ensures
        r@.map_values(|g: Vec<char>| g@) == grapheme_clusters(text@),
{
    let s: String = text.iter().collect();
    unicode_segmentation::UnicodeSegmentation::graphemes(s.as_str(), true).map(|g| g.chars().collect()).collect()
}

/// Whether `c` has the Unicode `White_Space` property, as
/// `char::is_whitespace` answers.
pub fn is_whitespace_char(c: char) -> (b: bool)
    ensures
        b == white_space(c),
{
    let u = c as u32;
    (0x9 <= u && u <= 0xD) || u == 0x20 || u == 0x85 || u == 0xA0 || u == 0x1680 || (0x2000 <= u && u <= 0x200A)
        || u == 0x2028 || u == 0x2029 || u == 0x202F || u == 0x205F || u == 0x3000
}

#[derive(Clone, Copy, Debug, PartialEq, Eq)]
pub enum WordClass {
    AsciiWord,
    CjkWord,
    Other,
}

#[derive(Clone, Copy, Debug, PartialEq, Eq)]
pub struct WrapBoundary {
    pub start_offset: u32,
    pub width: u32,
    pub is_word: bool,
}

#[derive(Clone, Copy, Debug, PartialEq, Eq)]
pub struct PreviousCluster {
    pub start: u32,
    pub width: u32,
    pub class: WordClass,
    pub first: char,
}

pub open spec fn is_ascii_word_spec(c: char) -> bool {
    ('0' <= c <= '9') || ('a' <= c <= 'z') || ('A' <= c <= 'Z') || c == '_'
}

pub open spec fn is_cjk_spec(cp: u32) -> bool {
    ||| 0x3400 <= cp <= 0x4DBF
    ||| 0x4E00 <= cp <= 0x9FFF
    ||| 0xF900 <= cp <= 0xFAFF
    ||| 0x20000 <= cp <= 0x2A6DF
    ||| 0x2A700 <= cp <= 0x2B73F
    ||| 0x2B740 <= cp <= 0x2B81F
    ||| 0x2B820 <= cp <= 0x2CEAF
    ||| 0x2CEB0 <= cp <= 0x2EBEF
    ||| 0x2EBF0 <= cp <= 0x2EE5D
    ||| 0x2F800 <= cp <= 0x2FA1F
    ||| 0x3040 <= cp <= 0x309F
    ||| 0x30A0 <= cp <= 0x30FF
    ||| 0x31F0 <= cp <= 0x31FF
    ||| 0xFF66 <= cp <= 0xFF9D
    ||| 0x1100 <= cp <= 0x11FF
    ||| 0x3130 <= cp <= 0x318F
    ||| 0xA960 <= cp <= 0xA97F
    ||| 0xAC00 <= cp <= 0xD7AF
    ||| 0xD7B0 <= cp <= 0xD7FF
}

pub open spec fn word_class_spec(c: char) -> WordClass {
    if (c as u32) < 0x80 {
        if is_ascii_word_spec(c) {
            WordClass::AsciiWord
        } else {
            WordClass::Other
        }
    } else if is_cjk_spec(c as u32) {
        WordClass::CjkWord
    } else {
        WordClass::Other
    }
}

pub open spec fn is_break_listed(c: char) -> bool {
    ||| c == '-' || c == '/' || c == '\\' || c == '.' || c == ',' || c == ';' || c == ':'
    ||| c == '!' || c == '?' || c == '(' || c == ')' || c == '[' || c == ']' || c == '{' || c == '}'
    ||| c == '\u{00A0}' || c == '\u{1680}' || ('\u{2000}' <= c <= '\u{200A}')
    ||| c == '\u{202F}' || c == '\u{205F}' || c == '\u{3000}' || c == '\u{200B}' || c == '\u{00AD}'
    ||| c == '\u{2010}' || c == '\u{3001}' || c == '\u{3002}' || c == '\u{FF01}' || c == '\u{FF1F}'
}

pub open spec fn is_wrap_break_spec(c: char) -> bool {
    white_space(c) || is_break_listed(c)
}

pub fn is_wrap_break_char(ch: char) -> (b: bool)
    ensures
        b == is_wrap_break_spec(ch),
{
    if is_whitespace_char(ch) {
        return true;
    }
    ch == '-' || ch == '/' || ch == '\\' || ch == '.' || ch == ',' || ch == ';' || ch == ':' || ch == '!'
        || ch == '?' || ch == '(' || ch == ')' || ch == '[' || ch == ']' || ch == '{' || ch == '}' || ch
        == '\u{00A0}' || ch == '\u{1680}' || ('\u{2000}' <= ch && ch <= '\u{200A}') || ch == '\u{202F}' || ch
        == '\u{205F}' || ch == '\u{3000}' || ch == '\u{200B}' || ch == '\u{00AD}' || ch == '\u{2010}' || ch
        == '\u{3001}' || ch == '\u{3002}' || ch == '\u{FF01}' || ch == '\u{FF1F}'
}

pub fn is_ascii_word_char(ch: char) -> (b: bool)
    ensures
        b == is_ascii_word_spec(ch),
{
    ('0' <= ch && ch <= '9') || ('a' <= ch && ch <= 'z') || ('A' <= ch && ch <= 'Z') || ch == '_'
}

pub fn is_cjk_word_codepoint(ch: char) -> (b: bool)
    ensures
        b == is_cjk_spec(ch as u32),
{
    let cp = ch as u32;
    (0x3400 <= cp && cp <= 0x4DBF) || (0x4E00 <= cp && cp <= 0x9FFF) || (0xF900 <= cp && cp <= 0xFAFF) || (
    0x20000 <= cp && cp <= 0x2A6DF) || (0x2A700 <= cp && cp <= 0x2B73F) || (0x2B740 <= cp && cp <= 0x2B81F)
        || (0x2B820 <= cp && cp <= 0x2CEAF) || (0x2CEB0 <= cp && cp <= 0x2EBEF) || (0x2EBF0 <= cp && cp
        <= 0x2EE5D) || (0x2F800 <= cp && cp <= 0x2FA1F) || (0x3040 <= cp && cp <= 0x309F) || (0x30A0 <= cp
        && cp <= 0x30FF) || (0x31F0 <= cp && cp <= 0x31FF) || (0xFF66 <= cp && cp <= 0xFF9D) || (0x1100 <= cp
        && cp <= 0x11FF) || (0x3130 <= cp && cp <= 0x318F) || (0xA960 <= cp && cp <= 0xA97F) || (0xAC00 <= cp
        && cp <= 0xD7AF) || (0xD7B0 <= cp && cp <= 0xD7FF)
}

pub fn classify_word_class(ch: char) -> (c: WordClass)
    ensures
        c == word_class_spec(ch),
{
    if (ch as u32) < 0x80 {
        return if is_ascii_word_char(ch) {
            WordClass::AsciiWord
        } else {
            WordClass::Other
        };
    }
    if is_cjk_word_codepoint(ch) {
        return WordClass::CjkWord;
    }
    WordClass::Other
}

pub open spec fn is_word_spec(c: char) -> bool {
    word_class_spec(c) != WordClass::Other
}

pub fn is_word_codepoint(ch: char) -> (b: bool)
    ensures
        b == is_word_spec(ch),
{
    match classify_word_class(ch) {
        WordClass::Other => false,
        _ => true,
    }
}

pub open spec fn transition_spec(previous: WordClass, current: WordClass) -> bool {
    (previous == WordClass::CjkWord && current == WordClass::AsciiWord) || (previous == WordClass::AsciiWord
        && current == WordClass::CjkWord)
}

pub fn is_cjk_ascii_transition(previous: WordClass, current: WordClass) -> (b: bool)
    ensures
        b == transition_spec(previous, current),
{
    match (previous, current) {
        (WordClass::CjkWord, WordClass::AsciiWord) => true,
        (WordClass::AsciiWord, WordClass::CjkWord) => true,
        _ => false,
    }
}

/// Appends a boundary unless the last one has the same start and width.
pub open spec fn push_boundary_spec(bs: Seq<WrapBoundary>, start: u32, width: u32, is_word: bool) -> Seq<
    WrapBoundary,
> {
    if bs.len() > 0 && bs.last().start_offset == start && bs.last().width == width {
        bs
    } else {
        bs.push(WrapBoundary { start_offset: start, width, is_word })
    }
}

pub fn push_boundary(boundaries: &mut Vec<WrapBoundary>, start_offset: u32, width: u32, is_word: bool)
    ensures
        final(boundaries)@ == push_boundary_spec(old(boundaries)@, start_offset, width, is_word),
{
    let n = boundaries.len();
    if n > 0 && boundaries[n - 1].start_offset == start_offset && boundaries[n - 1].width == width {
        return;
    }
    boundaries.push(WrapBoundary { start_offset, width, is_word });
}

pub open spec fn max1(w: int) -> int {
    if w < 1 { 1 } else { w }
}

/// One cluster's effect on the boundaries, the running offset and the
/// previous cluster.
pub open spec fn boundary_step(
    state: (Seq<WrapBoundary>, u32, Option<PreviousCluster>),
    g: Seq<char>,
    tab_width: u8,
) -> (Seq<WrapBoundary>, u32, Option<PreviousCluster>) {
    if g.len() == 0 {
        state
    } else {
        let (bs, offset, previous) = state;
        let first = g[0];
        let width = width_prefix(g, tab_width, g.len() as int);
        let class = word_class_spec(first);
        let bs1 = match previous {
            Some(p) => if transition_spec(p.class, class) {
                push_boundary_spec(bs, p.start, p.width, is_word_spec(p.first))
            } else {
                bs
            },
            None => bs,
        };
        let bs2 = if g.len() == 1 && is_wrap_break_spec(first) {
            push_boundary_spec(bs1, offset, max1(width) as u32, is_word_spec(first))
        } else {
            bs1
        };
        (
            bs2,
            sat(offset + width) as u32,
            Some(PreviousCluster { start: offset, width: max1(width) as u32, class, first }),
        )
    }
}

pub open spec fn boundaries_fold(gs: Seq<Seq<char>>, tab_width: u8, n: int) -> (
    Seq<WrapBoundary>,
    u32,
    Option<PreviousCluster>,
)
    decreases n,
{
    if n <= 0 {
        (Seq::empty(), 0, None)
    } else {
        boundary_step(boundaries_fold(gs, tab_width, n - 1), gs[n - 1], tab_width)
    }
}

/// The word boundaries of a line.
pub open spec fn wrap_boundaries(line: Seq<char>, tab_width: u8) -> Seq<WrapBoundary> {
    boundaries_fold(grapheme_clusters(line), tab_width, grapheme_clusters(line).len() as int).0
}

pub fn build_wrap_boundaries(text: &[char], tab_width: u8) -> (r: Vec<WrapBoundary>)
    ensures
        r@ == wrap_boundaries(text@, tab_width),
{
    let gs = graphemes_of(text);
    let ghost gv = gs@.map_values(|g: Vec<char>| g@);
    let mut boundaries: Vec<WrapBoundary> = Vec::new();
    let mut offset: u32 = 0;
    let mut previous: Option<PreviousCluster> = None;
    let mut i: usize = 0;
    while i < gs.len()
        invariant
            i <= gs@.len(),
            gv == gs@.map_values(|g: Vec<char>| g@),
            gv == grapheme_clusters(text@),
            (boundaries@, offset, previous) == boundaries_fold(gv, tab_width, i as int),
        decreases gs@.len() - i,
    {
        let g = &gs[i];
        assert(gv[i as int] == g@);
        if g.len() > 0 {
            let first = g[0];
            let width = text_width(g.as_slice(), tab_width);
            let class = classify_word_class(first);
            match previous {
                Some(p) => {
                    if is_cjk_ascii_transition(p.class, class) {
                        push_boundary(&mut boundaries, p.start, p.width, is_word_codepoint(p.first));
                    }
                },
                None => {},
            }
            let w1 = if width < 1 { 1 } else { width };
            if g.len() == 1 && is_wrap_break_char(first) {
                push_boundary(&mut boundaries, offset, w1, is_word_codepoint(first));
            }
            previous = Some(PreviousCluster { start: offset, width: w1, class, first });
            offset = offset.saturating_add(width);
        }
        i = i + 1;
    }
    boundaries
}

/// The column of the first boundary at or past `col` (a word boundary at
/// `col`, any boundary past it), from index `i` on.
pub open spec fn forward_target(bs: Seq<WrapBoundary>, col: int, i: int) -> Option<u32>
    decreases bs.len() - i,
{
    if i < 0 || i >= bs.len() {
        None
    } else if bs[i].start_offset > col || (bs[i].start_offset == col && bs[i].is_word) {
        Some(sat(bs[i].start_offset + bs[i].width) as u32)
    } else {
        forward_target(bs, col, i + 1)
    }
}

/// The end column of the last boundary, among the leading ones that end
/// before `col`, from index `i` on.
pub open spec fn backward_target(bs: Seq<WrapBoundary>, col: int, i: int, last: Option<u32>) -> Option<u32>
    decreases bs.len() - i,
{
    if i < 0 || i >= bs.len() {
        last
    } else {
        let t = sat(bs[i].start_offset + bs[i].width);
        if t < col {
            backward_target(bs, col, i + 1, Some(t as u32))
        } else {
            last
        }
    }
}

pub open spec fn or_else(o: Option<u32>, d: u32) -> u32 {
    match o {
        Some(v) => v,
        None => d,
    }
}

/// The offset of the next (or previous) word boundary from `offset`.
pub open spec fn word_boundary_spec(text: Seq<char>, offset: u32, tab_width: u8, forward: bool) -> u32 {
    let total = weight_prefix(text, tab_width, text.len() as int);
    match offset_position(text, tab_width, offset as int) {
        None => if offset < total { offset } else { total as u32 },
        Some(p) => {
            let row = p.0;
            let col = p.1;
            let lines = lines_of(text);
            if row >= lines.len() {
                offset
            } else {
                let line = lines[row as int];
                let line_width = width_prefix(line, tab_width, line.len() as int);
                let bs = wrap_boundaries(line, tab_width);
                if forward {
                    match forward_target(bs, col as int, 0) {
                        Some(t) => or_else(position_offset(text, tab_width, row as int, t as int), offset),
                        None => if row + 1 < lines.len() {
                            or_else(position_offset(text, tab_width, sat(row + 1), 0), offset)
                        } else {
                            or_else(position_offset(text, tab_width, row as int, line_width), offset)
                        },
                    }
                } else {
                    match backward_target(bs, col as int, 0, None) {
                        Some(t) => or_else(position_offset(text, tab_width, row as int, t as int), offset),
                        None => if row > 0 {
                            let prev = lines[row - 1];
                            or_else(
                                position_offset(
                                    text,
                                    tab_width,
                                    row - 1,
                                    width_prefix(prev, tab_width, prev.len() as int),
                                ),
                                offset,
                            )
                        } else {
                            0
                        },
                    }
                }
            }
        },
    }
}

#[verifier::loop_isolation(false)]
pub fn word_boundary(text: &[char], offset: u32, tab_width: u8, forward: bool) -> (r: u32)
    ensures
        r == word_boundary_spec(text@, offset, tab_width, forward),
{
    let (row, col) = match offset_to_position(text, tab_width, offset) {
        Some(p) => p,
        None => {
            let total = text_weight(text, tab_width);
            return if offset < total { offset } else { total };
        },
    };
    let row_index = row as usize;
    let (a, b) = match line_range(text, row_index) {
        Some(p) => p,
        None => {
            return offset;
        },
    };
    let line = copy_range(text, a, b);
    let line_width = text_width(line.as_slice(), tab_width);
    let boundaries = build_wrap_boundaries(line.as_slice(), tab_width);
    let ghost bs = boundaries@;
    if forward {
        let mut i: usize = 0;
        while i < boundaries.len()
            invariant
                i <= bs.len(),
                bs == boundaries@,
                forward_target(bs, col as int, 0) == forward_target(bs, col as int, i as int),
            decreases bs.len() - i,
        {
            let bd = boundaries[i];
            let target_col = bd.start_offset.saturating_add(bd.width);
            if bd.start_offset > col || (bd.start_offset == col && bd.is_word) {
                return match position_to_offset(text, tab_width, row, target_col) {
                    Some(o) => o,
                    None => offset,
                };
            }
            i = i + 1;
        }
        proof {
            lemma_split_lines_len_bound(text@);
        }
        if row_index < usize::MAX && line_range(text, row_index + 1).is_some() {
            return match position_to_offset(text, tab_width, row.saturating_add(1), 0) {
                Some(o) => o,
                None => offset,
            };
        }
        assert(!(row + 1 < lines_of(text@).len())) by {
            assert(text@.len() == text.len());
        }
        return match position_to_offset(text, tab_width, row, line_width) {
            Some(o) => o,
            None => offset,
        };
    }
    let mut last: Option<u32> = None;
    let mut i: usize = 0;
    while i < boundaries.len()
        invariant
            i <= bs.len(),
            bs == boundaries@,
            backward_target(bs, col as int, 0, None) == backward_target(bs, col as int, i as int, last),
        decreases bs.len() - i,
    {
        let bd = boundaries[i];
        let target_col = bd.start_offset.saturating_add(bd.width);
        if target_col < col {
            last = Some(target_col);
            i = i + 1;
        } else {
            break;
        }
    }
    match last {
        Some(t) => match position_to_offset(text, tab_width, row, t) {
            Some(o) => o,
            None => offset,
        },
        None => {
            if row_index > 0 {
                let (pa, pb) = match line_range(text, row_index - 1) {
                    Some(p) => p,
                    None => {
                        assert(false);
                        (0, 0)
                    },
                };
                let prev = copy_range(text, pa, pb);
                let prev_width = text_width(prev.as_slice(), tab_width);
                match position_to_offset(text, tab_width, row - 1, prev_width) {
                    Some(o) => o,
                    None => offset,
                }
            } else {
                0
            }
        },
    }
}

} // verus!
