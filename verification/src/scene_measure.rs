//! The sizes scene nodes that measure their own content report: a text
//! view's size in cells, and the width of a line-number gutter.
use crate::draw::decimal;
use vstd::prelude::*;

verus! {

pub open spec fn max_u(a: int, b: int) -> int {
    if a >= b { a } else { b }
}

pub open spec fn min_u(a: int, b: int) -> int {
    if a <= b { a } else { b }
}

/// The number of decimal digits of `n`.
pub open spec fn digit_count(n: nat) -> nat {
    decimal(n).len()
}

/// Counts the decimal digits of `n`.
pub fn count_digits(n: u64) -> (d: u64)
    ensures
        d == digit_count(n as nat),
        1 <= d <= max_u(n as int, 1),
    decreases n,
{
    if n < 10 {
        1
    } else {
        let d = count_digits(n / 10);
        proof {
            assert(decimal(n as nat) == decimal((n / 10) as nat).push((48 + n % 10) as u8));
        }
        d + 1
    }
}

/// A text view's size in cells: its widest line and its line count, each
/// at least 1, cut to the space offered when the node is measured with an
/// upper bound and asked to clamp.
pub open spec fn text_view_size_spec(
    width_cols_max: u32,
    line_count: u32,
    available_width: u32,
    available_height: u32,
    clamp_at_most: bool,
    at_most: bool,
) -> (u32, u32) {
    let w = max_u(width_cols_max as int, 1);
    let h = max_u(line_count as int, 1);
    if clamp_at_most && at_most {
        (min_u(w, available_width as int) as u32, min_u(h, available_height as int) as u32)
    } else {
        (w as u32, h as u32)
    }
}

pub fn text_view_size(
    width_cols_max: u32,
    line_count: u32,
    available_width: u32,
    available_height: u32,
    clamp_at_most: bool,
    at_most: bool,
) -> (r: (u32, u32))
    ensures
        r == text_view_size_spec(width_cols_max, line_count, available_width, available_height, clamp_at_most, at_most),
{
    let w: u32 = if width_cols_max >= 1 { width_cols_max } else { 1 };
    let h: u32 = if line_count >= 1 { line_count } else { 1 };
    if clamp_at_most && at_most {
        (if w <= available_width { w } else { available_width }, if h <= available_height { h } else { available_height })
    } else {
        (w, h)
    }
}

/// The largest line number shown: the larger of the line count (logical or
/// visual, at least 1) shifted by the offset, and the largest custom number.
pub open spec fn max_line_number(
    virtual_line_count: u32,
    logical_line_count: u32,
    line_number_offset: i32,
    max_custom_line_number: u32,
) -> int {
    let total = max_u(logical_line_count as int, max_u(virtual_line_count as int, 1));
    max_u(total + line_number_offset, max_custom_line_number as int)
}

/// The digits the gutter needs for its largest number (1 when that is not
/// positive).
pub open spec fn gutter_digits(
    virtual_line_count: u32,
    logical_line_count: u32,
    line_number_offset: i32,
    max_custom_line_number: u32,
) -> int {
    let m = max_line_number(virtual_line_count, logical_line_count, line_number_offset, max_custom_line_number);
    if m > 0 { digit_count(m as nat) as int } else { 1 }
}

/// The gutter's width: at least `min_width`, else the digits, the right
/// padding and one column, plus the widths before and after the numbers.
pub open spec fn gutter_width(
    virtual_line_count: u32,
    logical_line_count: u32,
    min_width: u32,
    padding_right: u32,
    line_number_offset: i32,
    max_custom_line_number: u32,
    max_before_width: u32,
    max_after_width: u32,
) -> int {
    let digits = gutter_digits(virtual_line_count, logical_line_count, line_number_offset, max_custom_line_number);
    max_u(min_width as int, digits + padding_right + 1) + max_before_width + max_after_width
}

/// The size of a line-number gutter for a view with `virtual_line_count`
/// visual lines: its width (see `gutter_width`) and one row per visual
/// line (at least 1). The sums must fit in `u32`.
pub fn line_number_size(
    virtual_line_count: u32,
    logical_line_count: u32,
    min_width: u32,
    padding_right: u32,
    line_number_offset: i32,
    max_custom_line_number: u32,
    max_before_width: u32,
    max_after_width: u32,
) -> (r: (u32, u32))
    requires
        gutter_digits(virtual_line_count, logical_line_count, line_number_offset, max_custom_line_number) + padding_right
            + 1 <= u32::MAX,
        gutter_width(
            virtual_line_count,
            logical_line_count,
            min_width,
            padding_right,
            line_number_offset,
            max_custom_line_number,
            max_before_width,
            max_after_width,
        ) <= u32::MAX,
    ensures
        r.0 == gutter_width(
            virtual_line_count,
            logical_line_count,
            min_width,
            padding_right,
            line_number_offset,
            max_custom_line_number,
            max_before_width,
            max_after_width,
        ),
        r.1 == max_u(virtual_line_count as int, 1),
{
    let visual: u32 = if virtual_line_count >= 1 { virtual_line_count } else { 1 };
    let total: u32 = if logical_line_count >= visual { logical_line_count } else { visual };
    let offset_total: i64 = total as i64 + line_number_offset as i64;
    let max_line: i64 = if offset_total >= max_custom_line_number as i64 { offset_total } else { max_custom_line_number as i64 };
    let digits64: u64 = if max_line > 0 { count_digits(max_line as u64) } else { 1 };
    let digits: u32 = digits64 as u32;
    let needed: u32 = digits + padding_right + 1;
    let base: u32 = if min_width >= needed { min_width } else { needed };
    (base + max_before_width + max_after_width, visual)
}

} // verus!
