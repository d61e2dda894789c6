//! Cell drawing that is pure integer work: attribute packing, table border
//! joints, little-endian reads, ANSI cursor moves and cell bytes.
use crate::renderer_state::{intersect_ok, intersect_rects, intersect_spec, ClipRect};
use crate::text::push_code_point;
use vstd::prelude::*;

verus! {

/// Which sides of a box have a border.
#[derive(Clone, Copy, Debug, Default, PartialEq, Eq, Structural)]
pub struct BorderSides {
    pub top: bool,
    pub right: bool,
    pub bottom: bool,
    pub left: bool,
}

/// Whether a grid draws its inner lines and its outer frame.
#[derive(Clone, Copy, Debug, Default, PartialEq, Eq, Structural)]
pub struct GridDrawOptions {
    pub draw_inner: bool,
    pub draw_outer: bool,
}

/// The low byte of a cell's attributes holds its style bits.
pub const ATTRIBUTE_BASE_MASK: u32 = 0xff;

pub fn get_base_attributes(attributes: u32) -> (r: u32)
    ensures
        r == attributes % 256,
{
    let r = attributes & ATTRIBUTE_BASE_MASK;
    assert(attributes & 0xff == attributes % 256) by (bit_vector);
    r
}

/// The link id is held above the style bits.
pub fn get_link_id(attributes: u32) -> (r: u32)
    ensures
        r == attributes / 256,
{
    let r = attributes >> 8u32;
    assert(attributes >> 8u32 == attributes / 256) by (bit_vector);
    r
}

/// The glyph and attributes of a cell drawn with a translucent colour:
/// a space drawn over a visible char keeps that char and its style bits
/// (the third part says so), and the link id comes from the new attributes.
pub fn blended_cell_glyph(codepoint: u32, existing_char: u32, attributes: u32, existing_attributes: u32) -> (r: (
    u32,
    u32,
    bool,
))
    ensures
        r.2 == (codepoint == 32 && existing_char != 0 && existing_char != 32),
        r.0 == if r.2 { existing_char } else { codepoint },
        r.1 == (if r.2 { existing_attributes } else { attributes }) % 256 + (attributes / 256 % 0x100_0000) * 256,
{
    let preserve = codepoint == 32 && existing_char != 0 && existing_char != 32;
    let glyph = if preserve { existing_char } else { codepoint };
    let base = if preserve { get_base_attributes(existing_attributes) } else { get_base_attributes(attributes) };
    (glyph, attributes_with_link(base, get_link_id(attributes)), preserve)
}

/// Style bits with a link id above them (the id's top byte is lost).
pub fn attributes_with_link(base_attributes: u32, link_id: u32) -> (r: u32)
    ensures
        r == (base_attributes % 256) + (link_id % 0x100_0000) * 256,
        r % 256 == base_attributes % 256,
        r / 256 == link_id % 0x100_0000,
{
    let r = (base_attributes & ATTRIBUTE_BASE_MASK) | (link_id << 8u32);
    assert((base_attributes & 0xff) | (link_id << 8u32) == (base_attributes % 256) + (link_id % 0x100_0000) * 256)
        by (bit_vector);
    r
}

/// Linking and reading back: the style bits and the (24-bit) link id come
/// back out of `attributes_with_link`.
pub proof fn lemma_link_round_trip(base_attributes: u32, link_id: u32)
    requires
        link_id < 0x100_0000,
    ensures
        ((base_attributes % 256) + link_id * 256) % 256 == base_attributes % 256,
        ((base_attributes % 256) + link_id * 256) / 256 == link_id,
{
    assert(((base_attributes % 256) + link_id * 256) % 256 == base_attributes % 256) by (nonlinear_arith);
    assert(((base_attributes % 256) + link_id * 256) / 256 == link_id) by (nonlinear_arith)
        requires link_id < 0x100_0000;
}

/// The char at `index` of a border set, or `fallback` when the set is
/// shorter.
pub open spec fn border_char(border_chars: Seq<u32>, index: int, fallback: u32) -> u32 {
    if 0 <= index < border_chars.len() { border_chars[index] } else { fallback }
}

/// The border set index of the joint with lines going up, down, left and
/// right, and its fallback char.
pub open spec fn joint_spec(up: bool, down: bool, left: bool, right: bool) -> (int, u32) {
    if up && down && left && right {
        (10, 43)
    } else if !up && down && !left && right {
        (0, 43)
    } else if !up && down && left && !right {
        (1, 43)
    } else if up && !down && !left && right {
        (2, 43)
    } else if up && !down && left && !right {
        (3, 43)
    } else if up && down && !left && right {
        (8, 43)
    } else if up && down && left && !right {
        (9, 43)
    } else if !up && down && left && right {
        (6, 43)
    } else if up && !down && left && right {
        (7, 43)
    } else if (left || right) && !up && !down {
        (4, 45)
    } else if (up || down) && !left && !right {
        (5, 124)
    } else {
        (10, 43)
    }
}

fn border_at(border_chars: &[u32], index: usize, fallback: u32) -> (r: u32)
    ensures
        r == border_char(border_chars@, index as int, fallback),
{
    if index < border_chars.len() {
        border_chars[index]
    } else {
        fallback
    }
}

/// The char for a table border joint.
pub fn table_border_intersection(border_chars: &[u32], has_up: bool, has_down: bool, has_left: bool, has_right: bool) -> (r: u32)
    ensures
        r == border_char(
            border_chars@,
            joint_spec(has_up, has_down, has_left, has_right).0,
            joint_spec(has_up, has_down, has_left, has_right).1,
        ),
{
    let plus: u32 = 43;
    if has_up && has_down && has_left && has_right {
        return border_at(border_chars, 10, plus);
    }
    if !has_up && has_down && !has_left && has_right {
        return border_at(border_chars, 0, plus);
    }
    if !has_up && has_down && has_left && !has_right {
        return border_at(border_chars, 1, plus);
    }
    if has_up && !has_down && !has_left && has_right {
        return border_at(border_chars, 2, plus);
    }
    if has_up && !has_down && has_left && !has_right {
        return border_at(border_chars, 3, plus);
    }
    if has_up && has_down && !has_left && has_right {
        return border_at(border_chars, 8, plus);
    }
    if has_up && has_down && has_left && !has_right {
        return border_at(border_chars, 9, plus);
    }
    if !has_up && has_down && has_left && has_right {
        return border_at(border_chars, 6, plus);
    }
    if has_up && !has_down && has_left && has_right {
        return border_at(border_chars, 7, plus);
    }
    if (has_left || has_right) && !has_up && !has_down {
        return border_at(border_chars, 4, 45);
    }
    if (has_up || has_down) && !has_left && !has_right {
        return border_at(border_chars, 5, 124);
    }
    border_at(border_chars, 10, plus)
}

/// The byte at `i`, 0 past the end.
pub open spec fn byte_or_zero(data: Seq<u8>, i: int) -> int {
    if 0 <= i < data.len() { data[i] as int } else { 0 }
}

/// Reads a little-endian `u32` at `offset`; missing bytes read as 0.
pub fn read_u32(data: &[u8], offset: usize) -> (r: u32)
    requires
        offset <= usize::MAX - 3,
    ensures
        r == byte_or_zero(data@, offset as int) + byte_or_zero(data@, offset + 1) * 0x100 + byte_or_zero(
            data@,
            offset + 2,
        ) * 0x1_0000 + byte_or_zero(data@, offset + 3) * 0x100_0000,
{
    let b0: u32 = if offset < data.len() { data[offset] as u32 } else { 0 };
    let b1: u32 = if offset + 1 < data.len() { data[offset + 1] as u32 } else { 0 };
    let b2: u32 = if offset + 2 < data.len() { data[offset + 2] as u32 } else { 0 };
    let b3: u32 = if offset + 3 < data.len() { data[offset + 3] as u32 } else { 0 };
    b0 + b1 * 0x100 + b2 * 0x1_0000 + b3 * 0x100_0000
}

/// The overlap of two clip rectangles.
pub fn intersect_clip_rects(left: ClipRect, right: ClipRect) -> (r: Option<ClipRect>)
    requires
        intersect_ok(left, right),
    ensures
        r == intersect_spec(left, right),
{
    intersect_rects(left, right)
}

/// The decimal digits of a number, most significant first.
pub open spec fn decimal(n: nat) -> Seq<u8>
    decreases n,
{
    if n < 10 {
        seq![(48 + n) as u8]
    } else {
        decimal(n / 10).push((48 + n % 10) as u8)
    }
}

/// Appends the decimal digits of `n`.
pub fn push_decimal(out: &mut Vec<u8>, n: u32)
    ensures
        final(out)@ == old(out)@ + decimal(n as nat),
    decreases n,
{
    if n >= 10 {
        push_decimal(out, n / 10);
    }
    out.push(48u8 + (n % 10) as u8);
    proof {
        if n < 10 {
            assert(final(out)@ =~= old(out)@ + decimal(n as nat));
        } else {
            assert(decimal(n as nat) == decimal((n / 10) as nat).push((48 + n % 10) as u8));
            assert(final(out)@ =~= old(out)@ + decimal(n as nat));
        }
    }
}

/// The cursor-position sequence `ESC [ row ; col H`, each at least 1.
pub open spec fn move_cursor_seq(row: u32, col: u32) -> Seq<u8> {
    let r = if row < 1 { 1 } else { row };
    let c = if col < 1 { 1 } else { col };
    seq![27u8, 91u8] + decimal(r as nat) + seq![59u8] + decimal(c as nat) + seq![72u8]
}

pub fn append_move_cursor(out: &mut Vec<u8>, row: u32, col: u32)
    ensures
        final(out)@ == old(out)@ + move_cursor_seq(row, col),
{
    out.push(27u8);
    out.push(91u8);
    push_decimal(out, if row < 1 { 1 } else { row });
    out.push(59u8);
    push_decimal(out, if col < 1 { 1 } else { col });
    out.push(72u8);
    proof {
        assert(final(out)@ =~= old(out)@ + move_cursor_seq(row, col));
    }
}

/// The bytes of a cell's code point: its UTF-8 encoding, or a space for 0
/// and for a value that is no Unicode scalar.
pub open spec fn cell_bytes(codepoint: u32) -> Seq<u8> {
    if codepoint == 0 || !vstd::utf8::is_scalar(codepoint) {
        seq![32u8]
    } else {
        vstd::utf8::encode_scalar(codepoint)
    }
}

pub fn append_terminal_cell(out: &mut Vec<u8>, codepoint: u32)
    ensures
        final(out)@ == old(out)@ + cell_bytes(codepoint),
{
    if codepoint == 0 || !(codepoint <= 0xD7FF || (0xE000 <= codepoint && codepoint <= 0x10FFFF)) {
        out.push(32u8);
        proof {
            assert(final(out)@ =~= old(out)@ + cell_bytes(codepoint));
        }
        return;
    }
    push_code_point(out, codepoint);
}

} // verus!

verus! {

/// One cell to draw: a char at (x, y).
#[derive(Clone, Copy, Debug, PartialEq, Eq, Structural)]
pub struct CellWrite {
    pub x: usize,
    pub y: usize,
    pub ch: u32,
}

/// The writes of `f(0)`, then `f(1)`, up to `f(n - 1)`.
pub open spec fn concat_upto(f: spec_fn(int) -> Seq<CellWrite>, n: int) -> Seq<CellWrite>
    decreases n,
{
    if n <= 0 {
        Seq::empty()
    } else {
        concat_upto(f, n - 1) + f(n - 1)
    }
}

/// What a grid is drawn from: the buffer's size (as `i32`), the column and
/// row line offsets, the border chars and the options.
pub struct GridSpec {
    pub width: int,
    pub height: int,
    pub cols: Seq<i32>,
    pub rows: Seq<i32>,
    pub chars: Seq<u32>,
    pub options: GridDrawOptions,
}

impl GridSpec {
    pub open spec fn col_count(self) -> int {
        self.cols.len() - 1
    }

    pub open spec fn row_count(self) -> int {
        self.rows.len() - 1
    }

    /// Outer lines follow `draw_outer`, inner ones `draw_inner`.
    pub open spec fn draws(self, outer: bool) -> bool {
        if outer { self.options.draw_outer } else { self.options.draw_inner }
    }

    pub open spec fn draws_col(self, c: int) -> bool {
        self.draws(c == 0 || c == self.col_count())
    }

    pub open spec fn col_visible(self, c: int) -> bool {
        0 <= self.cols[c] < self.width
    }

    /// The joint drawn where row line `r` meets column line `c`.
    pub open spec fn joint(self, r: int, c: int) -> Seq<CellWrite> {
        if self.draws_col(c) && self.col_visible(c) {
            let v = self.draws_col(c);
            let j = joint_spec(r > 0 && v, r < self.row_count() && v, c > 0, c < self.col_count());
            seq![CellWrite { x: self.cols[c] as usize, y: self.rows[r] as usize, ch: border_char(self.chars, j.0, j.1) }]
        } else {
            Seq::empty()
        }
    }

    /// The horizontal run of row line `r` in column `c`, up to the next
    /// column line (through it when that line is not drawn).
    pub open spec fn hrun(self, r: int, c: int) -> Seq<CellWrite> {
        let after = if c < self.col_count() - 1 { self.options.draw_inner } else { self.options.draw_outer };
        let start = max_i(self.cols[c] + 1, 0);
        let end = min_i(self.cols[c + 1] + if after { 0int } else { 1int }, self.width);
        if end <= start {
            Seq::empty()
        } else {
            Seq::new(
                (end - start) as nat,
                |k: int| CellWrite { x: (start + k) as usize, y: self.rows[r] as usize, ch: border_char(self.chars, 4, 45) },
            )
        }
    }

    /// The vertical line chars of content row `y`.
    pub open spec fn vcell(self, y: int, c: int) -> Seq<CellWrite> {
        if self.draws_col(c) && self.col_visible(c) {
            seq![CellWrite { x: self.cols[c] as usize, y: y as usize, ch: border_char(self.chars, 5, 124) }]
        } else {
            Seq::empty()
        }
    }

    pub open spec fn vrow(self, y: int) -> Seq<CellWrite> {
        concat_upto(|c: int| self.vcell(y, c), self.col_count() + 1)
    }

    /// The content rows below row line `r`, down to the next row line
    /// (through it when that line is not drawn).
    pub open spec fn vblock(self, r: int) -> Seq<CellWrite> {
        let after = if r < self.row_count() - 1 { self.options.draw_inner } else { self.options.draw_outer };
        let start = max_i(self.rows[r] + 1, 0);
        let end = min_i(self.rows[r + 1] + if after { 0int } else { 1int }, self.height);
        concat_upto(|k: int| self.vrow(start + k), end - start)
    }

    /// Row line `r`: its joints then its runs, when it is drawn and not
    /// above the buffer.
    pub open spec fn hline(self, r: int) -> Seq<CellWrite> {
        if self.draws(r == 0 || r == self.row_count()) && self.rows[r] >= 0 {
            concat_upto(|c: int| self.joint(r, c), self.col_count() + 1) + concat_upto(
                |c: int| self.hrun(r, c),
                self.col_count(),
            )
        } else {
            Seq::empty()
        }
    }

    /// Everything from row line `r` on, stopping at a row line below the
    /// buffer.
    pub open spec fn from_row(self, r: int) -> Seq<CellWrite>
        decreases self.row_count() + 1 - r,
    {
        if r < 0 || r > self.row_count() || self.rows[r] >= self.height {
            Seq::empty()
        } else if r >= self.row_count() {
            self.hline(r)
        } else {
            self.hline(r) + self.vblock(r) + self.from_row(r + 1)
        }
    }

    /// The cells a grid draws, in order; none with fewer than two column
    /// or row lines, or with neither inner nor outer lines.
    pub open spec fn plan(self) -> Seq<CellWrite> {
        if self.cols.len() < 2 || self.rows.len() < 2 || (!self.options.draw_inner && !self.options.draw_outer) {
            Seq::empty()
        } else {
            self.from_row(0)
        }
    }
}

pub open spec fn max_i(a: int, b: int) -> int {
    if a >= b { a } else { b }
}

pub open spec fn min_i(a: int, b: int) -> int {
    if a <= b { a } else { b }
}

} // verus!

verus! {

pub open spec fn grid_spec(width: i32, height: i32, cols: Seq<i32>, rows: Seq<i32>, chars: Seq<u32>, options: GridDrawOptions) -> GridSpec {
    GridSpec { width: width as int, height: height as int, cols, rows, chars, options }
}

proof fn lemma_concat_step(f: spec_fn(int) -> Seq<CellWrite>, n: int)
    requires
        n >= 0,
    ensures
        concat_upto(f, n + 1) == concat_upto(f, n) + f(n),
{
}

fn push_joints(out: &mut Vec<CellWrite>, width: i32, height: i32, cols: &[i32], rows: &[i32], chars: &[u32], options: GridDrawOptions, r: usize)
    requires
        cols@.len() >= 2,
        rows@.len() >= 2,
        r < rows@.len(),
        rows@[r as int] >= 0,
    ensures
        final(out)@ == old(out)@ + concat_upto(
            |c: int| grid_spec(width, height, cols@, rows@, chars@, options).joint(r as int, c),
            cols@.len() as int,
        ),
{
    let ghost g = grid_spec(width, height, cols@, rows@, chars@, options);
    let ghost f = |c: int| g.joint(r as int, c);
    let column_count = cols.len() - 1;
    let row_count = rows.len() - 1;
    let mut c: usize = 0;
    while c <= column_count
        invariant
            column_count == cols@.len() - 1,
            row_count == rows@.len() - 1,
            c <= column_count + 1,
            r < rows@.len(),
            rows@[r as int] >= 0,
            g == grid_spec(width, height, cols@, rows@, chars@, options),
            f == (|c: int| g.joint(r as int, c)),
            out@ == old(out)@ + concat_upto(f, c as int),
        decreases column_count + 1 - c,
    {
        let outer = c == 0 || c == column_count;
        let draw_vertical = if outer { options.draw_outer } else { options.draw_inner };
        let border_x = cols[c];
        proof {
            lemma_concat_step(f, c as int);
        }
        if draw_vertical && border_x >= 0 && border_x < width {
            let ch = table_border_intersection(chars, r > 0 && draw_vertical, r < row_count && draw_vertical, c > 0, c < column_count);
            out.push(CellWrite { x: border_x as usize, y: rows[r] as usize, ch });
        }
        proof {
            assert(out@ =~= old(out)@ + concat_upto(f, c + 1));
        }
        c = c + 1;
    }
}

fn push_hruns(out: &mut Vec<CellWrite>, width: i32, height: i32, cols: &[i32], rows: &[i32], chars: &[u32], options: GridDrawOptions, r: usize)
    requires
        cols@.len() >= 2,
        r < rows@.len(),
        rows@[r as int] >= 0,
    ensures
        final(out)@ == old(out)@ + concat_upto(
            |c: int| grid_spec(width, height, cols@, rows@, chars@, options).hrun(r as int, c),
            cols@.len() - 1,
        ),
{
    let ghost g = grid_spec(width, height, cols@, rows@, chars@, options);
    let ghost f = |c: int| g.hrun(r as int, c);
    let column_count = cols.len() - 1;
    let h_char = border_at(chars, 4, 45);
    let border_y = rows[r];
    let mut c: usize = 0;
    while c < column_count
        invariant
            column_count == cols@.len() - 1,
            c <= column_count,
            r < rows@.len(),
            border_y == rows@[r as int],
            border_y >= 0,
            h_char == border_char(chars@, 4, 45),
            g == grid_spec(width, height, cols@, rows@, chars@, options),
            f == (|c: int| g.hrun(r as int, c)),
            out@ == old(out)@ + concat_upto(f, c as int),
        decreases column_count - c,
    {
        let after = if c < column_count - 1 { options.draw_inner } else { options.draw_outer };
        let pad: i64 = if after { 0 } else { 1 };
        let s: i64 = cols[c] as i64 + 1;
        let e: i64 = cols[c + 1] as i64 + pad;
        let start: i64 = if s >= 0 { s } else { 0 };
        let end: i64 = if e <= width as i64 { e } else { width as i64 };
        let ghost base = out@;
        proof {
            lemma_concat_step(f, c as int);
        }
        let mut x: i64 = start;
        while x < end
            invariant
                start <= x,
                start >= 0,
                x <= end || end <= start,
                end <= start ==> x == start,
                end <= width,
                border_y >= 0,
                out@ == base + Seq::new(
                    (x - start) as nat,
                    |k: int| CellWrite { x: (start + k) as usize, y: border_y as usize, ch: h_char },
                ),
            decreases end - x,
        {
            out.push(CellWrite { x: x as usize, y: border_y as usize, ch: h_char });
            proof {
                assert(out@ =~= base + Seq::new(
                    (x + 1 - start) as nat,
                    |k: int| CellWrite { x: (start + k) as usize, y: border_y as usize, ch: h_char },
                ));
            }
            x = x + 1;
        }
        proof {
            if end <= start {
                assert(out@ =~= base);
            }
            assert(out@ =~= old(out)@ + concat_upto(f, c + 1));
        }
        c = c + 1;
    }
}

fn push_vrow(out: &mut Vec<CellWrite>, width: i32, height: i32, cols: &[i32], rows: &[i32], chars: &[u32], options: GridDrawOptions, y: i64)
    requires
        cols@.len() >= 2,
        0 <= y < height,
    ensures
        final(out)@ == old(out)@ + grid_spec(width, height, cols@, rows@, chars@, options).vrow(y as int),
{
    let ghost g = grid_spec(width, height, cols@, rows@, chars@, options);
    let ghost f = |c: int| g.vcell(y as int, c);
    let column_count = cols.len() - 1;
    let v_char = border_at(chars, 5, 124);
    let mut c: usize = 0;
    while c <= column_count
        invariant
            column_count == cols@.len() - 1,
            c <= column_count + 1,
            0 <= y < height,
            v_char == border_char(chars@, 5, 124),
            g == grid_spec(width, height, cols@, rows@, chars@, options),
            f == (|c: int| g.vcell(y as int, c)),
            out@ == old(out)@ + concat_upto(f, c as int),
        decreases column_count + 1 - c,
    {
        let outer = c == 0 || c == column_count;
        let draw_vertical = if outer { options.draw_outer } else { options.draw_inner };
        let border_x = cols[c];
        proof {
            lemma_concat_step(f, c as int);
        }
        if draw_vertical && border_x >= 0 && border_x < width {
            out.push(CellWrite { x: border_x as usize, y: y as usize, ch: v_char });
        }
        proof {
            assert(out@ =~= old(out)@ + concat_upto(f, c + 1));
        }
        c = c + 1;
    }
}

fn push_vblock(out: &mut Vec<CellWrite>, width: i32, height: i32, cols: &[i32], rows: &[i32], chars: &[u32], options: GridDrawOptions, r: usize)
    requires
        cols@.len() >= 2,
        rows@.len() >= 2,
        r + 1 < rows@.len(),
    ensures
        final(out)@ == old(out)@ + grid_spec(width, height, cols@, rows@, chars@, options).vblock(r as int),
{
    let ghost g = grid_spec(width, height, cols@, rows@, chars@, options);
    let row_count = rows.len() - 1;
    let after = if r < row_count - 1 { options.draw_inner } else { options.draw_outer };
    let pad: i64 = if after { 0 } else { 1 };
    let s: i64 = rows[r] as i64 + 1;
    let e: i64 = rows[r + 1] as i64 + pad;
    let start: i64 = if s >= 0 { s } else { 0 };
    let end: i64 = if e <= height as i64 { e } else { height as i64 };
    let ghost f = |k: int| g.vrow(start + k);
    let mut y: i64 = start;
    proof {
        assert(out@ =~= old(out)@ + concat_upto(f, 0));
    }
    while y < end
        invariant
            start >= 0,
            start <= y,
            y <= end || end <= start,
            end <= start ==> y == start,
            end <= height,
            cols@.len() >= 2,
            g == grid_spec(width, height, cols@, rows@, chars@, options),
            f == (|k: int| g.vrow(start + k)),
            out@ == old(out)@ + concat_upto(f, y - start),
        decreases end - y,
    {
        proof {
            lemma_concat_step(f, y - start);
        }
        push_vrow(out, width, height, cols, rows, chars, options, y);
        proof {
            assert(out@ =~= old(out)@ + concat_upto(f, y + 1 - start));
        }
        y = y + 1;
    }
    proof {
        if end <= start {
            assert(concat_upto(f, end - start) =~= Seq::<CellWrite>::empty());
        }
    }
}

/// The cells a grid draws, in order: per row line its joints and its
/// horizontal runs, then the vertical lines of the rows below it.
pub fn plan_grid(width: i32, height: i32, column_offsets: &[i32], row_offsets: &[i32], border_chars: &[u32], options: GridDrawOptions) -> (r: Vec<CellWrite>)
    ensures
        r@ == grid_spec(width, height, column_offsets@, row_offsets@, border_chars@, options).plan(),
{
    let ghost g = grid_spec(width, height, column_offsets@, row_offsets@, border_chars@, options);
    let mut out: Vec<CellWrite> = Vec::new();
    if column_offsets.len() < 2 || row_offsets.len() < 2 || (!options.draw_inner && !options.draw_outer) {
        return out;
    }
    let row_count = row_offsets.len() - 1;
    let mut r: usize = 0;
    while r <= row_count
        invariant_except_break
            row_count == row_offsets@.len() - 1,
            row_offsets@.len() >= 2,
            column_offsets@.len() >= 2,
            r <= row_count,
            g == grid_spec(width, height, column_offsets@, row_offsets@, border_chars@, options),
            out@ + g.from_row(r as int) == g.from_row(0),
        ensures
            out@ == g.from_row(0),
        decreases row_count + 1 - r,
    {
        let border_y = row_offsets[r];
        if border_y >= height {
            proof {
                assert(g.from_row(r as int) == Seq::<CellWrite>::empty());
                assert(out@ + Seq::<CellWrite>::empty() =~= out@);
            }
            break;
        }
        let ghost before = out@;
        let outer = r == 0 || r == row_count;
        let draw_horizontal = if outer { options.draw_outer } else { options.draw_inner };
        if draw_horizontal && border_y >= 0 {
            push_joints(&mut out, width, height, column_offsets, row_offsets, border_chars, options, r);
            push_hruns(&mut out, width, height, column_offsets, row_offsets, border_chars, options, r);
        }
        proof {
            assert(out@ =~= before + g.hline(r as int));
        }
        if r >= row_count {
            proof {
                assert(g.from_row(r as int) == g.hline(r as int));
            }
            break;
        }
        let ghost mid = out@;
        push_vblock(&mut out, width, height, column_offsets, row_offsets, border_chars, options, r);
        proof {
            assert(g.from_row(r as int) == g.hline(r as int) + g.vblock(r as int) + g.from_row(r + 1));
            assert(out@ + g.from_row(r + 1) =~= before + g.from_row(r as int));
        }
        r = r + 1;
    }
    out
}

} // verus!

verus! {

/// One step of drawing a box: fill a rectangle with the background, draw
/// a border char, or draw the title text from a cell.
#[derive(Clone, Copy, Debug, PartialEq, Eq, Structural)]
pub enum BoxOp {
    Fill { x: usize, y: usize, width: usize, height: usize },
    Cell(CellWrite),
    Title { x: usize, y: usize },
}

/// The columns a title char takes: its width, at least 1 (1 for chars
/// without a width).
pub open spec fn title_char_width(c: char) -> int {
    match crate::text::unicode_char_width(c) {
        Some(w) => if w < 1 { 1 } else { w as int },
        None => 1,
    }
}

pub open spec fn title_width(title: Seq<char>) -> int
    decreases title.len(),
{
    if title.len() == 0 {
        0
    } else {
        title_width(title.drop_last()) + title_char_width(title.last())
    }
}

/// What a box is drawn from, all as integers: the buffer's size, the top
/// scissor rectangle, the box, its border chars and sides, whether it is
/// filled, its title and the title's alignment.
pub struct BoxSpec {
    pub buf_width: u32,
    pub buf_height: u32,
    pub scissor: Option<ClipRect>,
    pub x: int,
    pub y: int,
    pub width: u32,
    pub height: u32,
    pub chars: Seq<u32>,
    pub sides: BorderSides,
    pub fill: bool,
    pub title: Option<Seq<char>>,
    pub align: u8,
}

impl BoxSpec {
    /// The far column and row of the box (as the box's `i32` arithmetic
    /// gives them).
    pub open spec fn far_x(self) -> int {
        self.x + crate::renderer_state::i32_of(self.width) - 1
    }

    pub open spec fn far_y(self) -> int {
        self.y + crate::renderer_state::i32_of(self.height) - 1
    }

    /// The box within the buffer, before the scissor.
    pub open spec fn sx0(self) -> int {
        max_i(self.x, 0)
    }

    pub open spec fn sy0(self) -> int {
        max_i(self.y, 0)
    }

    pub open spec fn ex0(self) -> int {
        min_i(crate::renderer_state::i32_of(self.buf_width) - 1, self.far_x())
    }

    pub open spec fn ey0(self) -> int {
        min_i(crate::renderer_state::i32_of(self.buf_height) - 1, self.far_y())
    }

    pub open spec fn visible0(self) -> bool {
        self.width > 0 && self.height > 0 && self.sx0() <= self.ex0() && self.sy0() <= self.ey0()
    }

    pub open spec fn rect0(self) -> ClipRect {
        ClipRect {
            x: self.sx0() as i32,
            y: self.sy0() as i32,
            width: (self.ex0() - self.sx0() + 1) as u32,
            height: (self.ey0() - self.sy0() + 1) as u32,
        }
    }

    pub open spec fn bounds(self) -> ClipRect {
        ClipRect { x: 0, y: 0, width: self.buf_width, height: self.buf_height }
    }

    /// The box clipped to the buffer and the scissor.
    pub open spec fn clipped(self) -> Option<ClipRect> {
        match intersect_spec(self.rect0(), self.bounds()) {
            None => None,
            Some(c) => match self.scissor {
                Some(s) => intersect_spec(c, s),
                None => Some(c),
            },
        }
    }

    pub open spec fn sx(self) -> int {
        max_i(self.sx0(), self.clipped()->0.x as int)
    }

    pub open spec fn sy(self) -> int {
        max_i(self.sy0(), self.clipped()->0.y as int)
    }

    pub open spec fn ex(self) -> int {
        min_i(self.ex0(), self.clipped()->0.x + self.clipped()->0.width - 1)
    }

    pub open spec fn ey(self) -> int {
        min_i(self.ey0(), self.clipped()->0.y + self.clipped()->0.height - 1)
    }

    pub open spec fn at_left(self) -> bool {
        self.sx() == self.x
    }

    pub open spec fn at_right(self) -> bool {
        self.ex() == self.far_x()
    }

    pub open spec fn at_top(self) -> bool {
        self.sy() == self.y
    }

    pub open spec fn at_bottom(self) -> bool {
        self.ey() == self.far_y()
    }

    pub open spec fn left(self) -> bool {
        self.sides.left && self.at_left()
    }

    pub open spec fn right(self) -> bool {
        self.sides.right && self.at_right()
    }

    pub open spec fn top(self) -> bool {
        self.sides.top && self.at_top()
    }

    pub open spec fn bottom(self) -> bool {
        self.sides.bottom && self.at_bottom()
    }

    /// The background fill: the whole clipped box without borders, else
    /// what lies inside the drawn borders.
    pub open spec fn fill_ops(self) -> Seq<BoxOp> {
        if !self.fill {
            Seq::empty()
        } else if !self.sides.top && !self.sides.right && !self.sides.bottom && !self.sides.left {
            seq![BoxOp::Fill {
                x: self.sx() as usize,
                y: self.sy() as usize,
                width: (self.ex() - self.sx() + 1) as usize,
                height: (self.ey() - self.sy() + 1) as usize,
            }]
        } else {
            let isx = self.sx() + if self.left() { 1int } else { 0int };
            let isy = self.sy() + if self.top() { 1int } else { 0int };
            let iex = self.ex() - if self.right() { 1int } else { 0int };
            let iey = self.ey() - if self.bottom() { 1int } else { 0int };
            if iex >= isx && iey >= isy {
                seq![BoxOp::Fill { x: isx as usize, y: isy as usize, width: (iex - isx + 1) as usize, height: (iey - isy + 1) as usize }]
            } else {
                Seq::empty()
            }
        }
    }

    /// A horizontal border at row `row`, with the given corner chars.
    pub open spec fn hborder(self, row: int, first: u32, last: u32) -> Seq<BoxOp> {
        Seq::new(
            (self.ex() - self.sx() + 1) as nat,
            |k: int|
                {
                    let dx = self.sx() + k;
                    let ch = if dx == self.sx() && self.left() {
                        first
                    } else if dx == self.ex() && self.right() {
                        last
                    } else {
                        border_char(self.chars, 4, 45)
                    };
                    BoxOp::Cell(CellWrite { x: dx as usize, y: row as usize, ch })
                },
        )
    }

    pub open spec fn top_ops(self) -> Seq<BoxOp> {
        if self.top() {
            self.hborder(self.sy(), border_char(self.chars, 0, 43), border_char(self.chars, 1, 43))
        } else {
            Seq::empty()
        }
    }

    pub open spec fn bottom_ops(self) -> Seq<BoxOp> {
        if self.bottom() {
            self.hborder(self.ey(), border_char(self.chars, 2, 43), border_char(self.chars, 3, 43))
        } else {
            Seq::empty()
        }
    }

    /// Where the vertical borders run: through the corners' rows when a
    /// side stands alone or meets only the opposite horizontal border.
    pub open spec fn vstart(self) -> int {
        let left_only = self.left() && !self.sides.top && !self.sides.bottom;
        let right_only = self.right() && !self.sides.top && !self.sides.bottom;
        let bottom_only = self.bottom() && !self.sides.top && (self.sides.left || self.sides.right);
        if left_only || right_only || bottom_only {
            self.sy()
        } else {
            self.sy() + if self.top() { 1int } else { 0int }
        }
    }

    pub open spec fn vend(self) -> int {
        let left_only = self.left() && !self.sides.top && !self.sides.bottom;
        let right_only = self.right() && !self.sides.top && !self.sides.bottom;
        let top_only = self.top() && !self.sides.bottom && (self.sides.left || self.sides.right);
        if left_only || right_only || top_only {
            self.ey()
        } else {
            self.ey() - if self.bottom() { 1int } else { 0int }
        }
    }

    pub open spec fn vrow(self, row: int) -> Seq<BoxOp> {
        let v = border_char(self.chars, 5, 124);
        (if self.left() {
            seq![BoxOp::Cell(CellWrite { x: self.sx() as usize, y: row as usize, ch: v })]
        } else {
            Seq::empty()
        }) + if self.right() {
            seq![BoxOp::Cell(CellWrite { x: self.ex() as usize, y: row as usize, ch: v })]
        } else {
            Seq::empty()
        }
    }

    pub open spec fn vrows_upto(self, n: int) -> Seq<BoxOp>
        decreases n,
    {
        if n <= 0 {
            Seq::empty()
        } else {
            self.vrows_upto(n - 1) + self.vrow(self.vstart() + n - 1)
        }
    }

    pub open spec fn vertical_ops(self) -> Seq<BoxOp> {
        self.vrows_upto(self.vend() - self.vstart() + 1)
    }

    /// The title's cell: 2 in from the left, centred, or 2 in from the
    /// right, kept within the top border.
    pub open spec fn title_x(self, tw: int) -> int {
        let w = crate::renderer_state::i32_of(self.width);
        let unclamped = if self.align == 1 {
            self.sx() + max_i((w - tw) / 2, 2)
        } else if self.align == 2 {
            self.sx() + w - 2 - tw
        } else {
            self.sx() + 2
        };
        let lo = self.sx() + 1;
        let hi = max_i(max_i(self.ex() - tw, i32::MIN as int), lo);
        if unclamped < lo { lo } else if unclamped > hi { hi } else { unclamped }
    }

    pub open spec fn title_ops(self) -> Seq<BoxOp> {
        match self.title {
            Some(t) => if t.len() > 0 && self.top() && crate::renderer_state::i32_of(self.width) >= title_width(t) + 4 {
                seq![BoxOp::Title { x: self.title_x(title_width(t)) as usize, y: self.sy() as usize }]
            } else {
                Seq::empty()
            },
            None => Seq::empty(),
        }
    }

    /// The steps of drawing the box, in order; none when it is empty or
    /// lies outside the buffer or the scissor.
    pub open spec fn plan(self) -> Seq<BoxOp> {
        if !self.visible0() || self.clipped() is None {
            Seq::empty()
        } else {
            self.fill_ops() + self.top_ops() + self.bottom_ops() + self.vertical_ops() + self.title_ops()
        }
    }
}

} // verus!

verus! {

use crate::renderer_state::{fits_i32, i32_of};

impl BoxSpec {
    /// The box's arithmetic stays within `i32`, as the drawing computes it.
    pub open spec fn box_ok(self) -> bool {
        &&& fits_i32(self.x + i32_of(self.width)) && fits_i32(self.far_x())
        &&& fits_i32(self.y + i32_of(self.height)) && fits_i32(self.far_y())
        &&& fits_i32(i32_of(self.buf_width) - 1) && fits_i32(i32_of(self.buf_height) - 1)
        &&& self.visible0() ==> {
            &&& self.ex0() - self.sx0() + 1 <= i32::MAX && self.ey0() - self.sy0() + 1 <= i32::MAX
            &&& intersect_ok(self.rect0(), self.bounds())
            &&& (intersect_spec(self.rect0(), self.bounds()) matches Some(c) ==> (self.scissor matches Some(s)
                ==> intersect_ok(c, s)))
        }
        &&& self.title matches Some(t) ==> title_width(t) <= i32::MAX - 4
        &&& match self.title {
            Some(t) => (self.visible0() && self.clipped() is Some && t.len() > 0 && self.top() && i32_of(self.width)
                >= title_width(t) + 4) ==> {
                let w = i32_of(self.width);
                let tw = title_width(t);
                &&& self.align == 1 ==> fits_i32(self.sx() + max_i((w - tw) / 2, 2))
                &&& self.align == 2 ==> fits_i32(self.sx() + w) && fits_i32(self.sx() + w - 2 - tw)
                &&& self.align != 1 && self.align != 2 ==> fits_i32(self.sx() + 2)
            },
            None => true,
        }
    }
}

pub open spec fn box_spec(
    buf_width: u32,
    buf_height: u32,
    scissor: Option<ClipRect>,
    x: i32,
    y: i32,
    width: u32,
    height: u32,
    chars: Seq<u32>,
    sides: BorderSides,
    fill: bool,
    title: Option<Seq<char>>,
    align: u8,
) -> BoxSpec {
    BoxSpec { buf_width, buf_height, scissor, x: x as int, y: y as int, width, height, chars, sides, fill, title, align }
}

fn title_columns(title: &[char]) -> (w: u64)
    requires
        title_width(title@) <= i32::MAX - 4,
    ensures
        w == title_width(title@),
{
    let mut w: u64 = 0;
    let mut i: usize = 0;
    while i < title.len()
        invariant
            i <= title@.len(),
            title_width(title@) <= i32::MAX - 4,
            w == title_width(title@.take(i as int)),
        decreases title@.len() - i,
    {
        proof {
            assert(title@.take(i + 1).drop_last() =~= title@.take(i as int));
            lemma_title_width_prefix(title@, i + 1);
        }
        let cw: u64 = match crate::text::char_width_lookup(title[i]) {
            Some(c) => if c < 1 { 1 } else { c as u64 },
            None => 1,
        };
        w = w + cw;
        i = i + 1;
    }
    proof {
        assert(title@.take(title@.len() as int) =~= title@);
    }
    w
}

proof fn lemma_title_width_prefix(t: Seq<char>, n: int)
    requires
        0 <= n <= t.len(),
    ensures
        title_width(t.take(n)) <= title_width(t),
    decreases t.len() - n,
{
    if n < t.len() {
        lemma_title_width_prefix(t, n + 1);
        assert(t.take(n + 1).drop_last() =~= t.take(n));
    } else {
        assert(t.take(n) =~= t);
    }
}

fn edge64(origin: i64, extent: u32) -> (e: i64)
    requires
        i32::MIN <= origin <= i32::MAX,
    ensures
        e == origin + i32_of(extent),
{
    if extent < 0x8000_0000 {
        origin + extent as i64
    } else {
        origin + extent as i64 - 0x1_0000_0000i64
    }
}

/// The steps of drawing a box (see `BoxSpec::plan`).
pub fn plan_box(
    buf_width: u32,
    buf_height: u32,
    scissor: Option<ClipRect>,
    x: i32,
    y: i32,
    width: u32,
    height: u32,
    border_chars: &[u32],
    border_sides: BorderSides,
    should_fill: bool,
    title: Option<&[char]>,
    title_alignment: u8,
) -> (r: Vec<BoxOp>)
    requires
        box_spec(
            buf_width,
            buf_height,
            scissor,
            x,
            y,
            width,
            height,
            border_chars@,
            border_sides,
            should_fill,
            match title {
                Some(t) => Some(t@),
                None => None,
            },
            title_alignment,
        ).box_ok(),
    ensures
        r@ == box_spec(
            buf_width,
            buf_height,
            scissor,
            x,
            y,
            width,
            height,
            border_chars@,
            border_sides,
            should_fill,
            match title {
                Some(t) => Some(t@),
                None => None,
            },
            title_alignment,
        ).plan(),
{
    let ghost b = box_spec(
        buf_width,
        buf_height,
        scissor,
        x,
        y,
        width,
        height,
        border_chars@,
        border_sides,
        should_fill,
        match title {
            Some(t) => Some(t@),
            None => None,
        },
        title_alignment,
    );
    let mut out: Vec<BoxOp> = Vec::new();
    let (sx, sy, ex, ey, far_x, far_y) = match box_region(Ghost(b), buf_width, buf_height, scissor, x, y, width, height) {
        Some(r) => r,
        None => {
            return out;
        },
    };
    let left = border_sides.left && sx == x as i64;
    let right = border_sides.right && ex == far_x;
    let top = border_sides.top && sy == y as i64;
    let bottom = border_sides.bottom && ey == far_y;
    push_fill(&mut out, Ghost(b), should_fill, border_sides, sx, sy, ex, ey, left, right, top, bottom);
    if top {
        push_hborder(&mut out, Ghost(b), sx, ex, sy, left, right, border_at(border_chars, 0, 43), border_at(border_chars, 1, 43), border_at(border_chars, 4, 45));
    }
    proof {
        assert(out@ =~= b.fill_ops() + b.top_ops());
    }
    if bottom {
        push_hborder(&mut out, Ghost(b), sx, ex, ey, left, right, border_at(border_chars, 2, 43), border_at(border_chars, 3, 43), border_at(border_chars, 4, 45));
    }
    proof {
        assert(out@ =~= b.fill_ops() + b.top_ops() + b.bottom_ops());
    }
    push_verticals(&mut out, Ghost(b), border_sides, sx, sy, ex, ey, left, right, top, bottom, border_at(border_chars, 5, 124));
    push_title(&mut out, Ghost(b), title, title_alignment, width, sx, sy, ex, top);
    out
}

fn box_region(Ghost(b): Ghost<BoxSpec>, buf_width: u32, buf_height: u32, scissor: Option<ClipRect>, x: i32, y: i32, width: u32, height: u32) -> (r: Option<(i64, i64, i64, i64, i64, i64)>)
    requires
        b.box_ok(),
        b.buf_width == buf_width && b.buf_height == buf_height && b.scissor == scissor,
        b.x == x && b.y == y && b.width == width && b.height == height,
    ensures
        r is None <==> (!b.visible0() || b.clipped() is None),
        r matches Some(t) ==> {
            &&& t.0 == b.sx() && t.1 == b.sy() && t.2 == b.ex() && t.3 == b.ey()
            &&& t.4 == b.far_x() && t.5 == b.far_y()
            &&& 0 <= t.0 <= t.2 <= i32::MAX
            &&& 0 <= t.1 <= t.3 <= i32::MAX
            &&& b.visible0() && b.clipped() is Some
        },
{
    if width == 0 || height == 0 {
        return None;
    }
    let sx0: i64 = if x >= 0 { x as i64 } else { 0 };
    let sy0: i64 = if y >= 0 { y as i64 } else { 0 };
    let far_x: i64 = edge64(x as i64, width) - 1;
    let far_y: i64 = edge64(y as i64, height) - 1;
    let bw: i64 = edge64(0, buf_width) - 1;
    let bh: i64 = edge64(0, buf_height) - 1;
    let ex0: i64 = if bw <= far_x { bw } else { far_x };
    let ey0: i64 = if bh <= far_y { bh } else { far_y };
    if sx0 > ex0 || sy0 > ey0 {
        return None;
    }
    let rect0 = ClipRect { x: sx0 as i32, y: sy0 as i32, width: (ex0 - sx0 + 1) as u32, height: (ey0 - sy0 + 1) as u32 };
    assert(rect0 == b.rect0());
    let bounds = ClipRect { x: 0, y: 0, width: buf_width, height: buf_height };
    let c1 = match intersect_rects(rect0, bounds) {
        Some(c) => c,
        None => {
            return None;
        },
    };
    let clipped = match scissor {
        Some(s) => match intersect_rects(c1, s) {
            Some(c) => c,
            None => {
                return None;
            },
        },
        None => c1,
    };
    let cx2: i64 = clipped.x as i64 + clipped.width as i64 - 1;
    let cy2: i64 = clipped.y as i64 + clipped.height as i64 - 1;
    let sx: i64 = if sx0 >= clipped.x as i64 { sx0 } else { clipped.x as i64 };
    let sy: i64 = if sy0 >= clipped.y as i64 { sy0 } else { clipped.y as i64 };
    let ex: i64 = if ex0 <= cx2 { ex0 } else { cx2 };
    let ey: i64 = if ey0 <= cy2 { ey0 } else { cy2 };
    Some((sx, sy, ex, ey, far_x, far_y))
}

fn push_title(out: &mut Vec<BoxOp>, Ghost(b): Ghost<BoxSpec>, title: Option<&[char]>, title_alignment: u8, width: u32, sx: i64, sy: i64, ex: i64, top: bool)
    requires
        b.box_ok(),
        b.visible0() && b.clipped() is Some,
        b.title == match title {
            Some(t) => Some(t@),
            None => None,
        },
        b.align == title_alignment && b.width == width,
        sx == b.sx() && sy == b.sy() && ex == b.ex() && top == b.top(),
        0 <= sx <= ex <= i32::MAX,
        0 <= sy <= i32::MAX,
    ensures
        final(out)@ == old(out)@ + b.title_ops(),
{
    match title {
        Some(t) => {
            if t.len() > 0 && top {
                let tw = title_columns(t) as i64;
                let w: i64 = edge64(0, width);
                if w >= tw + 4 {
                    let unclamped: i64 = if title_alignment == 1 {
                        let half = (w - tw) / 2;
                        sx + if half >= 2 { half } else { 2 }
                    } else if title_alignment == 2 {
                        sx + w - 2 - tw
                    } else {
                        sx + 2
                    };
                    let lo: i64 = sx + 1;
                    let d: i64 = if ex - tw >= i32::MIN as i64 { ex - tw } else { i32::MIN as i64 };
                    let hi: i64 = if d >= lo { d } else { lo };
                    let tx: i64 = if unclamped < lo { lo } else if unclamped > hi { hi } else { unclamped };
                    out.push(BoxOp::Title { x: tx as usize, y: sy as usize });
                }
            }
        },
        None => {},
    }
    proof {
        assert(final(out)@ =~= old(out)@ + b.title_ops());
    }
}

fn push_fill(out: &mut Vec<BoxOp>, Ghost(b): Ghost<BoxSpec>, fill: bool, sides: BorderSides, sx: i64, sy: i64, ex: i64, ey: i64, left: bool, right: bool, top: bool, bottom: bool)
    requires
        fill == b.fill,
        sides == b.sides,
        b.visible0(),
        b.clipped() is Some,
        sx == b.sx() && sy == b.sy() && ex == b.ex() && ey == b.ey(),
        left == b.left() && right == b.right() && top == b.top() && bottom == b.bottom(),
        0 <= sx <= ex <= i32::MAX,
        0 <= sy <= ey <= i32::MAX,
    ensures
        final(out)@ == old(out)@ + b.fill_ops(),
{
    if !fill {
        proof {
            assert(final(out)@ =~= old(out)@ + b.fill_ops());
        }
        return;
    }
    if !sides.top && !sides.right && !sides.bottom && !sides.left {
        out.push(BoxOp::Fill { x: sx as usize, y: sy as usize, width: (ex - sx + 1) as usize, height: (ey - sy + 1) as usize });
        proof {
            assert(final(out)@ =~= old(out)@ + b.fill_ops());
        }
        return;
    }
    let isx: i64 = sx + if left { 1 } else { 0 };
    let isy: i64 = sy + if top { 1 } else { 0 };
    let iex: i64 = ex - if right { 1 } else { 0 };
    let iey: i64 = ey - if bottom { 1 } else { 0 };
    if iex >= isx && iey >= isy {
        out.push(BoxOp::Fill { x: isx as usize, y: isy as usize, width: (iex - isx + 1) as usize, height: (iey - isy + 1) as usize });
    }
    proof {
        assert(final(out)@ =~= old(out)@ + b.fill_ops());
    }
}

fn push_hborder(out: &mut Vec<BoxOp>, Ghost(b): Ghost<BoxSpec>, sx: i64, ex: i64, row: i64, left: bool, right: bool, first: u32, last: u32, horizontal: u32)
    requires
        sx == b.sx() && ex == b.ex(),
        left == b.left() && right == b.right(),
        horizontal == border_char(b.chars, 4, 45),
        0 <= sx <= ex <= i32::MAX,
        0 <= row <= i32::MAX,
    ensures
        final(out)@ == old(out)@ + b.hborder(row as int, first, last),
{
    let ghost target = b.hborder(row as int, first, last);
    let mut dx: i64 = sx;
    while dx <= ex
        invariant
            sx <= dx <= ex + 1,
            sx == b.sx() && ex == b.ex(),
            left == b.left() && right == b.right(),
            horizontal == border_char(b.chars, 4, 45),
            0 <= sx <= ex <= i32::MAX,
            0 <= row <= i32::MAX,
            target == b.hborder(row as int, first, last),
            out@ == old(out)@ + target.take(dx - sx),
        decreases ex + 1 - dx,
    {
        let ch = if dx == sx && left {
            first
        } else if dx == ex && right {
            last
        } else {
            horizontal
        };
        out.push(BoxOp::Cell(CellWrite { x: dx as usize, y: row as usize, ch }));
        proof {
            assert(old(out)@ + target.take(dx + 1 - sx) =~= (old(out)@ + target.take(dx - sx)).push(target[dx - sx]));
        }
        dx = dx + 1;
    }
    proof {
        assert(target.take(ex + 1 - sx) =~= target);
    }
}

fn push_verticals(out: &mut Vec<BoxOp>, Ghost(b): Ghost<BoxSpec>, sides: BorderSides, sx: i64, sy: i64, ex: i64, ey: i64, left: bool, right: bool, top: bool, bottom: bool, vertical: u32)
    requires
        sides == b.sides,
        sx == b.sx() && sy == b.sy() && ex == b.ex() && ey == b.ey(),
        left == b.left() && right == b.right() && top == b.top() && bottom == b.bottom(),
        vertical == border_char(b.chars, 5, 124),
        0 <= sx <= ex <= i32::MAX,
        0 <= sy <= ey <= i32::MAX,
    ensures
        final(out)@ == old(out)@ + b.vertical_ops(),
{
    let left_only = left && !sides.top && !sides.bottom;
    let right_only = right && !sides.top && !sides.bottom;
    let bottom_only = bottom && !sides.top && (sides.left || sides.right);
    let top_only = top && !sides.bottom && (sides.left || sides.right);
    let vstart: i64 = if left_only || right_only || bottom_only { sy } else { sy + if top { 1 } else { 0 } };
    let vend: i64 = if left_only || right_only || top_only { ey } else { ey - if bottom { 1 } else { 0 } };
    assert(vstart == b.vstart() && vend == b.vend());
    let mut dy: i64 = vstart;
    proof {
        assert(old(out)@ =~= old(out)@ + b.vrows_upto(0));
    }
    while dy <= vend
        invariant
            vstart <= dy,
            dy <= vend + 1 || vend < vstart,
            vend < vstart ==> dy == vstart,
            vstart == b.vstart() && vend == b.vend(),
            sx == b.sx() && ex == b.ex(),
            left == b.left() && right == b.right(),
            vertical == border_char(b.chars, 5, 124),
            0 <= sx <= ex <= i32::MAX,
            0 <= vstart,
            vend <= i32::MAX,
            out@ == old(out)@ + b.vrows_upto(dy - vstart),
        decreases vend + 1 - dy,
    {
        let ghost before = out@;
        if left {
            out.push(BoxOp::Cell(CellWrite { x: sx as usize, y: dy as usize, ch: vertical }));
        }
        if right {
            out.push(BoxOp::Cell(CellWrite { x: ex as usize, y: dy as usize, ch: vertical }));
        }
        proof {
            assert(out@ =~= before + b.vrow(dy as int));
            assert(b.vrows_upto(dy + 1 - vstart) == b.vrows_upto(dy - vstart) + b.vrow(b.vstart() + (dy + 1 - vstart) - 1));
        }
        dy = dy + 1;
    }
}

/// What copying one buffer's cells into another depends on, as integers:
/// the destination's size and top scissor rectangle, where the copy lands,
/// the source's size, and the source region (its size defaulting to the
/// rest of the source).
pub struct CopySpec {
    pub dest_width: u32,
    pub dest_height: u32,
    pub scissor: Option<ClipRect>,
    pub dest_x: int,
    pub dest_y: int,
    pub src_width: u32,
    pub src_height: u32,
    pub source_x: u32,
    pub source_y: u32,
    pub source_width: Option<u32>,
    pub source_height: Option<u32>,
}

impl CopySpec {
    pub open spec fn nothing_to_copy(self) -> bool {
        self.dest_width == 0 || self.dest_height == 0 || self.src_width == 0 || self.src_height == 0 || self.source_x
            >= self.src_width || self.source_y >= self.src_height
    }

    pub open spec fn sw(self) -> int {
        match self.source_width {
            Some(w) => w as int,
            None => self.src_width - self.source_x,
        }
    }

    pub open spec fn sh(self) -> int {
        match self.source_height {
            Some(h) => h as int,
            None => self.src_height - self.source_y,
        }
    }

    /// The region's size, cut to what the source has.
    pub open spec fn csw(self) -> int {
        min_i(self.sw(), self.src_width - self.source_x)
    }

    pub open spec fn csh(self) -> int {
        min_i(self.sh(), self.src_height - self.source_y)
    }

    /// The destination rectangle within the buffer, before the scissor.
    pub open spec fn sdx(self) -> int {
        max_i(self.dest_x, 0)
    }

    pub open spec fn sdy(self) -> int {
        max_i(self.dest_y, 0)
    }

    pub open spec fn edx(self) -> int {
        min_i(self.dest_x + i32_of(self.csw() as u32) - 1, i32_of(self.dest_width) - 1)
    }

    pub open spec fn edy(self) -> int {
        min_i(self.dest_y + i32_of(self.csh() as u32) - 1, i32_of(self.dest_height) - 1)
    }

    pub open spec fn visible(self) -> bool {
        !self.nothing_to_copy() && self.sw() > 0 && self.sh() > 0 && self.sdx() <= self.edx() && self.sdy() <= self.edy()
    }

    pub open spec fn rect(self) -> ClipRect {
        ClipRect {
            x: self.sdx() as i32,
            y: self.sdy() as i32,
            width: (self.edx() - self.sdx() + 1) as u32,
            height: (self.edy() - self.sdy() + 1) as u32,
        }
    }

    pub open spec fn bounds(self) -> ClipRect {
        ClipRect { x: 0, y: 0, width: self.dest_width, height: self.dest_height }
    }

    pub open spec fn clipped(self) -> Option<ClipRect> {
        match intersect_spec(self.rect(), self.bounds()) {
            None => None,
            Some(c) => match self.scissor {
                Some(s) => intersect_spec(c, s),
                None => Some(c),
            },
        }
    }

    /// The destination cells written, as an inclusive range of columns and
    /// of rows; none when nothing is copied.
    pub open spec fn region(self) -> Option<(int, int, int, int)> {
        if !self.visible() {
            None
        } else {
            match self.clipped() {
                None => None,
                Some(c) => Some(
                    (
                        max_i(self.sdx(), c.x as int),
                        max_i(self.sdy(), c.y as int),
                        min_i(self.edx(), c.x + c.width - 1),
                        min_i(self.edy(), c.y + c.height - 1),
                    ),
                ),
            }
        }
    }

    /// The copy's arithmetic stays within `i32`, as the drawing computes it.
    pub open spec fn copy_ok(self) -> bool {
        &&& fits_i32(i32_of(self.dest_width) - 1) && fits_i32(i32_of(self.dest_height) - 1)
        &&& (!self.nothing_to_copy() && self.sw() > 0 && self.sh() > 0) ==> {
            &&& fits_i32(self.dest_x + i32_of(self.csw() as u32) - 1)
            &&& fits_i32(self.dest_y + i32_of(self.csh() as u32) - 1)
        }
        &&& self.visible() ==> {
            &&& intersect_ok(self.rect(), self.bounds())
            &&& (intersect_spec(self.rect(), self.bounds()) matches Some(c) ==> (self.scissor matches Some(s)
                ==> intersect_ok(c, s)))
        }
    }
}

pub open spec fn copy_spec(
    dest_width: u32,
    dest_height: u32,
    scissor: Option<ClipRect>,
    dest_x: i32,
    dest_y: i32,
    src_width: u32,
    src_height: u32,
    source_x: u32,
    source_y: u32,
    source_width: Option<u32>,
    source_height: Option<u32>,
) -> CopySpec {
    CopySpec {
        dest_width,
        dest_height,
        scissor,
        dest_x: dest_x as int,
        dest_y: dest_y as int,
        src_width,
        src_height,
        source_x,
        source_y,
        source_width,
        source_height,
    }
}

/// The destination cells a copy writes: columns `x0..=x1` of rows
/// `y0..=y1`; destination cell `(col, row)` takes source cell
/// `(source_x + col - dest_x, source_y + row - dest_y)`.
#[derive(Clone, Copy, Debug, PartialEq, Eq, Structural)]
pub struct CopyRegion {
    pub x0: i32,
    pub y0: i32,
    pub x1: i32,
    pub y1: i32,
}

fn copy_rect(
    Ghost(spec): Ghost<CopySpec>,
    dest_width: u32,
    dest_height: u32,
    dest_x: i32,
    dest_y: i32,
    src_width: u32,
    src_height: u32,
    source_x: u32,
    source_y: u32,
    source_width: Option<u32>,
    source_height: Option<u32>,
) -> (r: Option<(i64, i64, i64, i64)>)
    requires
        spec.copy_ok(),
        spec.dest_width == dest_width && spec.dest_height == dest_height,
        spec.dest_x == dest_x && spec.dest_y == dest_y,
        spec.src_width == src_width && spec.src_height == src_height,
        spec.source_x == source_x && spec.source_y == source_y,
        spec.source_width == source_width && spec.source_height == source_height,
    ensures
        r is None <==> !spec.visible(),
        r matches Some(t) ==> {
            &&& t.0 == spec.sdx() && t.1 == spec.sdy() && t.2 == spec.edx() && t.3 == spec.edy()
            &&& 0 <= t.0 <= t.2 <= i32::MAX && 0 <= t.1 <= t.3 <= i32::MAX
        },
{
    if dest_width == 0 || dest_height == 0 || src_width == 0 || src_height == 0 || source_x >= src_width || source_y
        >= src_height {
        return None;
    }
    let sw: u32 = match source_width {
        Some(w) => w,
        None => src_width - source_x,
    };
    let sh: u32 = match source_height {
        Some(h) => h,
        None => src_height - source_y,
    };
    if sw == 0 || sh == 0 {
        return None;
    }
    let csw: u32 = if sw <= src_width - source_x { sw } else { src_width - source_x };
    let csh: u32 = if sh <= src_height - source_y { sh } else { src_height - source_y };
    assert(csw == spec.csw() && csh == spec.csh());
    let sdx: i64 = if dest_x >= 0 { dest_x as i64 } else { 0 };
    let sdy: i64 = if dest_y >= 0 { dest_y as i64 } else { 0 };
    let far_x: i64 = edge64(dest_x as i64, csw) - 1;
    let far_y: i64 = edge64(dest_y as i64, csh) - 1;
    let bw: i64 = edge64(0, dest_width) - 1;
    let bh: i64 = edge64(0, dest_height) - 1;
    let edx: i64 = if far_x <= bw { far_x } else { bw };
    let edy: i64 = if far_y <= bh { far_y } else { bh };
    if sdx > edx || sdy > edy {
        return None;
    }
    Some((sdx, sdy, edx, edy))
}

/// Where copying a region of one buffer into another writes (see
/// `CopySpec::region`).
pub fn plan_frame_copy(
    dest_width: u32,
    dest_height: u32,
    scissor: Option<ClipRect>,
    dest_x: i32,
    dest_y: i32,
    src_width: u32,
    src_height: u32,
    source_x: u32,
    source_y: u32,
    source_width: Option<u32>,
    source_height: Option<u32>,
) -> (r: Option<CopyRegion>)
    requires
        copy_spec(
            dest_width,
            dest_height,
            scissor,
            dest_x,
            dest_y,
            src_width,
            src_height,
            source_x,
            source_y,
            source_width,
            source_height,
        ).copy_ok(),
    ensures
        ({
            let spec = copy_spec(
                dest_width,
                dest_height,
                scissor,
                dest_x,
                dest_y,
                src_width,
                src_height,
                source_x,
                source_y,
                source_width,
                source_height,
            );
            match r {
                None => spec.region() is None,
                Some(c) => spec.region() == Some((c.x0 as int, c.y0 as int, c.x1 as int, c.y1 as int)),
            }
        }),
{
    let ghost spec = copy_spec(
        dest_width,
        dest_height,
        scissor,
        dest_x,
        dest_y,
        src_width,
        src_height,
        source_x,
        source_y,
        source_width,
        source_height,
    );
    let (sdx, sdy, edx, edy) = match copy_rect(
        Ghost(spec),
        dest_width,
        dest_height,
        dest_x,
        dest_y,
        src_width,
        src_height,
        source_x,
        source_y,
        source_width,
        source_height,
    ) {
        Some(t) => t,
        None => {
            return None;
        },
    };
    let rect = ClipRect { x: sdx as i32, y: sdy as i32, width: (edx - sdx + 1) as u32, height: (edy - sdy + 1) as u32 };
    assert(rect == spec.rect());
    let bounds = ClipRect { x: 0, y: 0, width: dest_width, height: dest_height };
    let c1 = match intersect_rects(rect, bounds) {
        Some(c) => c,
        None => {
            return None;
        },
    };
    let clipped = match scissor {
        Some(s) => match intersect_rects(c1, s) {
            Some(c) => c,
            None => {
                return None;
            },
        },
        None => c1,
    };
    let cx2: i64 = clipped.x as i64 + clipped.width as i64 - 1;
    let cy2: i64 = clipped.y as i64 + clipped.height as i64 - 1;
    let x0: i64 = if sdx >= clipped.x as i64 { sdx } else { clipped.x as i64 };
    let y0: i64 = if sdy >= clipped.y as i64 { sdy } else { clipped.y as i64 };
    let x1: i64 = if edx <= cx2 { edx } else { cx2 };
    let y1: i64 = if edy <= cy2 { edy } else { cy2 };
    Some(CopyRegion { x0: x0 as i32, y0: y0 as i32, x1: x1 as i32, y1: y1 as i32 })
}

/// `;` and a one-digit SGR code when `on`.
pub open spec fn flag_code(on: bool, code: u8) -> Seq<u8> {
    if on { seq![59u8, code] } else { Seq::empty() }
}

/// The SGR codes of the eight low attribute bits, in bit order.
pub open spec fn attribute_codes(attributes: u32) -> Seq<u8> {
    flag_code(attributes & 1 != 0, 49) + flag_code(attributes & 2 != 0, 50) + flag_code(attributes & 4 != 0, 51)
        + flag_code(attributes & 8 != 0, 52) + flag_code(attributes & 16 != 0, 53) + flag_code(attributes & 32 != 0, 55)
        + flag_code(attributes & 64 != 0, 56) + flag_code(attributes & 128 != 0, 57)
}

/// The standard SGR code of attribute bit `k`, as an ASCII digit: bold 1,
/// dim 2, italic 3, underline 4, blink 5, inverse 7, hidden 8,
/// strikethrough 9.
pub open spec fn standard_sgr_digit(k: int) -> u8 {
    if k == 0 {
        49
    } else if k == 1 {
        50
    } else if k == 2 {
        51
    } else if k == 3 {
        52
    } else if k == 4 {
        53
    } else if k == 5 {
        55
    } else if k == 6 {
        56
    } else {
        57
    }
}

/// Attribute bit `k` as a mask.
pub open spec fn attribute_bit(k: int) -> u32 {
    if k == 0 {
        1
    } else if k == 1 {
        2
    } else if k == 2 {
        4
    } else if k == 3 {
        8
    } else if k == 4 {
        16
    } else if k == 5 {
        32
    } else if k == 6 {
        64
    } else {
        128
    }
}

/// `;` and the standard code of each set attribute bit below bit `n`,
/// lowest bit first.
pub open spec fn standard_codes_below(attributes: u32, n: int) -> Seq<u8>
    decreases n,
{
    if n <= 0 {
        Seq::empty()
    } else {
        standard_codes_below(attributes, n - 1) + if attributes & attribute_bit(n - 1) != 0 {
            seq![59u8, standard_sgr_digit(n - 1)]
        } else {
            Seq::empty()
        }
    }
}

/// An SGR sequence names each set attribute bit by its standard code, in
/// bit order, between the reset and the colors: italic (bit 2) as 3,
/// underline (bit 3) as 4, and so on.
pub proof fn lemma_sgr_uses_standard_attribute_codes(fg: [u8; 3], bg: [u8; 3], attributes: u32)
    ensures
        sgr_bytes(fg, bg, attributes) == seq![27u8, 91u8, 48u8] + standard_codes_below(attributes, 8) + rgb_code(
            51,
            fg,
        ) + rgb_code(52, bg) + seq![109u8],
{
    let a = attributes;
    let f0 = flag_code(a & 1 != 0, 49);
    assert(standard_codes_below(a, 1) =~= f0) by {
        assert(standard_codes_below(a, 0) == Seq::<u8>::empty());
    }
    assert(standard_codes_below(a, 2) == standard_codes_below(a, 1) + flag_code(a & 2 != 0, 50));
    assert(standard_codes_below(a, 3) == standard_codes_below(a, 2) + flag_code(a & 4 != 0, 51));
    assert(standard_codes_below(a, 4) == standard_codes_below(a, 3) + flag_code(a & 8 != 0, 52));
    assert(standard_codes_below(a, 5) == standard_codes_below(a, 4) + flag_code(a & 16 != 0, 53));
    assert(standard_codes_below(a, 6) == standard_codes_below(a, 5) + flag_code(a & 32 != 0, 55));
    assert(standard_codes_below(a, 7) == standard_codes_below(a, 6) + flag_code(a & 64 != 0, 56));
    assert(standard_codes_below(a, 8) == standard_codes_below(a, 7) + flag_code(a & 128 != 0, 57));
}

/// `;` `lead` `8;2;r;g;b`: a 24-bit color code.
pub open spec fn rgb_code(lead: u8, rgb: [u8; 3]) -> Seq<u8> {
    seq![59u8, lead, 56u8, 59u8, 50u8, 59u8] + decimal(rgb[0] as nat) + seq![59u8] + decimal(rgb[1] as nat) + seq![59u8]
        + decimal(rgb[2] as nat)
}

/// One SGR sequence: reset, the attributes, the foreground and the
/// background color.
pub open spec fn sgr_bytes(fg: [u8; 3], bg: [u8; 3], attributes: u32) -> Seq<u8> {
    seq![27u8, 91u8, 48u8] + attribute_codes(attributes) + rgb_code(51, fg) + rgb_code(52, bg) + seq![109u8]
}

fn push_flag_code(out: &mut Vec<u8>, on: bool, code: u8)
    ensures
        final(out)@ == old(out)@ + flag_code(on, code),
{
    if on {
        out.push(59u8);
        out.push(code);
    }
    assert(out@ =~= old(out)@ + flag_code(on, code));
}

fn push_rgb_code(out: &mut Vec<u8>, lead: u8, rgb: [u8; 3])
    ensures
        final(out)@ == old(out)@ + rgb_code(lead, rgb),
{
    out.push(59u8);
    out.push(lead);
    out.push(56u8);
    out.push(59u8);
    out.push(50u8);
    out.push(59u8);
    let ghost s0 = out@;
    push_decimal(out, rgb[0] as u32);
    out.push(59u8);
    let ghost s1 = out@;
    push_decimal(out, rgb[1] as u32);
    out.push(59u8);
    let ghost s2 = out@;
    push_decimal(out, rgb[2] as u32);
    proof {
        assert(s0 =~= old(out)@ + seq![59u8, lead, 56u8, 59u8, 50u8, 59u8]);
        assert(out@ =~= old(out)@ + rgb_code(lead, rgb));
    }
}

fn push_attribute_codes(out: &mut Vec<u8>, attributes: u32)
    ensures
        final(out)@ == old(out)@ + attribute_codes(attributes),
{
    push_flag_code(out, attributes & 1 != 0, 49);
    push_flag_code(out, attributes & 2 != 0, 50);
    push_flag_code(out, attributes & 4 != 0, 51);
    push_flag_code(out, attributes & 8 != 0, 52);
    push_flag_code(out, attributes & 16 != 0, 53);
    push_flag_code(out, attributes & 32 != 0, 55);
    push_flag_code(out, attributes & 64 != 0, 56);
    push_flag_code(out, attributes & 128 != 0, 57);
    proof {
        crate::crossterm_backend::lemma_append8(
            old(out)@,
            flag_code(attributes & 1 != 0, 49),
            flag_code(attributes & 2 != 0, 50),
            flag_code(attributes & 4 != 0, 51),
            flag_code(attributes & 8 != 0, 52),
            flag_code(attributes & 16 != 0, 53),
            flag_code(attributes & 32 != 0, 55),
            flag_code(attributes & 64 != 0, 56),
            flag_code(attributes & 128 != 0, 57),
        );
    }
}

proof fn lemma_append5(s: Seq<u8>, a: Seq<u8>, b: Seq<u8>, c: Seq<u8>, d: Seq<u8>, e: Seq<u8>)
    ensures
        s + (a + b + c + d + e) == s + a + b + c + d + e,
{
    assert(s + (a + b + c + d + e) =~= s + a + b + c + d + e);
}

/// Appends the SGR sequence for a cell's style: `ESC [0`, the attribute
/// codes, `38;2;r;g;b` and `48;2;r;g;b`, then `m`.
pub fn append_sgr(out: &mut Vec<u8>, fg: [u8; 3], bg: [u8; 3], attributes: u32)
    ensures
        final(out)@ == old(out)@ + sgr_bytes(fg, bg, attributes),
{
    let lead: Vec<u8> = vec![27u8, 91u8, 48u8];
    crate::crossterm_backend::push_bytes(out, lead.as_slice());
    push_attribute_codes(out, attributes);
    push_rgb_code(out, 51, fg);
    push_rgb_code(out, 52, bg);
    out.push(109u8);
    proof {
        lemma_append5(
            old(out)@,
            seq![27u8, 91u8, 48u8],
            attribute_codes(attributes),
            rgb_code(51, fg),
            rgb_code(52, bg),
            seq![109u8],
        );
        assert(lead@ =~= seq![27u8, 91u8, 48u8]);
    }
}

/// The char a packed cell shows: a space for 0 or a value past the last
/// code point, a full block for control codes and for the range between
/// `~` and the block elements, else the value itself.
pub open spec fn packed_char_spec(codepoint: u32) -> u32 {
    if codepoint == 0 || codepoint > 0x10ffff {
        32
    } else if codepoint < 32 || (codepoint > 126 && codepoint < 0x2580) {
        0x2588
    } else {
        codepoint
    }
}

pub fn packed_char(codepoint: u32) -> (r: u32)
    ensures
        r == packed_char_spec(codepoint),
{
    if codepoint == 0 || codepoint > 0x10ffff {
        32
    } else if codepoint < 32 || (codepoint > 126 && codepoint < 0x2580) {
        0x2588
    } else {
        codepoint
    }
}

/// Where the `index`-th packed cell goes: `index` laid out row by row in
/// rows `terminal_width` wide from (pos_x, pos_y); none outside the
/// terminal or the buffer.
pub open spec fn packed_target_spec(
    index: int,
    pos_x: int,
    pos_y: int,
    terminal_width: int,
    terminal_height: int,
    width: int,
    height: int,
) -> Option<(int, int)> {
    let x = pos_x + index % terminal_width;
    let y = pos_y + index / terminal_width;
    if x >= terminal_width || y >= terminal_height || x >= width || y >= height {
        None
    } else {
        Some((x, y))
    }
}

pub fn packed_target(
    index: u32,
    pos_x: u32,
    pos_y: u32,
    terminal_width: u32,
    terminal_height: u32,
    width: usize,
    height: usize,
) -> (r: Option<(usize, usize)>)
    requires
        terminal_width > 0,
        pos_x + index % terminal_width <= u32::MAX,
        pos_y + index / terminal_width <= u32::MAX,
    ensures
        match r {
            None => packed_target_spec(
                index as int,
                pos_x as int,
                pos_y as int,
                terminal_width as int,
                terminal_height as int,
                width as int,
                height as int,
            ) is None,
            Some(t) => packed_target_spec(
                index as int,
                pos_x as int,
                pos_y as int,
                terminal_width as int,
                terminal_height as int,
                width as int,
                height as int,
            ) == Some((t.0 as int, t.1 as int)),
        },
{
    let x: u32 = pos_x + index % terminal_width;
    let y: u32 = pos_y + index / terminal_width;
    if x >= terminal_width || y >= terminal_height || x as usize >= width || y as usize >= height {
        None
    } else {
        Some((x as usize, y as usize))
    }
}

} // verus!
