//! An editable text buffer: a cursor measured in weight offsets, edits that
//! record snapshots for undo, and redo of undone edits.
use crate::text::{
    copy_range, encode_chars, lemma_normalize_identity, lemma_prefix_bounds, line_range, line_start, line_start_offset,
    line_width_at, lines_of, next_offset, next_offset_spec, no_cr, normalize_newlines, offset_position,
    offset_to_position, position_offset, position_to_offset, previous_offset, previous_offset_spec, sat,
    text_weight, text_width, utf8_lossy, weight_prefix, width_prefix,
};
use crate::text::weight_slice;
use crate::text_buffer::{coords_text, delete_weight_range, lemma_same_but_text, weight_index, Rgba, TextBufferState};
use crate::word::{or_else, word_boundary, word_boundary_spec};
use vstd::prelude::*;

verus! {

/// A cursor as (row, column) and the weight offset it stands at.
#[derive(Clone, Copy, Debug, Default, PartialEq, Eq, Structural)]
pub struct LogicalCursor {
    pub row: u32,
    pub col: u32,
    pub offset: u32,
}

#[derive(Debug)]
struct EditBufferSnapshot {
    text: Vec<char>,
    cursor_offset: u32,
}

#[derive(Debug)]
pub struct EditBufferState {
    id: u16,
    text_buffer: TextBufferState,
    cursor_offset: u32,
    undo_stack: Vec<EditBufferSnapshot>,
    redo_stack: Vec<EditBufferSnapshot>,
}

/// What an edit buffer holds, as mathematical values: the text, the tab
/// width its offsets are measured with, the cursor and the two histories of
/// (text, cursor) snapshots, most recent last.
pub struct EditView {
    pub text: Seq<char>,
    pub tab_width: u8,
    pub cursor: u32,
    pub undo: Seq<(Seq<char>, u32)>,
    pub redo: Seq<(Seq<char>, u32)>,
}

/// Total weight of a text: the largest offset in it.
pub open spec fn total_weight(text: Seq<char>, tab_width: u8) -> int {
    weight_prefix(text, tab_width, text.len() as int)
}

pub open spec fn min_u32(a: u32, b: int) -> u32 {
    if a <= b { a } else { b as u32 }
}

/// Records the current text and cursor for undo and forgets what could be
/// redone.
pub open spec fn store_undo_spec(m: EditView) -> EditView {
    EditView { undo: m.undo.push((m.text, m.cursor)), redo: Seq::empty(), ..m }
}

/// Brings back a snapshot's text, with its cursor clamped to that text.
pub open spec fn restore_spec(m: EditView, s: (Seq<char>, u32)) -> EditView {
    EditView { text: s.0, cursor: min_u32(s.1, total_weight(s.0, m.tab_width)), ..m }
}

/// Undo: the last undo snapshot comes back and the current state goes to
/// the redo history; nothing happens when there is no snapshot.
pub open spec fn undo_spec(m: EditView) -> EditView {
    if m.undo.len() == 0 {
        m
    } else {
        restore_spec(
            EditView { undo: m.undo.drop_last(), redo: m.redo.push((m.text, m.cursor)), ..m },
            m.undo.last(),
        )
    }
}

/// Redo: the last redo snapshot comes back and the current state goes to
/// the undo history; nothing happens when there is no snapshot.
pub open spec fn redo_spec(m: EditView) -> EditView {
    if m.redo.len() == 0 {
        m
    } else {
        restore_spec(
            EditView { redo: m.redo.drop_last(), undo: m.undo.push((m.text, m.cursor)), ..m },
            m.redo.last(),
        )
    }
}

/// An edit: the state is recorded for undo, then text and cursor change.
pub open spec fn edit_spec(m: EditView, text: Seq<char>, cursor: u32) -> EditView {
    EditView { text, cursor, ..store_undo_spec(m) }
}

/// A new text without history, the cursor at its start.
pub open spec fn reset_spec(m: EditView, text: Seq<char>) -> EditView {
    EditView { text, cursor: 0, undo: Seq::empty(), redo: Seq::empty(), ..m }
}

pub open spec fn snapshots_no_cr(s: Seq<(Seq<char>, u32)>) -> bool {
    forall|i: int| 0 <= i < s.len() ==> no_cr(#[trigger] s[i].0)
}

/// Undoing an edit brings back the text from before it, with the cursor
/// from before it clamped to that text, and the undo history from before
/// it; the edited state is then the only one that can be redone.
pub proof fn lemma_undo_reverts_edit(m: EditView, text: Seq<char>, cursor: u32)
    ensures
        undo_spec(edit_spec(m, text, cursor)) == (EditView {
            text: m.text,
            tab_width: m.tab_width,
            cursor: min_u32(m.cursor, total_weight(m.text, m.tab_width)),
            undo: m.undo,
            redo: seq![(text, cursor)],
        }),
{
    assert(m.undo.push((m.text, m.cursor)).drop_last() =~= m.undo);
    assert(Seq::<(Seq<char>, u32)>::empty().push((text, cursor)) =~= seq![(text, cursor)]);
}

/// Redoing right after an undo brings back the undone text, leaves the redo
/// history as it was before the undo and gives the undo history back its
/// length, with the undone text on top.
pub proof fn lemma_redo_reverts_undo(m: EditView)
    requires
        m.undo.len() > 0,
    ensures
        redo_spec(undo_spec(m)).text == m.text,
        redo_spec(undo_spec(m)).cursor == min_u32(m.cursor, total_weight(m.text, m.tab_width)),
        redo_spec(undo_spec(m)).redo == m.redo,
        redo_spec(undo_spec(m)).undo.len() == m.undo.len(),
        redo_spec(undo_spec(m)).undo.drop_last() == m.undo.drop_last(),
        redo_spec(undo_spec(m)).undo.last().0 == m.undo.last().0,
        redo_spec(undo_spec(m)).tab_width == m.tab_width,
{
    let u = undo_spec(m);
    assert(u.redo.drop_last() =~= m.redo);
    assert(u.undo.push((u.text, u.cursor)).drop_last() =~= m.undo.drop_last());
}

/// Display width of line `row`, 0 when the text has no such line.
pub open spec fn line_width_spec(text: Seq<char>, tab_width: u8, row: int) -> int {
    if 0 <= row < lines_of(text).len() {
        width_prefix(lines_of(text)[row], tab_width, lines_of(text)[row].len() as int)
    } else {
        0
    }
}

/// The logical cursor at a weight offset: its (row, column), or (0, 0) when
/// no index of the text has that offset.
pub open spec fn cursor_at(m: EditView, offset: u32) -> LogicalCursor {
    match offset_position(m.text, m.tab_width, offset as int) {
        Some(p) => LogicalCursor { row: p.0, col: p.1, offset },
        None => LogicalCursor { row: 0, col: 0, offset },
    }
}

pub open spec fn cursor_spec(m: EditView) -> LogicalCursor {
    cursor_at(m, m.cursor)
}

/// Where the cursor goes for (row, col): that position, else the same row
/// with the column clamped to the line's width, else it stays.
pub open spec fn line_col_target(m: EditView, row: u32, col: u32) -> u32 {
    match position_offset(m.text, m.tab_width, row as int, col as int) {
        Some(o) => o,
        None => {
            let c = min_u32(col, line_width_spec(m.text, m.tab_width, row as int));
            or_else(position_offset(m.text, m.tab_width, row as int, c as int), m.cursor)
        },
    }
}

pub open spec fn move_up_target(m: EditView) -> u32 {
    let c = cursor_spec(m);
    if c.row == 0 {
        m.cursor
    } else {
        let r = (c.row - 1) as u32;
        line_col_target(m, r, min_u32(c.col, line_width_spec(m.text, m.tab_width, r as int)))
    }
}

pub open spec fn move_down_target(m: EditView) -> u32 {
    let c = cursor_spec(m);
    let line_count = sat(lines_of(m.text).len() as int);
    if line_count == 0 || c.row + 1 >= line_count {
        m.cursor
    } else {
        let r = (c.row + 1) as u32;
        line_col_target(m, r, min_u32(c.col, line_width_spec(m.text, m.tab_width, r as int)))
    }
}

pub open spec fn goto_line_target(m: EditView, line: u32) -> u32 {
    if line == 0 || line_start(m.text, m.tab_width, line as int) is Some {
        line_col_target(m, line, 0)
    } else {
        m.cursor
    }
}

/// The end of the cursor's line, or the cursor itself when the text has no
/// line there.
pub open spec fn eol_spec(m: EditView) -> LogicalCursor {
    let c = cursor_spec(m);
    if c.row >= lines_of(m.text).len() {
        c
    } else {
        let col = line_width_spec(m.text, m.tab_width, c.row as int) as u32;
        LogicalCursor {
            row: c.row,
            col,
            offset: or_else(position_offset(m.text, m.tab_width, c.row as int, col as int), 0),
        }
    }
}

/// The text with `ins` inserted at the first index whose running weight is
/// `offset` (or at the end).
pub open spec fn inserted_text(text: Seq<char>, tab_width: u8, offset: u32, ins: Seq<char>) -> Seq<char> {
    if ins.len() == 0 {
        text
    } else {
        let k = weight_index(text, tab_width, offset as int);
        text.take(k) + ins + text.skip(k)
    }
}

/// The offset just past `ins` once inserted at `offset`.
pub open spec fn inserted_cursor(tab_width: u8, offset: u32, ins: Seq<char>) -> u32 {
    if ins.len() == 0 {
        offset
    } else {
        sat(offset + weight_prefix(ins, tab_width, ins.len() as int)) as u32
    }
}

pub open spec fn insert_spec(m: EditView, data: Seq<u8>) -> EditView {
    if data.len() == 0 {
        m
    } else {
        let ins = normalize_newlines(utf8_lossy(data));
        edit_spec(m, inserted_text(m.text, m.tab_width, m.cursor, ins), inserted_cursor(m.tab_width, m.cursor, ins))
    }
}

pub open spec fn min_offset(a: u32, b: u32) -> u32 {
    if a < b { a } else { b }
}

/// Deleting between two offsets, recorded for undo unless they are equal.
pub open spec fn delete_offsets_spec(m: EditView, start: u32, end: u32) -> EditView {
    if start == end {
        m
    } else {
        edit_spec(m, delete_weight_range(m.text, m.tab_width, start as int, end as int), min_offset(start, end))
    }
}

/// Deleting between two positions; a missing start is offset 0, a missing
/// end is the start.
pub open spec fn delete_coords_spec(m: EditView, sr: u32, sc: u32, er: u32, ec: u32) -> EditView {
    let start = or_else(position_offset(m.text, m.tab_width, sr as int, sc as int), 0);
    let end = or_else(position_offset(m.text, m.tab_width, er as int, ec as int), start);
    delete_offsets_spec(m, start, end)
}

/// Deleting the char before the cursor; not recorded for undo.
pub open spec fn delete_backward_spec(m: EditView) -> EditView {
    let p = previous_offset_spec(m.text, m.tab_width, m.cursor as int) as u32;
    EditView {
        text: delete_weight_range(m.text, m.tab_width, p as int, m.cursor as int),
        cursor: min_offset(p, m.cursor),
        ..m
    }
}

/// Deleting the char after the cursor; not recorded for undo.
pub open spec fn delete_forward_spec(m: EditView) -> EditView {
    let n = next_offset_spec(m.text, m.tab_width, m.cursor as int) as u32;
    EditView {
        text: delete_weight_range(m.text, m.tab_width, m.cursor as int, n as int),
        cursor: min_offset(m.cursor, n),
        ..m
    }
}

/// Deleting the cursor's line: with its newline when a line follows, else
/// joined to the line before (the cursor then at that line's old end), else
/// its content.
pub open spec fn delete_line_spec(m: EditView) -> EditView {
    let c = cursor_spec(m);
    let line_count = sat(lines_of(m.text).len() as int);
    let row = c.row;
    if line_count == 0 || row >= line_count {
        m
    } else if row + 1 < line_count {
        delete_coords_spec(m, row, 0, (row + 1) as u32, 0)
    } else if row > 0 {
        let pr = (row - 1) as u32;
        let pw = line_width_spec(m.text, m.tab_width, pr as int) as u32;
        let cw = line_width_spec(m.text, m.tab_width, row as int) as u32;
        let d = delete_coords_spec(m, pr, pw, row, cw);
        EditView { cursor: line_col_target(d, pr, pw), ..d }
    } else {
        let lw = line_width_spec(m.text, m.tab_width, row as int) as u32;
        if lw > 0 {
            delete_coords_spec(m, row, 0, row, lw)
        } else {
            m
        }
    }
}

/// The text that a buffer's registry entry `mem_id` loads, or `text` when the
/// entry is empty.
pub open spec fn mem_text(b: TextBufferState, mem_id: u8, text: Seq<char>) -> Seq<char> {
    match b.mem_view()[mem_id as int] {
        Some(d) => normalize_newlines(utf8_lossy(d)),
        None => text,
    }
}

fn bytes_equal(a: &[u8], b: &[u8]) -> (r: bool)
    ensures
        r == (a@ == b@),
{
    if a.len() != b.len() {
        return false;
    }
    let mut i: usize = 0;
    while i < a.len()
        invariant
            i <= a@.len(),
            a@.len() == b@.len(),
            forall|j: int| 0 <= j < i ==> a@[j] == b@[j],
        decreases a@.len() - i,
    {
        if a[i] != b[i] {
            return false;
        }
        i = i + 1;
    }
    proof {
        assert(a@ =~= b@);
    }
    true
}

impl EditBufferSnapshot {
    spec fn view(&self) -> (Seq<char>, u32) {
        (self.text@, self.cursor_offset)
    }
}

impl EditBufferState {
    pub closed spec fn model(&self) -> EditView {
        EditView {
            text: self.text_buffer.text_view(),
            tab_width: self.text_buffer.tab_width_view(),
            cursor: self.cursor_offset,
            undo: self.undo_stack@.map_values(|s: EditBufferSnapshot| s.view()),
            redo: self.redo_stack@.map_values(|s: EditBufferSnapshot| s.view()),
        }
    }

    /// The text buffer the edits act on.
    pub closed spec fn buffer_view(&self) -> TextBufferState {
        self.text_buffer
    }

    pub closed spec fn id_view(&self) -> u16 {
        self.id
    }

    pub closed spec fn wf(&self) -> bool {
        &&& self.text_buffer.wf()
        &&& snapshots_no_cr(self.model().undo)
        &&& snapshots_no_cr(self.model().redo)
    }

    /// The buffer's settings (everything but its text) and the id are those
    /// of `o`.
    pub closed spec fn same_settings(&self, o: &Self) -> bool {
        &&& self.text_buffer.same_but_text(&o.text_buffer)
        &&& self.id == o.id
    }

    pub proof fn lemma_wf_facts(&self)
        requires
            self.wf(),
        ensures
            no_cr(self.model().text),
            self.model().tab_width >= 1,
            self.model().text == self.buffer_view().text_view(),
            self.model().tab_width == self.buffer_view().tab_width_view(),
            self.buffer_view().wf(),
    {
        self.text_buffer.lemma_wf();
    }

    pub proof fn lemma_same_settings(a: &Self, b: &Self, c: &Self)
        ensures
            a.same_settings(a),
            a.same_settings(b) ==> a.model().tab_width == b.model().tab_width && a.id_view() == b.id_view(),
            a.same_settings(b) && b.same_settings(c) ==> a.same_settings(c),
    {
        lemma_same_but_text(&a.text_buffer, &b.text_buffer, &c.text_buffer);
    }

    /// An empty buffer with the given width method and id.
    pub fn new(width_method: u8, id: u16) -> (b: Self)
        ensures
            b.wf(),
            b.id_view() == id,
            b.model() == (EditView {
                text: Seq::empty(),
                tab_width: 4,
                cursor: 0,
                undo: Seq::empty(),
                redo: Seq::empty(),
            }),
            b.buffer_view().width_method_view() == width_method,
    {
        let b = EditBufferState {
            id,
            text_buffer: TextBufferState::new(width_method),
            cursor_offset: 0,
            undo_stack: Vec::new(),
            redo_stack: Vec::new(),
        };
        proof {
            assert(b.model().undo =~= Seq::<(Seq<char>, u32)>::empty());
            assert(b.model().redo =~= Seq::<(Seq<char>, u32)>::empty());
        }
        b
    }

    pub fn id(&self) -> (r: u16)
        ensures
            r == self.id_view(),
    {
        self.id
    }

    /// The text buffer the edits act on.
    pub fn text_buffer(&self) -> (r: &TextBufferState)
        ensures
            *r == self.buffer_view(),
    {
        &self.text_buffer
    }

    fn snapshot(&self) -> (s: EditBufferSnapshot)
        requires
            self.wf(),
        ensures
            s.view() == (self.model().text, self.model().cursor),
            no_cr(s.text@),
    {
        proof {
            self.text_buffer.lemma_wf();
        }
        let t = self.text_buffer.text_chars();
        EditBufferSnapshot { text: copy_range(t, 0, t.len()), cursor_offset: self.cursor_offset }
    }

    fn restore_snapshot(&mut self, snapshot: EditBufferSnapshot)
        requires
            old(self).wf(),
            no_cr(snapshot.text@),
        ensures
            final(self).wf(),
            final(self).same_settings(&*old(self)),
            final(self).model() == restore_spec(old(self).model(), snapshot.view()),
    {
        let bytes = encode_chars(snapshot.text.as_slice());
        proof {
            vstd::utf8::encode_utf8_valid_utf8(snapshot.text@);
            vstd::utf8::encode_utf8_decode_utf8(snapshot.text@);
            lemma_normalize_identity(snapshot.text@);
        }
        self.text_buffer.set_text_bytes(bytes.as_slice());
        proof {
            lemma_same_but_text(&self.text_buffer, &old(self).text_buffer, &old(self).text_buffer);
        }
        let total = text_weight(self.text_buffer.text_chars(), self.text_buffer.tab_width());
        self.cursor_offset = if snapshot.cursor_offset <= total {
            snapshot.cursor_offset
        } else {
            total
        };
    }

    fn store_undo(&mut self)
        requires
            old(self).wf(),
        ensures
            final(self).wf(),
            final(self).same_settings(&*old(self)),
            final(self).model() == store_undo_spec(old(self).model()),
    {
        let s = self.snapshot();
        self.undo_stack.push(s);
        self.redo_stack.clear();
        proof {
            assert(self.model().undo =~= old(self).model().undo.push((old(self).model().text, old(self).model().cursor)));
            assert(self.model().redo =~= Seq::<(Seq<char>, u32)>::empty());
            lemma_same_but_text(&self.text_buffer, &self.text_buffer, &self.text_buffer);
        }
    }

    /// Whether there is an edit to undo.
    pub fn can_undo(&self) -> (b: bool)
        ensures
            b == (self.model().undo.len() > 0),
    {
        self.undo_stack.len() > 0
    }

    /// Whether there is an undone edit to redo.
    pub fn can_redo(&self) -> (b: bool)
        ensures
            b == (self.model().redo.len() > 0),
    {
        self.redo_stack.len() > 0
    }

    /// Number of snapshots held for undo.
    pub fn undo_depth(&self) -> (n: usize)
        ensures
            n == self.model().undo.len(),
    {
        self.undo_stack.len()
    }

    /// Number of snapshots held for redo.
    pub fn redo_depth(&self) -> (n: usize)
        ensures
            n == self.model().redo.len(),
    {
        self.redo_stack.len()
    }

    /// Forgets both histories.
    pub fn clear_history(&mut self)
        requires
            old(self).wf(),
        ensures
            final(self).wf(),
            final(self).same_settings(&*old(self)),
            final(self).model() == (EditView { undo: Seq::empty(), redo: Seq::empty(), ..old(self).model() }),
    {
        self.undo_stack.clear();
        self.redo_stack.clear();
        proof {
            assert(self.model().undo =~= Seq::<(Seq<char>, u32)>::empty());
            assert(self.model().redo =~= Seq::<(Seq<char>, u32)>::empty());
            lemma_same_but_text(&self.text_buffer, &self.text_buffer, &self.text_buffer);
        }
    }

    /// Undoes the last edit; `Some("undo")` when there was one.
    pub fn undo(&mut self) -> (r: Option<String>)
        requires
            old(self).wf(),
        ensures
            final(self).wf(),
            final(self).same_settings(&*old(self)),
            final(self).model() == undo_spec(old(self).model()),
            r is Some <==> old(self).model().undo.len() > 0,
            r matches Some(s) ==> s@ == "undo"@,
    {
        let snapshot = match self.undo_stack.pop() {
            Some(s) => s,
            None => {
                proof {
                    lemma_same_but_text(&self.text_buffer, &self.text_buffer, &self.text_buffer);
                }
                return None;
            },
        };
        proof {
            assert(snapshot.view() == old(self).model().undo.last());
            assert(self.model().undo =~= old(self).model().undo.drop_last());
            assert(no_cr(old(self).model().undo[old(self).model().undo.len() - 1].0));
        }
        let current = self.snapshot();
        self.redo_stack.push(current);
        proof {
            assert(self.model().redo =~= old(self).model().redo.push((old(self).model().text, old(self).model().cursor)));
        }
        self.restore_snapshot(snapshot);
        Some("undo".to_owned())
    }

    /// Redoes the last undone edit; `Some("redo")` when there was one.
    pub fn redo(&mut self) -> (r: Option<String>)
        requires
            old(self).wf(),
        ensures
            final(self).wf(),
            final(self).same_settings(&*old(self)),
            final(self).model() == redo_spec(old(self).model()),
            r is Some <==> old(self).model().redo.len() > 0,
            r matches Some(s) ==> s@ == "redo"@,
    {
        let snapshot = match self.redo_stack.pop() {
            Some(s) => s,
            None => {
                proof {
                    lemma_same_but_text(&self.text_buffer, &self.text_buffer, &self.text_buffer);
                }
                return None;
            },
        };
        proof {
            assert(snapshot.view() == old(self).model().redo.last());
            assert(self.model().redo =~= old(self).model().redo.drop_last());
            assert(no_cr(old(self).model().redo[old(self).model().redo.len() - 1].0));
        }
        let current = self.snapshot();
        self.undo_stack.push(current);
        proof {
            assert(self.model().undo =~= old(self).model().undo.push((old(self).model().text, old(self).model().cursor)));
        }
        self.restore_snapshot(snapshot);
        Some("redo".to_owned())
    }

    /// The text as chars.
    pub fn text_chars(&self) -> (t: &[char])
        ensures
            t@ == self.model().text,
    {
        self.text_buffer.text_chars()
    }

    /// The text as UTF-8 bytes.
    pub fn text_bytes(&self) -> (b: Vec<u8>)
        ensures
            b@ == vstd::utf8::encode_utf8(self.model().text),
    {
        self.text_buffer.plain_text_bytes()
    }

    pub fn tab_width(&self) -> (t: u8)
        ensures
            t == self.model().tab_width,
    {
        self.text_buffer.tab_width()
    }

    pub fn default_fg(&self) -> (c: Option<Rgba>)
        ensures
            c == self.buffer_view().default_fg_view(),
    {
        self.text_buffer.default_fg()
    }

    pub fn default_bg(&self) -> (c: Option<Rgba>)
        ensures
            c == self.buffer_view().default_bg_view(),
    {
        self.text_buffer.default_bg()
    }

    /// The cursor's weight offset.
    pub fn current_offset(&self) -> (o: u32)
        ensures
            o == self.model().cursor,
    {
        self.cursor_offset
    }

    /// The logical cursor at a weight offset, if an index of the text has it.
    pub fn offset_to_position(&self, offset: u32) -> (r: Option<LogicalCursor>)
        ensures
            r == match offset_position(self.model().text, self.model().tab_width, offset as int) {
                Some(p) => Some(LogicalCursor { row: p.0, col: p.1, offset }),
                None => None::<LogicalCursor>,
            },
    {
        match offset_to_position(self.text_buffer.text_chars(), self.text_buffer.tab_width(), offset) {
            Some((row, col)) => Some(LogicalCursor { row, col, offset }),
            None => None,
        }
    }

    /// The weight offset of (row, col), or 0 when no index has it.
    pub fn position_to_offset(&self, row: u32, col: u32) -> (o: u32)
        ensures
            o == or_else(position_offset(self.model().text, self.model().tab_width, row as int, col as int), 0),
    {
        match position_to_offset(self.text_buffer.text_chars(), self.text_buffer.tab_width(), row, col) {
            Some(o) => o,
            None => 0,
        }
    }

    /// The weight offset where row `row` starts, or 0 when there is none.
    pub fn line_start_offset(&self, row: u32) -> (o: u32)
        ensures
            o == or_else(line_start(self.model().text, self.model().tab_width, row as int), 0),
    {
        match line_start_offset(self.text_buffer.text_chars(), self.text_buffer.tab_width(), row) {
            Some(o) => o,
            None => 0,
        }
    }

    /// The logical cursor: (0, 0) when its offset is not that of any index.
    pub fn cursor(&self) -> (c: LogicalCursor)
        ensures
            c == cursor_spec(self.model()),
    {
        let (row, col) = match offset_to_position(
            self.text_buffer.text_chars(),
            self.text_buffer.tab_width(),
            self.cursor_offset,
        ) {
            Some(p) => p,
            None => (0, 0),
        };
        LogicalCursor { row, col, offset: self.cursor_offset }
    }

    fn target_for_line_col(&self, row: u32, col: u32) -> (o: u32)
        ensures
            o == line_col_target(self.model(), row, col),
    {
        let text = self.text_buffer.text_chars();
        let tab_width = self.text_buffer.tab_width();
        match position_to_offset(text, tab_width, row, col) {
            Some(o) => o,
            None => {
                let max_col = line_width_at(text, tab_width, row);
                let c = if col <= max_col { col } else { max_col };
                match position_to_offset(text, tab_width, row, c) {
                    Some(o) => o,
                    None => self.cursor_offset,
                }
            },
        }
    }

    /// Moves the cursor to (row, col), clamping the column to the line's
    /// width when that position is not in the text.
    pub fn set_cursor_to_line_col(&mut self, row: u32, col: u32)
        requires
            old(self).wf(),
        ensures
            final(self).wf(),
            final(self).same_settings(&*old(self)),
            final(self).model() == (EditView { cursor: line_col_target(old(self).model(), row, col), ..old(self).model() }),
    {
        self.cursor_offset = self.target_for_line_col(row, col);
        proof {
            Self::lemma_same_settings(self, self, self);
        }
    }

    /// Moves the cursor to an offset, clamped to the text's total weight.
    pub fn set_cursor_by_offset(&mut self, offset: u32)
        requires
            old(self).wf(),
        ensures
            final(self).wf(),
            final(self).same_settings(&*old(self)),
            final(self).model() == (EditView {
                cursor: min_u32(offset, total_weight(old(self).model().text, old(self).model().tab_width)),
                ..old(self).model()
            }),
    {
        let max = text_weight(self.text_buffer.text_chars(), self.text_buffer.tab_width());
        self.cursor_offset = if offset <= max { offset } else { max };
        proof {
            Self::lemma_same_settings(self, self, self);
        }
    }

    /// Moves the cursor one char to the left.
    pub fn move_cursor_left(&mut self)
        requires
            old(self).wf(),
        ensures
            final(self).wf(),
            final(self).same_settings(&*old(self)),
            final(self).model() == (EditView {
                cursor: previous_offset_spec(old(self).model().text, old(self).model().tab_width, old(self).model().cursor as int) as u32,
                ..old(self).model()
            }),
    {
        self.cursor_offset = previous_offset(self.text_buffer.text_chars(), self.text_buffer.tab_width(), self.cursor_offset);
        proof {
            Self::lemma_same_settings(self, self, self);
        }
    }

    /// Moves the cursor one char to the right.
    pub fn move_cursor_right(&mut self)
        requires
            old(self).wf(),
        ensures
            final(self).wf(),
            final(self).same_settings(&*old(self)),
            final(self).model() == (EditView {
                cursor: next_offset_spec(old(self).model().text, old(self).model().tab_width, old(self).model().cursor as int) as u32,
                ..old(self).model()
            }),
    {
        self.cursor_offset = next_offset(self.text_buffer.text_chars(), self.text_buffer.tab_width(), self.cursor_offset);
        proof {
            Self::lemma_same_settings(self, self, self);
        }
    }

    /// Moves the cursor to the row above, keeping its column where the line
    /// is wide enough.
    pub fn move_cursor_up(&mut self)
        requires
            old(self).wf(),
        ensures
            final(self).wf(),
            final(self).same_settings(&*old(self)),
            final(self).model() == (EditView { cursor: move_up_target(old(self).model()), ..old(self).model() }),
    {
        let cursor = self.cursor();
        if cursor.row == 0 {
            proof {
                Self::lemma_same_settings(self, self, self);
            }
            return;
        }
        let target_row = cursor.row - 1;
        let max_col = line_width_at(self.text_buffer.text_chars(), self.text_buffer.tab_width(), target_row);
        let col = if cursor.col <= max_col { cursor.col } else { max_col };
        self.set_cursor_to_line_col(target_row, col);
    }

    /// Moves the cursor to the row below, keeping its column where the line
    /// is wide enough.
    pub fn move_cursor_down(&mut self)
        requires
            old(self).wf(),
        ensures
            final(self).wf(),
            final(self).same_settings(&*old(self)),
            final(self).model() == (EditView { cursor: move_down_target(old(self).model()), ..old(self).model() }),
    {
        let cursor = self.cursor();
        let line_count = self.text_buffer.line_count();
        if line_count == 0 || cursor.row >= line_count - 1 {
            proof {
                Self::lemma_same_settings(self, self, self);
            }
            return;
        }
        let target_row = cursor.row + 1;
        let max_col = line_width_at(self.text_buffer.text_chars(), self.text_buffer.tab_width(), target_row);
        let col = if cursor.col <= max_col { cursor.col } else { max_col };
        self.set_cursor_to_line_col(target_row, col);
    }

    /// Moves the cursor to the start of a line, if the text has it.
    pub fn goto_line(&mut self, line: u32)
        requires
            old(self).wf(),
        ensures
            final(self).wf(),
            final(self).same_settings(&*old(self)),
            final(self).model() == (EditView { cursor: goto_line_target(old(self).model(), line), ..old(self).model() }),
    {
        if line == 0 || line_start_offset(self.text_buffer.text_chars(), self.text_buffer.tab_width(), line).is_some() {
            self.set_cursor_to_line_col(line, 0);
        } else {
            proof {
                Self::lemma_same_settings(self, self, self);
            }
        }
    }

    /// The logical cursor at the next word boundary.
    pub fn next_word_boundary(&self) -> (c: LogicalCursor)
        ensures
            c == cursor_at(
                self.model(),
                word_boundary_spec(self.model().text, self.model().cursor, self.model().tab_width, true),
            ),
    {
        let next = word_boundary(self.text_buffer.text_chars(), self.cursor_offset, self.text_buffer.tab_width(), true);
        match self.offset_to_position(next) {
            Some(c) => c,
            None => LogicalCursor { row: 0, col: 0, offset: next },
        }
    }

    /// The logical cursor at the previous word boundary.
    pub fn prev_word_boundary(&self) -> (c: LogicalCursor)
        ensures
            c == cursor_at(
                self.model(),
                word_boundary_spec(self.model().text, self.model().cursor, self.model().tab_width, false),
            ),
    {
        let prev = word_boundary(self.text_buffer.text_chars(), self.cursor_offset, self.text_buffer.tab_width(), false);
        match self.offset_to_position(prev) {
            Some(c) => c,
            None => LogicalCursor { row: 0, col: 0, offset: prev },
        }
    }

    /// The logical cursor at the end of the cursor's line.
    pub fn eol(&self) -> (c: LogicalCursor)
        ensures
            c == eol_spec(self.model()),
    {
        let cursor = self.cursor();
        let text = self.text_buffer.text_chars();
        match line_range(text, cursor.row as usize) {
            None => cursor,
            Some((a, b)) => {
                let line = copy_range(text, a, b);
                let col = text_width(line.as_slice(), self.text_buffer.tab_width());
                let offset = self.position_to_offset(cursor.row, col);
                LogicalCursor { row: cursor.row, col, offset }
            },
        }
    }
}

impl EditBufferState {
    /// Replaces the text by the normalized bytes; the cursor goes to 0 and
    /// both histories are forgotten.
    pub fn set_text_bytes(&mut self, data: &[u8])
        requires
            old(self).wf(),
        ensures
            final(self).wf(),
            final(self).same_settings(&*old(self)),
            final(self).model() == reset_spec(old(self).model(), normalize_newlines(utf8_lossy(data@))),
    {
        self.text_buffer.set_text_bytes(data);
        self.cursor_offset = 0;
        let ghost mid = *self;
        proof {
            lemma_same_but_text(&mid.text_buffer, &old(self).text_buffer, &old(self).text_buffer);
        }
        self.clear_history();
        proof {
            Self::lemma_same_settings(self, &mid, old(self));
        }
    }

    /// Replaces the text by the registry entry `mem_id` (kept when the entry
    /// is empty); the cursor goes to 0 and both histories are forgotten.
    pub fn set_text_from_mem(&mut self, mem_id: u8)
        requires
            old(self).wf(),
        ensures
            final(self).wf(),
            final(self).same_settings(&*old(self)),
            final(self).model() == reset_spec(
                old(self).model(),
                mem_text(old(self).buffer_view(), mem_id, old(self).model().text),
            ),
    {
        self.text_buffer.set_text_from_mem(mem_id);
        self.cursor_offset = 0;
        let ghost mid = *self;
        proof {
            lemma_same_but_text(&mid.text_buffer, &old(self).text_buffer, &old(self).text_buffer);
        }
        self.clear_history();
        proof {
            Self::lemma_same_settings(self, &mid, old(self));
        }
    }

    /// Replaces the text by the normalized bytes as an undoable edit, the
    /// cursor at 0; nothing happens when the bytes are the text's own.
    pub fn replace_text_bytes(&mut self, data: &[u8])
        requires
            old(self).wf(),
        ensures
            final(self).wf(),
            final(self).same_settings(&*old(self)),
            final(self).model() == if vstd::utf8::encode_utf8(old(self).model().text) == data@ {
                old(self).model()
            } else {
                edit_spec(old(self).model(), normalize_newlines(utf8_lossy(data@)), 0)
            },
    {
        let current = self.text_buffer.plain_text_bytes();
        if bytes_equal(current.as_slice(), data) {
            proof {
                Self::lemma_same_settings(self, self, self);
            }
            return;
        }
        self.store_undo();
        let ghost mid = *self;
        self.text_buffer.set_text_bytes(data);
        self.cursor_offset = 0;
        proof {
            lemma_same_but_text(&self.text_buffer, &mid.text_buffer, &mid.text_buffer);
            Self::lemma_same_settings(self, &mid, old(self));
        }
    }

    /// Replaces the text by the registry entry `mem_id` as an undoable edit,
    /// the cursor at 0.
    pub fn replace_text_from_mem(&mut self, mem_id: u8)
        requires
            old(self).wf(),
        ensures
            final(self).wf(),
            final(self).same_settings(&*old(self)),
            final(self).model() == edit_spec(
                old(self).model(),
                mem_text(old(self).buffer_view(), mem_id, old(self).model().text),
                0,
            ),
    {
        self.store_undo();
        let ghost mid = *self;
        proof {
            lemma_same_but_text(&mid.text_buffer, &old(self).text_buffer, &old(self).text_buffer);
        }
        self.text_buffer.set_text_from_mem(mem_id);
        self.cursor_offset = 0;
        proof {
            lemma_same_but_text(&self.text_buffer, &mid.text_buffer, &mid.text_buffer);
            Self::lemma_same_settings(self, &mid, old(self));
        }
    }

    /// Empties the text as an undoable edit; on an empty text only the cursor
    /// goes to 0.
    pub fn clear(&mut self)
        requires
            old(self).wf(),
        ensures
            final(self).wf(),
            final(self).same_settings(&*old(self)),
            final(self).model() == if old(self).model().text.len() == 0 {
                EditView { cursor: 0, ..old(self).model() }
            } else {
                edit_spec(old(self).model(), Seq::empty(), 0)
            },
    {
        if self.text_buffer.text_chars().len() == 0 {
            self.cursor_offset = 0;
            proof {
                Self::lemma_same_settings(self, self, self);
            }
            return;
        }
        self.store_undo();
        let ghost mid = *self;
        self.text_buffer.clear();
        self.cursor_offset = 0;
        proof {
            lemma_same_but_text(&self.text_buffer, &mid.text_buffer, &mid.text_buffer);
            Self::lemma_same_settings(self, &mid, old(self));
        }
    }

    /// Inserts the normalized bytes at the cursor as an undoable edit; the
    /// cursor ends just past them. Nothing happens for no bytes.
    pub fn insert_text(&mut self, data: &[u8])
        requires
            old(self).wf(),
        ensures
            final(self).wf(),
            final(self).same_settings(&*old(self)),
            final(self).model() == insert_spec(old(self).model(), data@),
    {
        if data.len() == 0 {
            proof {
                Self::lemma_same_settings(self, self, self);
            }
            return;
        }
        self.store_undo();
        let ghost mid = *self;
        self.cursor_offset = self.text_buffer.insert_text_at_offset(self.cursor_offset, data);
        proof {
            lemma_same_but_text(&self.text_buffer, &mid.text_buffer, &mid.text_buffer);
            Self::lemma_same_settings(self, &mid, old(self));
        }
    }

    /// Inserts the bytes of one char at the cursor, as `insert_text` does.
    pub fn insert_char(&mut self, data: &[u8])
        requires
            old(self).wf(),
        ensures
            final(self).wf(),
            final(self).same_settings(&*old(self)),
            final(self).model() == insert_spec(old(self).model(), data@),
    {
        self.insert_text(data);
    }

    /// Inserts a newline at the cursor.
    pub fn new_line(&mut self)
        requires
            old(self).wf(),
        ensures
            final(self).wf(),
            final(self).same_settings(&*old(self)),
            final(self).model() == insert_spec(old(self).model(), seq![10u8]),
    {
        let newline: [u8; 1] = [10u8];
        proof {
            assert(newline@ =~= seq![10u8]);
        }
        self.insert_text(&newline);
    }

    /// Deletes the char before the cursor; not recorded for undo.
    pub fn delete_char_backward(&mut self)
        requires
            old(self).wf(),
        ensures
            final(self).wf(),
            final(self).same_settings(&*old(self)),
            final(self).model() == delete_backward_spec(old(self).model()),
    {
        let ghost mid = *self;
        let previous = previous_offset(self.text_buffer.text_chars(), self.text_buffer.tab_width(), self.cursor_offset);
        self.cursor_offset = self.text_buffer.delete_range_by_offsets(previous, self.cursor_offset);
        proof {
            lemma_same_but_text(&self.text_buffer, &mid.text_buffer, &mid.text_buffer);
            Self::lemma_same_settings(self, &mid, old(self));
        }
    }

    /// Deletes the char after the cursor; not recorded for undo.
    pub fn delete_char(&mut self)
        requires
            old(self).wf(),
        ensures
            final(self).wf(),
            final(self).same_settings(&*old(self)),
            final(self).model() == delete_forward_spec(old(self).model()),
    {
        let ghost mid = *self;
        let next = next_offset(self.text_buffer.text_chars(), self.text_buffer.tab_width(), self.cursor_offset);
        self.cursor_offset = self.text_buffer.delete_range_by_offsets(self.cursor_offset, next);
        proof {
            lemma_same_but_text(&self.text_buffer, &mid.text_buffer, &mid.text_buffer);
            Self::lemma_same_settings(self, &mid, old(self));
        }
    }

    /// Deletes between two weight offsets (in either order) as an undoable
    /// edit; the cursor goes to the smaller one. Nothing happens when they
    /// are equal.
    pub fn delete_range_by_offsets(&mut self, start: u32, end: u32)
        requires
            old(self).wf(),
        ensures
            final(self).wf(),
            final(self).same_settings(&*old(self)),
            final(self).model() == delete_offsets_spec(old(self).model(), start, end),
    {
        if start == end {
            proof {
                Self::lemma_same_settings(self, self, self);
            }
            return;
        }
        self.store_undo();
        let ghost mid = *self;
        self.cursor_offset = self.text_buffer.delete_range_by_offsets(start, end);
        proof {
            lemma_same_but_text(&self.text_buffer, &mid.text_buffer, &mid.text_buffer);
            Self::lemma_same_settings(self, &mid, old(self));
        }
    }

    /// Deletes between two (row, column) positions.
    pub fn delete_range_by_coords(&mut self, start_row: u32, start_col: u32, end_row: u32, end_col: u32)
        requires
            old(self).wf(),
        ensures
            final(self).wf(),
            final(self).same_settings(&*old(self)),
            final(self).model() == delete_coords_spec(old(self).model(), start_row, start_col, end_row, end_col),
    {
        let text = self.text_buffer.text_chars();
        let tab_width = self.text_buffer.tab_width();
        let start = match position_to_offset(text, tab_width, start_row, start_col) {
            Some(o) => o,
            None => 0,
        };
        let end = match position_to_offset(text, tab_width, end_row, end_col) {
            Some(o) => o,
            None => start,
        };
        self.delete_range_by_offsets(start, end);
    }

    /// Deletes the cursor's line.
    pub fn delete_line(&mut self)
        requires
            old(self).wf(),
        ensures
            final(self).wf(),
            final(self).same_settings(&*old(self)),
            final(self).model() == delete_line_spec(old(self).model()),
    {
        let cursor = self.cursor();
        let line_count = self.text_buffer.line_count();
        if line_count == 0 || cursor.row >= line_count {
            proof {
                Self::lemma_same_settings(self, self, self);
            }
            return;
        }
        if cursor.row < line_count - 1 {
            self.delete_range_by_coords(cursor.row, 0, cursor.row + 1, 0);
            return;
        }
        if cursor.row > 0 {
            let previous_row = cursor.row - 1;
            let previous_width = line_width_at(self.text_buffer.text_chars(), self.text_buffer.tab_width(), previous_row);
            let current_width = line_width_at(self.text_buffer.text_chars(), self.text_buffer.tab_width(), cursor.row);
            let ghost mid_old = *self;
            self.delete_range_by_coords(previous_row, previous_width, cursor.row, current_width);
            let ghost mid = *self;
            self.set_cursor_to_line_col(previous_row, previous_width);
            proof {
                Self::lemma_same_settings(self, &mid, &mid_old);
            }
            return;
        }
        let line_width = line_width_at(self.text_buffer.text_chars(), self.text_buffer.tab_width(), cursor.row);
        if line_width > 0 {
            self.delete_range_by_coords(cursor.row, 0, cursor.row, line_width);
        } else {
            proof {
                Self::lemma_same_settings(self, self, self);
            }
        }
    }

    /// The text between two weight offsets.
    pub fn text_buffer_text_range(&self, start_offset: u32, end_offset: u32) -> (s: String)
        ensures
            s@ == weight_slice(self.model().text, self.model().tab_width, start_offset as int, end_offset as int),
    {
        self.text_buffer.text_range(start_offset, end_offset)
    }

    /// The text between two (row, column) positions.
    pub fn text_buffer_text_range_by_coords(&self, start_row: u32, start_col: u32, end_row: u32, end_col: u32) -> (s: String)
        ensures
            s@ == coords_text(
                self.model().text,
                self.model().tab_width,
                start_row as int,
                start_col as int,
                end_row as int,
                end_col as int,
            ),
    {
        self.text_buffer.text_range_by_coords(start_row, start_col, end_row, end_col)
    }
}

} // verus!
