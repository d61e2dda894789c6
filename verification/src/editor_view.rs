//! An editor: an edit buffer seen through a wrapped view with a viewport,
//! and cursor moves by visual rows.
use crate::edit_buffer::{
    cursor_at, cursor_spec, eol_spec, delete_offsets_spec, min_u32 as min_cursor, total_weight, EditBufferState, EditView,
    LogicalCursor,
};
use crate::text::{decode_utf8_lossy, offset_position, utf8_lossy};
use crate::word::or_else;
use crate::text_buffer::{Rgba, StyledChunk, TextBufferState};
use crate::text_buffer_view::{
    clip_u32, line_info_matches, normalize_selection_spec, packed_selection, sat_add, snap_spec, visual_cursor_spec,
    weight_slice_bytes, LineInfoOut, TextBufferViewState, NO_SELECTION,
};
use crate::word::word_boundary_spec;
use vstd::prelude::*;

verus! {

/// A cursor on a visual row, with its logical position and offset.
#[derive(Clone, Copy, Debug, Default, PartialEq, Eq, Structural)]
pub struct VisualCursor {
    pub visual_row: u32,
    pub visual_col: u32,
    pub logical_row: u32,
    pub logical_col: u32,
    pub offset: u32,
}

/// The selection a packed value stands for: none for `NO_SELECTION`, else
/// the high and low 32 bits.
pub open spec fn unpack_selection(packed: u64) -> Option<(u32, u32)> {
    if packed == NO_SELECTION {
        None
    } else {
        Some(((packed / 0x1_0000_0000) as u32, (packed % 0x1_0000_0000) as u32))
    }
}

/// Packing and unpacking a selection gives it back, but for the one pair
/// whose packed form is `NO_SELECTION`.
pub proof fn lemma_unpack_packed(selection: Option<(u32, u32)>)
    requires
        selection != Some((u32::MAX, u32::MAX)),
    ensures
        unpack_selection(packed_selection(selection)) == selection,
{
    match selection {
        Some((s, e)) => {
            assert(s * 0x1_0000_0000 + e <= u64::MAX) by (nonlinear_arith)
                requires s <= u32::MAX, e <= u32::MAX;
            let p = (s * 0x1_0000_0000 + e) as u64;
            assert(p / 0x1_0000_0000 == s && p % 0x1_0000_0000 == e) by (nonlinear_arith)
                requires p == s * 0x1_0000_0000 + e, 0 <= e < 0x1_0000_0000, s >= 0;
            if p == NO_SELECTION {
                assert(s == u32::MAX && e == u32::MAX) by (nonlinear_arith)
                    requires p == s * 0x1_0000_0000 + e, p == 0xffff_ffff_ffff_ffffu64, 0 <= e < 0x1_0000_0000, s
                        <= u32::MAX;
            }
        },
        None => {},
    }
}

/// The visual cursor of a logical cursor in a view of a buffer.
pub open spec fn visual_of(view: TextBufferViewState, buffer: TextBufferState, c: LogicalCursor) -> VisualCursor {
    let r = visual_cursor_spec(view.rows_of(&buffer, false), c.offset, c.row, c.col);
    VisualCursor { visual_row: r.0, visual_col: r.1, logical_row: r.2, logical_col: r.3, offset: r.4 }
}

/// The char boundary at (visual row, column) of a view, if the row exists.
pub open spec fn visual_offset(view: TextBufferViewState, buffer: TextBufferState, row: u32, col: u32) -> Option<u32> {
    let rows = view.rows_of(&buffer, false);
    if (row as int) < rows.len() {
        Some(snap_spec(buffer.text_view(), buffer.tab_width_view(), rows[row as int], col))
    } else {
        None
    }
}

/// The text that styled chunks make as a placeholder: each non-empty
/// chunk decoded, without line-ending normalization.
pub open spec fn placeholder_spec(chunks: Seq<StyledChunk>) -> Seq<char>
    decreases chunks.len(),
{
    if chunks.len() == 0 {
        Seq::empty()
    } else {
        placeholder_spec(chunks.drop_last()) + if chunks.last().text@.len() == 0 {
            Seq::empty()
        } else {
            utf8_lossy(chunks.last().text@)
        }
    }
}

pub struct EditorViewState {
    edit_buffer: EditBufferState,
    text_buffer_view: TextBufferViewState,
    viewport_x: u32,
    viewport_y: u32,
    viewport_width: u32,
    viewport_height: u32,
    scroll_margin: u32,
    placeholder_text: Vec<char>,
}

impl EditorViewState {
    pub closed spec fn edit_state(&self) -> EditBufferState {
        self.edit_buffer
    }

    pub closed spec fn view_state(&self) -> TextBufferViewState {
        self.text_buffer_view
    }

    /// (x, y, width, height) of the editor's viewport.
    pub closed spec fn viewport_view(&self) -> (u32, u32, u32, u32) {
        (self.viewport_x, self.viewport_y, self.viewport_width, self.viewport_height)
    }

    /// The scroll margin, as the bit pattern of an `f32`.
    pub closed spec fn scroll_margin_view(&self) -> u32 {
        self.scroll_margin
    }

    pub closed spec fn placeholder_view(&self) -> Seq<char> {
        self.placeholder_text@
    }

    /// The buffer the view shows.
    pub open spec fn buffer(&self) -> TextBufferState {
        self.edit_state().buffer_view()
    }

    pub open spec fn wf(&self) -> bool {
        self.edit_state().wf()
    }

    /// The editor with another view state, all else unchanged.
    pub closed spec fn with_view(&self, v: TextBufferViewState) -> Self {
        EditorViewState { text_buffer_view: v, ..*self }
    }

    /// The editor with another viewport, all else unchanged.
    pub closed spec fn with_viewport(&self, v: (u32, u32, u32, u32)) -> Self {
        EditorViewState { viewport_x: v.0, viewport_y: v.1, viewport_width: v.2, viewport_height: v.3, ..*self }
    }

    /// Everything but the edit buffer is as in `o`.
    pub closed spec fn same_but_edit(&self, o: &Self) -> bool {
        *self == EditorViewState { edit_buffer: self.edit_buffer, ..*o }
    }

    /// After an edit buffer operation: the buffer's model is `m`, its
    /// settings unchanged, and the rest of the editor unchanged.
    pub open spec fn edited(&self, o: &Self, m: EditView) -> bool {
        &&& self.wf()
        &&& self.same_but_edit(o)
        &&& self.edit_state().same_settings(&o.edit_state())
        &&& self.edit_state().model() == m
    }

    pub fn new(edit_buffer: EditBufferState, viewport_width: u32, viewport_height: u32) -> (e: Self)
        ensures
            e.edit_state() == edit_buffer,
            e.view_state() == TextBufferViewState::initial().with_viewport((0, 0, viewport_width, viewport_height)),
            e.viewport_view() == (0u32, 0u32, viewport_width, viewport_height),
            e.scroll_margin_view() == 0,
            e.placeholder_view() == Seq::<char>::empty(),
    {
        let mut text_buffer_view = TextBufferViewState::new();
        text_buffer_view.set_viewport_size(viewport_width, viewport_height);
        EditorViewState {
            edit_buffer,
            text_buffer_view,
            viewport_x: 0,
            viewport_y: 0,
            viewport_width,
            viewport_height,
            scroll_margin: 0,
            placeholder_text: Vec::new(),
        }
    }

    /// The edit buffer the editor acts on.
    pub fn edit_buffer(&self) -> (r: &EditBufferState)
        ensures
            *r == self.edit_state(),
    {
        &self.edit_buffer
    }

    /// The view of the edit buffer's text.
    pub fn text_buffer_view(&self) -> (r: &TextBufferViewState)
        ensures
            *r == self.view_state(),
    {
        &self.text_buffer_view
    }

    /// Gives the edit buffer back.
    pub fn into_edit_buffer(self) -> (r: EditBufferState)
        ensures
            r == self.edit_state(),
    {
        self.edit_buffer
    }

    pub fn line_info(&self) -> (r: LineInfoOut)
        ensures
            line_info_matches(r, self.view_state().rows_of(&self.buffer(), false)),
    {
        self.text_buffer_view.line_info(self.edit_buffer.text_buffer())
    }

    pub fn logical_line_info(&self) -> (r: LineInfoOut)
        ensures
            line_info_matches(r, self.view_state().rows_of(&self.buffer(), true)),
    {
        self.text_buffer_view.logical_line_info(self.edit_buffer.text_buffer())
    }

    /// Resizes the viewport; a non-zero width becomes the wrap width.
    pub fn set_viewport_size(&mut self, width: u32, height: u32)
        ensures
            ({
                let v0 = old(self).view_state().with_viewport(
                    (old(self).view_state().viewport_view().0, old(self).view_state().viewport_view().1, width, height),
                );
                let v1 = if width > 0 { v0.with_layout(Some(width), v0.wrap_mode_view()) } else { v0 };
                *final(self) == old(self).with_viewport(
                    (old(self).viewport_view().0, old(self).viewport_view().1, width, height),
                ).with_view(v1)
            }),
    {
        self.viewport_width = width;
        self.viewport_height = height;
        self.text_buffer_view.set_viewport_size(width, height);
        if width > 0 {
            self.text_buffer_view.set_wrap_width(width);
        }
    }

    /// Moves and resizes the viewport; a non-zero width becomes the wrap
    /// width.
    pub fn set_viewport(&mut self, x: u32, y: u32, width: u32, height: u32)
        ensures
            ({
                let v0 = old(self).view_state().with_viewport((x, y, width, height));
                let v1 = if width > 0 { v0.with_layout(Some(width), v0.wrap_mode_view()) } else { v0 };
                *final(self) == old(self).with_viewport((x, y, width, height)).with_view(v1)
            }),
    {
        self.viewport_x = x;
        self.viewport_y = y;
        self.viewport_width = width;
        self.viewport_height = height;
        self.text_buffer_view.set_viewport(x, y, width, height);
        if width > 0 {
            self.text_buffer_view.set_wrap_width(width);
        }
    }

    /// (x, y, width, height) of the viewport.
    pub fn viewport(&self) -> (r: (u32, u32, u32, u32))
        ensures
            r == self.viewport_view(),
    {
        (self.viewport_x, self.viewport_y, self.viewport_width, self.viewport_height)
    }

    /// Sets the scroll margin (the bit pattern of an `f32`).
    pub fn set_scroll_margin(&mut self, margin: u32)
        ensures
            final(self).scroll_margin_view() == margin,
            *final(self) == old(self).with_margin(margin),
    {
        self.scroll_margin = margin;
    }

    pub closed spec fn with_margin(&self, margin: u32) -> Self {
        EditorViewState { scroll_margin: margin, ..*self }
    }

    /// Sets the wrap mode; mode 0 turns wrapping off, any other wraps at the
    /// viewport's width.
    pub fn set_wrap_mode(&mut self, mode: u8)
        ensures
            *final(self) == old(self).with_view(
                old(self).view_state().with_layout(
                    if mode == 0 || old(self).viewport_view().2 == 0 { None } else { Some(old(self).viewport_view().2) },
                    mode,
                ),
            ),
    {
        proof {
            self.text_buffer_view.lemma_with();
        }
        self.text_buffer_view.set_wrap_mode(mode);
        self.text_buffer_view.set_wrap_width(if mode == 0 { 0 } else { self.viewport_width });
    }

    /// The number of rows, at least 1.
    pub fn virtual_line_count(&self) -> (n: u32)
        ensures
            n == if self.view_state().rows_of(&self.buffer(), false).len() == 0 {
                1
            } else {
                clip_u32(self.view_state().rows_of(&self.buffer(), false).len() as int)
            },
    {
        self.text_buffer_view.virtual_line_count(self.edit_buffer.text_buffer())
    }

    /// The number of rows, at least 1.
    pub fn total_virtual_line_count(&self) -> (n: u32)
        ensures
            n == if self.view_state().rows_of(&self.buffer(), false).len() == 0 {
                1
            } else {
                clip_u32(self.view_state().rows_of(&self.buffer(), false).len() as int)
            },
    {
        self.virtual_line_count()
    }

    /// Selects between two offsets, without colors.
    pub fn set_selection(&mut self, start: u32, end: u32)
        ensures
            *final(self) == old(self).with_view(
                old(self).view_state().with_selection(normalize_selection_spec(start, end), (None, None), Some(start)),
            ),
    {
        self.text_buffer_view.set_selection(start, end, None, None);
    }

    /// Moves the selection's end, without colors.
    pub fn update_selection(&mut self, end: u32)
        ensures
            ({
                let v = old(self).view_state();
                *final(self) == old(self).with_view(
                    v.with_selection(
                        match v.anchor_view() {
                            Some(a) => normalize_selection_spec(a, end),
                            None => match v.selection_view() {
                                Some(p) => normalize_selection_spec(p.0, end),
                                None => None,
                            },
                        },
                        (None, None),
                        v.anchor_view(),
                    ),
                )
            }),
    {
        self.text_buffer_view.update_selection(end, None, None);
    }

    /// Selects between the offsets under two viewport cells, without colors
    /// (see `TextBufferViewState::set_local_selection`).
    pub fn set_local_selection(&mut self, anchor_x: i32, anchor_y: i32, focus_x: i32, focus_y: i32) -> (r: bool)
        ensures
            ({
                let v = old(self).view_state();
                let b = old(self).buffer();
                let rows = v.rows_of(&b, false);
                let max_y = crate::text_buffer_view::clip_i32(rows.len() as int) - 1;
                let outside = (anchor_y < 0 && focus_y < 0) || (anchor_y > max_y && focus_y > max_y);
                let anchor = v.selection_offset_of(&b, anchor_x, anchor_y);
                let focus = v.selection_offset_of(&b, focus_x, focus_y);
                if outside || anchor is None || focus is None {
                    &&& r == v.selection_view() is Some
                    &&& *final(self) == old(self).with_view(v.with_selection(None, v.colors_view(), None))
                } else {
                    &&& r
                    &&& *final(self) == old(self).with_view(
                        v.with_selection(normalize_selection_spec(anchor->0, focus->0), (None, None), anchor),
                    )
                }
            }),
    {
        self.text_buffer_view.set_local_selection(self.edit_buffer.text_buffer(), anchor_x, anchor_y, focus_x, focus_y, None, None)
    }

    /// Moves the focus of a local selection, without colors (see
    /// `TextBufferViewState::update_local_selection`).
    pub fn update_local_selection(&mut self, anchor_x: i32, anchor_y: i32, focus_x: i32, focus_y: i32) -> (r: bool)
        ensures
            ({
                let v = old(self).view_state();
                let b = old(self).buffer();
                let text_end = crate::text_buffer_view::text_end_spec(v.rows_of(&b, false));
                let anchor = match v.anchor_view() {
                    Some(a) => Some(a),
                    None => v.selection_offset_of(&b, anchor_x, anchor_y),
                };
                let focus = v.selection_offset_of(&b, focus_x, focus_y);
                if anchor is None || focus is None {
                    &&& !r
                    &&& *final(self) == *old(self)
                } else {
                    let a = anchor->0;
                    let f = focus->0;
                    let start = crate::text_buffer_view::min_u32(a, f);
                    let end = if f < a { crate::text_buffer_view::min_u32(sat_add(a, 1), text_end) } else { f };
                    &&& r
                    &&& *final(self) == old(self).with_view(
                        v.with_selection(if start == end { None } else { Some((start, end)) }, (None, None), Some(a)),
                    )
                }
            }),
    {
        self.text_buffer_view.update_local_selection(self.edit_buffer.text_buffer(), anchor_x, anchor_y, focus_x, focus_y, None, None)
    }

    pub fn reset_selection(&mut self)
        ensures
            *final(self) == old(self).with_view(old(self).view_state().with_selection(None, (None, None), None)),
    {
        self.text_buffer_view.reset_selection();
    }

    pub fn reset_local_selection(&mut self)
        ensures
            *final(self) == old(self).with_view(old(self).view_state().with_selection(None, (None, None), None)),
    {
        self.text_buffer_view.reset_local_selection();
    }

    pub fn selection_info(&self) -> (r: u64)
        ensures
            r == packed_selection(self.view_state().selection_view()),
    {
        self.text_buffer_view.selection_info()
    }

    /// The selected text as UTF-8 bytes.
    pub fn selected_text_bytes(&self) -> (b: Vec<u8>)
        ensures
            b@ == weight_slice_bytes(self.view_state().selection_view(), self.buffer()),
    {
        self.text_buffer_view.selected_text_bytes(self.edit_buffer.text_buffer())
    }

    /// The edit buffer's text as UTF-8 bytes.
    pub fn text_bytes(&self) -> (b: Vec<u8>)
        ensures
            b@ == vstd::utf8::encode_utf8(self.edit_state().model().text),
    {
        self.edit_buffer.text_bytes()
    }

    /// Sets the placeholder to the chunks' decoded text.
    pub fn set_placeholder_styled_text(&mut self, chunks: &[StyledChunk])
        ensures
            final(self).placeholder_view() == placeholder_spec(chunks@),
            final(self).same_but_placeholder(&*old(self)),
    {
        let mut text: Vec<char> = Vec::new();
        let mut i: usize = 0;
        while i < chunks.len()
            invariant
                i <= chunks@.len(),
                text@ == placeholder_spec(chunks@.take(i as int)),
            decreases chunks@.len() - i,
        {
            proof {
                assert(chunks@.take(i + 1).drop_last() =~= chunks@.take(i as int));
            }
            if chunks[i].text.len() > 0 {
                let part = decode_utf8_lossy(chunks[i].text.as_slice());
                let mut k: usize = 0;
                let ghost base = text@;
                while k < part.len()
                    invariant
                        k <= part@.len(),
                        text@ == base + part@.take(k as int),
                    decreases part@.len() - k,
                {
                    text.push(part[k]);
                    proof {
                        assert(base + part@.take(k + 1) =~= (base + part@.take(k as int)).push(part@[k as int]));
                    }
                    k = k + 1;
                }
                proof {
                    assert(part@.take(part@.len() as int) =~= part@);
                }
            } else {
                proof {
                    assert(text@ + Seq::<char>::empty() =~= text@);
                }
            }
            i = i + 1;
        }
        proof {
            assert(chunks@.take(chunks@.len() as int) =~= chunks@);
        }
        self.placeholder_text = text;
    }

    /// Everything but the placeholder is as in `o`.
    pub closed spec fn same_but_placeholder(&self, o: &Self) -> bool {
        *self == EditorViewState { placeholder_text: self.placeholder_text, ..*o }
    }

    pub fn set_tab_indicator(&mut self, indicator: u32)
        ensures
            *final(self) == old(self).with_view(
                old(self).view_state().with_tab_indicator(
                    (Some(indicator), old(self).view_state().tab_indicator_view().1),
                    old(self).view_state().truncate_view(),
                ),
            ),
    {
        self.text_buffer_view.set_tab_indicator(indicator);
    }

    /// Sets the tab indicator's color (channels as `f32` bit patterns).
    pub fn set_tab_indicator_color(&mut self, color: Rgba)
        ensures
            *final(self) == old(self).with_view(
                old(self).view_state().with_tab_indicator(
                    (old(self).view_state().tab_indicator_view().0, Some(color)),
                    old(self).view_state().truncate_view(),
                ),
            ),
    {
        self.text_buffer_view.set_tab_indicator_color(color);
    }

    /// The logical cursor's (row, column).
    pub fn cursor(&self) -> (r: (u32, u32))
        ensures
            r == (cursor_spec(self.edit_state().model()).row, cursor_spec(self.edit_state().model()).col),
    {
        let c = self.edit_buffer.cursor();
        (c.row, c.col)
    }

    fn visual_cursor_from_logical(&self, logical: LogicalCursor) -> (r: VisualCursor)
        ensures
            r == visual_of(self.view_state(), self.buffer(), logical),
    {
        let (visual_row, visual_col, logical_row, logical_col, offset) = self.text_buffer_view.visual_cursor_for_offset(
            self.edit_buffer.text_buffer(),
            logical.offset,
            logical.row,
            logical.col,
        );
        VisualCursor { visual_row, visual_col, logical_row, logical_col, offset }
    }

    /// The cursor on its visual row.
    pub fn visual_cursor(&self) -> (r: VisualCursor)
        ensures
            r == visual_of(self.view_state(), self.buffer(), cursor_spec(self.edit_state().model())),
    {
        let c = self.edit_buffer.cursor();
        self.visual_cursor_from_logical(c)
    }
}

/// The logical cursor at an offset, or `fallback` with that offset when no
/// index of the text has it.
pub open spec fn logical_or(m: EditView, offset: u32, fallback: LogicalCursor) -> LogicalCursor {
    match offset_position(m.text, m.tab_width, offset as int) {
        Some(p) => LogicalCursor { row: p.0, col: p.1, offset },
        None => LogicalCursor { offset, ..fallback },
    }
}

impl EditorViewState {
    /// The visual cursor where `logical` is.
    pub open spec fn visual_at(&self, logical: LogicalCursor) -> VisualCursor {
        visual_of(self.view_state(), self.buffer(), logical)
    }

    pub open spec fn visual_cursor_spec(&self) -> VisualCursor {
        self.visual_at(cursor_spec(self.edit_state().model()))
    }

    /// The cursor moved to an offset, clamped to the text.
    pub open spec fn cursor_to(&self, offset: u32) -> EditView {
        let m = self.edit_state().model();
        EditView { cursor: min_cursor(offset, total_weight(m.text, m.tab_width)), ..m }
    }

    pub fn set_cursor_by_offset(&mut self, offset: u32)
        requires
            old(self).wf(),
        ensures
            final(self).edited(&*old(self), old(self).cursor_to(offset)),
    {
        self.edit_buffer.set_cursor_by_offset(offset);
    }

    /// Moves the cursor to the same column of the visual row above.
    pub fn move_up_visual(&mut self)
        requires
            old(self).wf(),
        ensures
            ({
                let c = old(self).visual_cursor_spec();
                let target = if c.visual_row == 0 {
                    None
                } else {
                    visual_offset(old(self).view_state(), old(self).buffer(), (c.visual_row - 1) as u32, c.visual_col)
                };
                match target {
                    Some(o) => final(self).edited(&*old(self), old(self).cursor_to(o)),
                    None => *final(self) == *old(self),
                }
            }),
    {
        let cursor = self.visual_cursor();
        if cursor.visual_row == 0 {
            return;
        }
        match self.text_buffer_view.offset_for_visual_position(
            self.edit_buffer.text_buffer(),
            cursor.visual_row - 1,
            cursor.visual_col,
        ) {
            Some(offset) => self.edit_buffer.set_cursor_by_offset(offset),
            None => {},
        }
    }

    /// Moves the cursor to the same column of the visual row below.
    pub fn move_down_visual(&mut self)
        requires
            old(self).wf(),
        ensures
            ({
                let c = old(self).visual_cursor_spec();
                match visual_offset(old(self).view_state(), old(self).buffer(), sat_add(c.visual_row, 1), c.visual_col) {
                    Some(o) => final(self).edited(&*old(self), old(self).cursor_to(o)),
                    None => *final(self) == *old(self),
                }
            }),
    {
        let cursor = self.visual_cursor();
        let next_row = cursor.visual_row.saturating_add(1);
        match self.text_buffer_view.offset_for_visual_position(self.edit_buffer.text_buffer(), next_row, cursor.visual_col) {
            Some(offset) => self.edit_buffer.set_cursor_by_offset(offset),
            None => {},
        }
    }

    fn selection_range(&self) -> (r: Option<(u32, u32)>)
        ensures
            r == unpack_selection(packed_selection(self.view_state().selection_view())),
    {
        let packed = self.selection_info();
        if packed == NO_SELECTION {
            None
        } else {
            let hi = (packed >> 32u64) as u32;
            let lo = packed as u32;
            assert((packed >> 32u64) as u32 == packed / 0x1_0000_0000 && packed as u32 == packed % 0x1_0000_0000)
                by (bit_vector);
            Some((hi, lo))
        }
    }

    /// Deletes the selected text (as an undoable edit) and drops the
    /// selection; nothing happens without a selection.
    pub fn delete_selected_text(&mut self)
        requires
            old(self).wf(),
        ensures
            match unpack_selection(packed_selection(old(self).view_state().selection_view())) {
                Some((s, e)) => {
                    &&& final(self).wf()
                    &&& final(self).edit_state().same_settings(&old(self).edit_state())
                    &&& final(self).edit_state().model() == delete_offsets_spec(old(self).edit_state().model(), s, e)
                    &&& final(self).view_state() == old(self).view_state().with_selection(None, (None, None), None)
                    &&& final(self).viewport_view() == old(self).viewport_view()
                    &&& final(self).scroll_margin_view() == old(self).scroll_margin_view()
                    &&& final(self).placeholder_view() == old(self).placeholder_view()
                },
                None => *final(self) == *old(self),
            },
    {
        match self.selection_range() {
            Some((start, end)) => {
                self.edit_buffer.delete_range_by_offsets(start, end);
                self.reset_selection();
            },
            None => {},
        }
    }

    /// The visual cursor at the next word boundary.
    pub fn next_word_boundary(&self) -> (r: VisualCursor)
        ensures
            ({
                let m = self.edit_state().model();
                r == self.visual_at(cursor_at(m, word_boundary_spec(m.text, m.cursor, m.tab_width, true)))
            }),
    {
        let logical = self.edit_buffer.next_word_boundary();
        self.visual_cursor_from_logical(logical)
    }

    /// The visual cursor at the previous word boundary.
    pub fn prev_word_boundary(&self) -> (r: VisualCursor)
        ensures
            ({
                let m = self.edit_state().model();
                r == self.visual_at(cursor_at(m, word_boundary_spec(m.text, m.cursor, m.tab_width, false)))
            }),
    {
        let logical = self.edit_buffer.prev_word_boundary();
        self.visual_cursor_from_logical(logical)
    }

    /// The visual cursor at the end of the cursor's logical line.
    pub fn eol(&self) -> (r: VisualCursor)
        ensures
            r == self.visual_at(eol_spec(self.edit_state().model())),
    {
        let logical = self.edit_buffer.eol();
        self.visual_cursor_from_logical(logical)
    }

    /// The visual cursor at the start of the cursor's visual row.
    pub fn visual_sol(&self) -> (r: VisualCursor)
        ensures
            ({
                let c = self.visual_cursor_spec();
                let offset = or_else(visual_offset(self.view_state(), self.buffer(), c.visual_row, 0), c.offset);
                r == self.visual_at(
                    logical_or(
                        self.edit_state().model(),
                        offset,
                        LogicalCursor { row: c.logical_row, col: 0, offset },
                    ),
                )
            }),
    {
        let cursor = self.visual_cursor();
        let offset = match self.text_buffer_view.offset_for_visual_position(self.edit_buffer.text_buffer(), cursor.visual_row, 0) {
            Some(o) => o,
            None => cursor.offset,
        };
        let logical = match self.edit_buffer.offset_to_position(offset) {
            Some(l) => l,
            None => LogicalCursor { row: cursor.logical_row, col: 0, offset },
        };
        self.visual_cursor_from_logical(logical)
    }

    /// The visual cursor at the end of the cursor's visual row.
    pub fn visual_eol(&self) -> (r: VisualCursor)
        ensures
            ({
                let c = self.visual_cursor_spec();
                let rows = self.view_state().rows_of(&self.buffer(), false);
                let offset = if (c.visual_row as int) < rows.len() {
                    sat_add(rows[c.visual_row as int].start_offset, rows[c.visual_row as int].width_cols as int)
                } else {
                    c.offset
                };
                r == self.visual_at(
                    logical_or(
                        self.edit_state().model(),
                        offset,
                        LogicalCursor { row: c.logical_row, col: c.logical_col, offset },
                    ),
                )
            }),
    {
        let lines = self.text_buffer_view.visual_lines(self.edit_buffer.text_buffer());
        let cursor = self.visual_cursor();
        let row = cursor.visual_row as usize;
        let offset = if row < lines.len() {
            lines[row].start_offset.saturating_add(lines[row].width_cols)
        } else {
            cursor.offset
        };
        let logical = match self.edit_buffer.offset_to_position(offset) {
            Some(l) => l,
            None => LogicalCursor { row: cursor.logical_row, col: cursor.logical_col, offset },
        };
        self.visual_cursor_from_logical(logical)
    }
}

} // verus!
