//! A text buffer: normalized text, a registry of byte buffers to load text
//! from, default colors and a tab width.
use crate::text::{
    copy_range, display_slice, encode_chars, lemma_split_lines_nonempty, line_range, lines_of, normalize_newlines,
    normalize_text_bytes, sat, no_cr, lemma_normalize_no_cr, slice_by_display_offsets, slice_by_weight_offsets, split_lines, text_weight,
    text_width, utf8_lossy, weight_prefix, weight_slice, weight_to_index, width_prefix, chars_to_string,
};
use vstd::prelude::*;

verus! {

/// A color as four channels, each the IEEE-754 bit pattern of an `f32`
/// (red, green, blue, alpha).
pub type Rgba = [u32; 4];

/// One run of styled text; only its bytes make up the buffer's text.
#[derive(Clone, Debug)]
pub struct StyledChunk {
    pub text: Vec<u8>,
    pub fg: Option<Rgba>,
    pub bg: Option<Rgba>,
    pub attributes: u32,
    pub link: Vec<u8>,
}

pub const MEM_SLOTS: usize = 256;

/// The registry slot `d` steps after `start`, wrapping around.
pub open spec fn slot_after(start: u8, d: int) -> int {
    (start + d) % 256
}

/// Number of occupied registry slots.
pub open spec fn occupied_count(s: Seq<Option<Seq<u8>>>) -> nat
    decreases s.len(),
{
    if s.len() == 0 {
        0
    } else {
        occupied_count(s.drop_last()) + if s.last() is Some { 1nat } else { 0nat }
    }
}

pub proof fn lemma_occupied_update(s: Seq<Option<Seq<u8>>>, i: int, v: Option<Seq<u8>>)
    requires
        0 <= i < s.len(),
    ensures
        occupied_count(s.update(i, v)) + (if s[i] is Some { 1int } else { 0int }) == occupied_count(s) + (
        if v is Some { 1int } else { 0int }),
    decreases s.len(),
{
    if i < s.len() - 1 {
        lemma_occupied_update(s.drop_last(), i, v);
        assert(s.update(i, v).drop_last() =~= s.drop_last().update(i, v));
    } else {
        assert(s.update(i, v).drop_last() =~= s.drop_last());
    }
}

pub proof fn lemma_occupied_le(s: Seq<Option<Seq<u8>>>)
    ensures
        occupied_count(s) <= s.len(),
        occupied_count(s) == s.len() <==> forall|i: int| 0 <= i < s.len() ==> s[i] is Some,
    decreases s.len(),
{
    if s.len() > 0 {
        lemma_occupied_le(s.drop_last());
        if occupied_count(s) == s.len() {
            assert forall|i: int| 0 <= i < s.len() implies s[i] is Some by {
                if i < s.len() - 1 {
                    assert(s.drop_last()[i] == s[i]);
                }
            }
        }
        if forall|i: int| 0 <= i < s.len() ==> s[i] is Some {
            assert forall|i: int| 0 <= i < s.drop_last().len() implies s.drop_last()[i] is Some by {
                assert(s[i] is Some);
            }
        }
    }
}

pub open spec fn opt_bytes(o: Option<Vec<u8>>) -> Option<Seq<u8>> {
    match o {
        Some(v) => Some(v@),
        None => None,
    }
}

#[derive(Debug)]
pub struct TextBufferState {
    width_method: u8,
    text: Vec<char>,
    mem_slots: Vec<Option<Vec<u8>>>,
    mem_count: usize,
    next_mem_id: u8,
    default_fg: Option<Rgba>,
    default_bg: Option<Rgba>,
    default_attributes: Option<u32>,
    tab_width: u8,
}

/// The lines of a text between two (row, column) positions, joined by
/// newlines, from row `row` on.
pub open spec fn coords_pieces(
    lines: Seq<Seq<char>>,
    tab_width: u8,
    start_row: int,
    start_col: int,
    end_row: int,
    end_col: int,
    row: int,
) -> Seq<char>
    decreases end_row - row,
{
    if row > end_row || row < 0 {
        Seq::empty()
    } else {
        let line = lines[row];
        let from = if row == start_row { start_col } else { 0 };
        let to = if row == end_row { end_col } else { width_prefix(line, tab_width, line.len() as int) };
        display_slice(line, tab_width, from, to) + if row < end_row {
            seq!['\n'] + coords_pieces(lines, tab_width, start_row, start_col, end_row, end_col, row + 1)
        } else {
            Seq::empty()
        }
    }
}

pub open spec fn coords_text(
    text: Seq<char>,
    tab_width: u8,
    start_row: int,
    start_col: int,
    end_row: int,
    end_col: int,
) -> Seq<char> {
    let lines = lines_of(text);
    if start_row >= lines.len() || end_row >= lines.len() || start_row > end_row {
        Seq::empty()
    } else {
        coords_pieces(lines, tab_width, start_row, start_col, end_row, end_col, start_row)
    }
}

/// Copies a byte slice into a new vector.
pub fn bytes_to_vec(data: &[u8]) -> (r: Vec<u8>)
    ensures
        r@ == data@,
{
    let mut v: Vec<u8> = Vec::new();
    let mut i: usize = 0;
    while i < data.len()
        invariant
            i <= data@.len(),
            v@ == data@.take(i as int),
        decreases data@.len() - i,
    {
        v.push(data[i]);
        proof {
            assert(v@ =~= data@.take(i + 1));
        }
        i = i + 1;
    }
    proof {
        assert(data@.take(data@.len() as int) =~= data@);
    }
    v
}

/// The number of lines of a text, as `lines_of` counts them.
pub fn line_count_of(text: &[char]) -> (n: usize)
    ensures
        n == if lines_of(text@).len() > usize::MAX { usize::MAX as int } else { lines_of(text@).len() as int },
{
    let len = text.len();
    if len == 0 {
        return 0;
    }
    let mut nl: usize = 0;
    let mut i: usize = 0;
    proof {
        assert(text@.take(0) =~= Seq::<char>::empty());
    }
    while i < len
        invariant
            len == text@.len(),
            i <= len,
            nl <= i,
            split_lines(text@.take(i as int)).len() == nl + 1,
        decreases len - i,
    {
        proof {
            assert(text@.take(i + 1).drop_last() =~= text@.take(i as int));
            assert(text@.take(i + 1).last() == text@[i as int]);
            lemma_split_lines_nonempty(text@.take(i as int));
        }
        if text[i] == '\n' {
            nl = nl + 1;
        }
        i = i + 1;
    }
    proof {
        assert(text@.take(len as int) =~= text@);
    }
    if nl == usize::MAX {
        usize::MAX
    } else {
        nl + 1
    }
}

impl TextBufferState {
    pub closed spec fn text_view(&self) -> Seq<char> {
        self.text@
    }

    pub closed spec fn tab_width_view(&self) -> u8 {
        self.tab_width
    }

    pub closed spec fn width_method_view(&self) -> u8 {
        self.width_method
    }

    /// The registry: slot `i` holds the bytes registered under id `i`.
    pub closed spec fn mem_view(&self) -> Seq<Option<Seq<u8>>> {
        self.mem_slots@.map_values(|o: Option<Vec<u8>>| opt_bytes(o))
    }

    pub closed spec fn next_mem_id_view(&self) -> u8 {
        self.next_mem_id
    }

    pub closed spec fn default_fg_view(&self) -> Option<Rgba> {
        self.default_fg
    }

    pub closed spec fn default_bg_view(&self) -> Option<Rgba> {
        self.default_bg
    }

    pub closed spec fn default_attributes_view(&self) -> Option<u32> {
        self.default_attributes
    }

    pub closed spec fn same_but_text(&self, o: &Self) -> bool {
        *self == (TextBufferState { text: self.text, ..*o })
    }

    pub closed spec fn same_but_colors(&self, o: &Self) -> bool {
        *self == (TextBufferState {
            default_fg: self.default_fg,
            default_bg: self.default_bg,
            default_attributes: self.default_attributes,
            ..*o
        })
    }

    pub closed spec fn same_but_tab(&self, o: &Self) -> bool {
        *self == (TextBufferState { tab_width: self.tab_width, ..*o })
    }

    pub closed spec fn same_but_mem(&self, o: &Self) -> bool {
        *self == (TextBufferState {
            mem_slots: self.mem_slots,
            mem_count: self.mem_count,
            next_mem_id: self.next_mem_id,
            ..*o
        })
    }

    pub closed spec fn wf(&self) -> bool {
        &&& self.mem_slots@.len() == 256
        &&& self.mem_count == occupied_count(self.mem_view())
        &&& self.tab_width >= 1
        &&& no_cr(self.text@)
    }

    pub proof fn lemma_wf(&self)
        requires
            self.wf(),
        ensures
            no_cr(self.text_view()),
            self.tab_width_view() >= 1,
            self.mem_view().len() == 256,
    {
        assert(self.mem_view().len() == self.mem_slots@.len());
    }

    pub fn new(width_method: u8) -> (b: Self)
        ensures
            b.wf(),
            b.width_method_view() == width_method,
            b.text_view() == Seq::<char>::empty(),
            b.mem_view() == Seq::new(256, |i: int| None::<Seq<u8>>),
            b.next_mem_id_view() == 0,
            b.default_fg_view() is None,
            b.default_bg_view() is None,
            b.default_attributes_view() is None,
            b.tab_width_view() == 4,
    {
        let mut slots: Vec<Option<Vec<u8>>> = Vec::new();
        let mut i: usize = 0;
        while i < MEM_SLOTS
            invariant
                i <= 256,
                slots@.len() == i,
                forall|k: int| 0 <= k < i ==> slots@[k] is None,
            decreases 256 - i,
        {
            slots.push(None);
            i = i + 1;
        }
        let b = TextBufferState {
            width_method,
            text: Vec::new(),
            mem_slots: slots,
            mem_count: 0,
            next_mem_id: 0,
            default_fg: None,
            default_bg: None,
            default_attributes: None,
            tab_width: 4,
        };
        proof {
            assert(b.mem_view() =~= Seq::new(256, |i: int| None::<Seq<u8>>));
            lemma_none_count(b.mem_view());
        }
        b
    }

    /// Display width of the text (newlines count nothing).
    pub fn length(&self) -> (w: u32)
        ensures
            w == width_prefix(self.text_view(), self.tab_width_view(), self.text_view().len() as int),
    {
        text_width(self.text.as_slice(), self.tab_width)
    }

    /// Size of the text in UTF-8 bytes, capped at `u32::MAX`.
    pub fn byte_size(&self) -> (n: u32)
        ensures
            n == sat(vstd::utf8::encode_utf8(self.text_view()).len() as int),
    {
        let bytes = encode_chars(self.text.as_slice());
        if bytes.len() > u32::MAX as usize {
            u32::MAX
        } else {
            bytes.len() as u32
        }
    }

    /// Number of lines, capped at `u32::MAX`; an empty text has none.
    pub fn line_count(&self) -> (n: u32)
        ensures
            n == sat(lines_of(self.text_view()).len() as int),
    {
        let n = line_count_of(self.text.as_slice());
        if n > u32::MAX as usize {
            u32::MAX
        } else {
            n as u32
        }
    }

    pub fn clear(&mut self)
        requires
            old(self).wf(),
        ensures
            final(self).wf(),
            final(self).same_but_text(&*old(self)),
            final(self).text_view() == Seq::<char>::empty(),
    {
        self.text = Vec::new();
    }

    /// Clears the text, the registry and the default colors and attributes.
    pub fn reset(&mut self)
        requires
            old(self).wf(),
        ensures
            final(self).wf(),
            final(self).text_view() == Seq::<char>::empty(),
            final(self).mem_view() == Seq::new(256, |i: int| None::<Seq<u8>>),
            final(self).next_mem_id_view() == 0,
            final(self).default_fg_view() is None,
            final(self).default_bg_view() is None,
            final(self).default_attributes_view() is None,
            final(self).tab_width_view() == old(self).tab_width_view(),
            final(self).width_method_view() == old(self).width_method_view(),
    {
        self.clear();
        self.clear_mem_registry();
        self.default_fg = None;
        self.default_bg = None;
        self.default_attributes = None;
    }

    pub fn set_default_fg(&mut self, fg: Option<Rgba>)
        ensures
            final(self).same_but_colors(&*old(self)),
            final(self).default_fg_view() == fg,
            final(self).default_bg_view() == old(self).default_bg_view(),
            final(self).default_attributes_view() == old(self).default_attributes_view(),
    {
        self.default_fg = fg;
    }

    pub fn set_default_bg(&mut self, bg: Option<Rgba>)
        ensures
            final(self).same_but_colors(&*old(self)),
            final(self).default_bg_view() == bg,
            final(self).default_fg_view() == old(self).default_fg_view(),
            final(self).default_attributes_view() == old(self).default_attributes_view(),
    {
        self.default_bg = bg;
    }

    pub fn set_default_attributes(&mut self, attributes: Option<u32>)
        ensures
            final(self).same_but_colors(&*old(self)),
            final(self).default_attributes_view() == attributes,
            final(self).default_fg_view() == old(self).default_fg_view(),
            final(self).default_bg_view() == old(self).default_bg_view(),
    {
        self.default_attributes = attributes;
    }

    pub fn reset_defaults(&mut self)
        ensures
            final(self).same_but_colors(&*old(self)),
            final(self).default_fg_view() is None,
            final(self).default_bg_view() is None,
            final(self).default_attributes_view() is None,
    {
        self.default_fg = None;
        self.default_bg = None;
        self.default_attributes = None;
    }

    pub fn default_fg(&self) -> (c: Option<Rgba>)
        ensures
            c == self.default_fg_view(),
    {
        self.default_fg
    }

    pub fn default_bg(&self) -> (c: Option<Rgba>)
        ensures
            c == self.default_bg_view(),
    {
        self.default_bg
    }

    pub fn default_attributes(&self) -> (a: Option<u32>)
        ensures
            a == self.default_attributes_view(),
    {
        self.default_attributes
    }

    pub fn tab_width(&self) -> (t: u8)
        ensures
            t == self.tab_width_view(),
    {
        self.tab_width
    }

    /// Sets the tab width; zero is raised to one.
    pub fn set_tab_width(&mut self, width: u8)
        requires
            old(self).wf(),
        ensures
            final(self).wf(),
            final(self).same_but_tab(&*old(self)),
            final(self).tab_width_view() == if width == 0 { 1 } else { width },
    {
        self.tab_width = if width == 0 { 1 } else { width };
    }

    pub fn width_method(&self) -> (m: u8)
        ensures
            m == self.width_method_view(),
    {
        self.width_method
    }

    /// Stores a copy of `data` under the first free id, scanning from the
    /// next id on and wrapping around; refused once 255 buffers are held.
    pub fn register_mem_buffer(&mut self, data: &[u8]) -> (r: Result<u8, ()>)
        requires
            old(self).wf(),
        ensures
            final(self).wf(),
            final(self).text_view() == old(self).text_view(),
            final(self).tab_width_view() == old(self).tab_width_view(),
            r is Ok <==> occupied_count(old(self).mem_view()) < 255,
            r is Err ==> *final(self) == *old(self),
            r matches Ok(id) ==> {
                &&& old(self).mem_view()[id as int] is None
                &&& final(self).mem_view() == old(self).mem_view().update(id as int, Some(data@))
                &&& final(self).next_mem_id_view() == (id + 1) % 256
                &&& forall|d: int|
                    0 <= d < (id - old(self).next_mem_id_view()) % 256 ==> old(self).mem_view()[#[trigger] slot_after(
                        old(self).next_mem_id_view(),
                        d,
                    )] is Some
            },
    {
        if self.mem_count >= 255 {
            return Err(());
        }
        let ghost start = self.next_mem_id;
        let mut attempts: usize = 0;
        while attempts < MEM_SLOTS
            invariant
                self.wf(),
                *self == (TextBufferState { next_mem_id: self.next_mem_id, ..*old(self) }),
                attempts <= 256,
                self.mem_count < 255,
                self.next_mem_id == (start + attempts) % 256,
                start == old(self).next_mem_id,
                forall|d: int| 0 <= d < attempts ==> old(self).mem_view()[#[trigger] slot_after(start, d)] is Some,
            decreases 256 - attempts,
        {
            let candidate = self.next_mem_id;
            self.next_mem_id = self.next_mem_id.wrapping_add(1);
            let vacant = self.mem_slots[candidate as usize].is_none();
            if vacant {
                let copy = bytes_to_vec(data);
                let ghost before = self.mem_view();
                self.mem_slots.set(candidate as usize, Some(copy));
                self.mem_count = self.mem_count + 1;
                proof {
                    assert(self.mem_view() =~= before.update(candidate as int, Some(data@)));
                    lemma_occupied_update(before, candidate as int, Some(data@));
                    assert(((candidate - start) % 256) as int == attempts as int);
                }
                return Ok(candidate);
            }
            attempts = attempts + 1;
        }
        proof {
            assert forall|i: int| 0 <= i < 256 implies self.mem_view()[i] is Some by {
                let d = (i - start) % 256;
                assert(slot_after(start, d) == i);
            }
            lemma_occupied_le(self.mem_view());
        }
        Err(())
    }

    /// Replaces the bytes held under `mem_id`, if any.
    pub fn replace_mem_buffer(&mut self, mem_id: u8, data: &[u8]) -> (ok: bool)
        requires
            old(self).wf(),
        ensures
            final(self).wf(),
            ok == old(self).mem_view()[mem_id as int] is Some,
            ok ==> final(self).same_but_mem(&*old(self)) && final(self).next_mem_id_view()
                == old(self).next_mem_id_view() && final(self).mem_view() == old(self).mem_view().update(
                mem_id as int,
                Some(data@),
            ),
            !ok ==> *final(self) == *old(self),
    {
        if self.mem_slots[mem_id as usize].is_some() {
            let copy = bytes_to_vec(data);
            let ghost before = self.mem_view();
            self.mem_slots.set(mem_id as usize, Some(copy));
            proof {
                assert(self.mem_view() =~= before.update(mem_id as int, Some(data@)));
                lemma_occupied_update(before, mem_id as int, Some(data@));
            }
            return true;
        }
        false
    }

    /// Empties the registry and restarts ids at zero.
    pub fn clear_mem_registry(&mut self)
        requires
            old(self).wf(),
        ensures
            final(self).wf(),
            final(self).same_but_mem(&*old(self)),
            final(self).next_mem_id_view() == 0,
            final(self).mem_view() == Seq::new(256, |i: int| None::<Seq<u8>>),
    {
        let mut slots: Vec<Option<Vec<u8>>> = Vec::new();
        let mut i: usize = 0;
        while i < MEM_SLOTS
            invariant
                i <= 256,
                slots@.len() == i,
                forall|k: int| 0 <= k < i ==> slots@[k] is None,
            decreases 256 - i,
        {
            slots.push(None);
            i = i + 1;
        }
        self.mem_slots = slots;
        self.mem_count = 0;
        self.next_mem_id = 0;
        proof {
            assert(self.mem_view() =~= Seq::new(256, |i: int| None::<Seq<u8>>));
            lemma_none_count(self.mem_view());
        }
    }

    /// Replaces the text by the normalized bytes held under `mem_id`, if any.
    pub fn set_text_from_mem(&mut self, mem_id: u8)
        requires
            old(self).wf(),
        ensures
            final(self).wf(),
            final(self).same_but_text(&*old(self)),
            final(self).text_view() == match old(self).mem_view()[mem_id as int] {
                Some(d) => normalize_newlines(utf8_lossy(d)),
                None => old(self).text_view(),
            },
    {
        match &self.mem_slots[mem_id as usize] {
            Some(data) => {
                self.text = normalize_text_bytes(data.as_slice());
            },
            None => {},
        }
    }

    /// Replaces the text by the normalized bytes.
    pub fn set_text_bytes(&mut self, data: &[u8])
        requires
            old(self).wf(),
        ensures
            final(self).wf(),
            final(self).same_but_text(&*old(self)),
            final(self).text_view() == normalize_newlines(utf8_lossy(data@)),
            vstd::utf8::valid_utf8(data@) ==> final(self).text_view() == normalize_newlines(
                vstd::utf8::decode_utf8(data@),
            ),
    {
        self.text = normalize_text_bytes(data);
    }

    /// Appends the normalized bytes to the text.
    pub fn append_bytes(&mut self, data: &[u8])
        requires
            old(self).wf(),
        ensures
            final(self).wf(),
            final(self).same_but_text(&*old(self)),
            data@.len() == 0 ==> final(self).text_view() == old(self).text_view(),
            data@.len() > 0 ==> final(self).text_view() == old(self).text_view() + normalize_newlines(
                utf8_lossy(data@),
            ),
    {
        if data.len() == 0 {
            return;
        }
        let extra = normalize_text_bytes(data);
        let mut i: usize = 0;
        let ghost base = self.text@;
        while i < extra.len()
            invariant
                i <= extra@.len(),
                self.text@ == base + extra@.take(i as int),
                *self == (TextBufferState { text: self.text, ..*old(self) }),
                base == old(self).text@,
                no_cr(base),
                no_cr(extra@),
            decreases extra@.len() - i,
        {
            self.text.push(extra[i]);
            proof {
                assert(base + extra@.take(i + 1) =~= (base + extra@.take(i as int)).push(extra@[i as int]));
            }
            i = i + 1;
        }
        proof {
            assert(extra@.take(extra@.len() as int) =~= extra@);
        }
    }

    /// Appends the normalized bytes held under `mem_id`, if any.
    pub fn append_from_mem(&mut self, mem_id: u8)
        requires
            old(self).wf(),
        ensures
            final(self).wf(),
            final(self).same_but_text(&*old(self)),
            final(self).text_view() == match old(self).mem_view()[mem_id as int] {
                Some(d) => if d.len() == 0 {
                    old(self).text_view()
                } else {
                    old(self).text_view() + normalize_newlines(utf8_lossy(d))
                },
                None => old(self).text_view(),
            },
    {
        let copy = match &self.mem_slots[mem_id as usize] {
            Some(data) => Some(bytes_to_vec(data.as_slice())),
            None => None,
        };
        match copy {
            Some(data) => self.append_bytes(data.as_slice()),
            None => {},
        }
    }

    /// Replaces the text by the concatenation of the chunks' normalized bytes.
    pub fn set_styled_text(&mut self, chunks: &[StyledChunk])
        requires
            old(self).wf(),
        ensures
            final(self).wf(),
            final(self).same_but_text(&*old(self)),
            final(self).text_view() == styled_text(chunks@),
    {
        let mut out: Vec<char> = Vec::new();
        let mut i: usize = 0;
        while i < chunks.len()
            invariant
                i <= chunks@.len(),
                out@ == styled_text(chunks@.take(i as int)),
                no_cr(out@),
            decreases chunks@.len() - i,
        {
            proof {
                assert(chunks@.take(i + 1).drop_last() =~= chunks@.take(i as int));
            }
            if chunks[i].text.len() > 0 {
                let part = normalize_text_bytes(chunks[i].text.as_slice());
                let mut k: usize = 0;
                let ghost base = out@;
                while k < part.len()
                    invariant
                        k <= part@.len(),
                        out@ == base + part@.take(k as int),
                        no_cr(base),
                        no_cr(part@),
                    decreases part@.len() - k,
                {
                    out.push(part[k]);
                    proof {
                        assert(base + part@.take(k + 1) =~= (base + part@.take(k as int)).push(part@[k as int]));
                    }
                    k = k + 1;
                }
                proof {
                    assert(part@.take(part@.len() as int) =~= part@);
                }
            }
            i = i + 1;
        }
        proof {
            assert(chunks@.take(chunks@.len() as int) =~= chunks@);
        }
        self.text = out;
    }

    /// The text as UTF-8 bytes.
    pub fn plain_text_bytes(&self) -> (b: Vec<u8>)
        ensures
            b@ == vstd::utf8::encode_utf8(self.text_view()),
    {
        encode_chars(self.text.as_slice())
    }

    /// The text as chars.
    pub fn text_chars(&self) -> (t: &[char])
        ensures
            t@ == self.text_view(),
    {
        self.text.as_slice()
    }

    /// The text between two weight offsets.
    pub fn text_range(&self, start_offset: u32, end_offset: u32) -> (s: String)
        ensures
            s@ == weight_slice(self.text_view(), self.tab_width_view(), start_offset as int, end_offset as int),
    {
        if start_offset >= end_offset {
            return chars_to_string(Vec::new().as_slice());
        }
        let chars = slice_by_weight_offsets(self.text.as_slice(), self.tab_width, start_offset, end_offset);
        chars_to_string(chars.as_slice())
    }

    /// The text between two (row, column) positions, columns in display
    /// width, lines joined by newlines; empty when a row is out of range or
    /// the rows are reversed.
    pub fn text_range_by_coords(&self, start_row: u32, start_col: u32, end_row: u32, end_col: u32) -> (s: String)
        ensures
            s@ == coords_text(
                self.text_view(),
                self.tab_width_view(),
                start_row as int,
                start_col as int,
                end_row as int,
                end_col as int,
            ),
    {
        let chars = coords_chars(self.text.as_slice(), self.tab_width, start_row, start_col, end_row, end_col);
        chars_to_string(chars.as_slice())
    }

    /// Inserts normalized bytes at a weight offset; returns the offset just
    /// past the inserted text.
    pub fn insert_text_at_offset(&mut self, offset: u32, data: &[u8]) -> (r: u32)
        requires
            old(self).wf(),
        ensures
            final(self).wf(),
            final(self).same_but_text(&*old(self)),
            ({
                let ins = normalize_newlines(utf8_lossy(data@));
                let t = old(self).text_view();
                let tw = old(self).tab_width_view();
                &&& ins.len() == 0 ==> r == offset && final(self).text_view() == t
                &&& ins.len() > 0 ==> final(self).text_view() == t.take(weight_index(t, tw, offset as int)) + ins
                    + t.skip(weight_index(t, tw, offset as int))
                &&& ins.len() > 0 ==> r == sat(offset + weight_prefix(ins, tw, ins.len() as int))
            }),
    {
        let insert = normalize_text_bytes(data);
        if insert.len() == 0 {
            return offset;
        }
        let idx = weight_to_index(self.text.as_slice(), self.tab_width, offset);
        let mut out: Vec<char> = copy_range(self.text.as_slice(), 0, idx);
        let mut k: usize = 0;
        let ghost pre = out@;
        while k < insert.len()
            invariant
                k <= insert@.len(),
                out@ == pre + insert@.take(k as int),
                no_cr(pre),
                no_cr(insert@),
            decreases insert@.len() - k,
        {
            out.push(insert[k]);
            proof {
                assert(pre + insert@.take(k + 1) =~= (pre + insert@.take(k as int)).push(insert@[k as int]));
            }
            k = k + 1;
        }
        let mut j: usize = idx;
        let ghost mid = out@;
        while j < self.text.len()
            invariant
                idx <= j <= self.text@.len(),
                out@ == mid + self.text@.subrange(idx as int, j as int),
                no_cr(mid),
                no_cr(self.text@),
            decreases self.text@.len() - j,
        {
            out.push(self.text[j]);
            proof {
                assert(mid + self.text@.subrange(idx as int, j + 1) =~= (mid + self.text@.subrange(idx as int, j as int)).push(
                    self.text@[j as int],
                ));
            }
            j = j + 1;
        }
        let added = text_weight(insert.as_slice(), self.tab_width);
        proof {
            assert(insert@.take(insert@.len() as int) =~= insert@);
            assert(self.text@.subrange(idx as int, self.text@.len() as int) =~= self.text@.skip(idx as int));
            assert(first_at_weight_or_end(self.text@, self.tab_width, offset as int, idx as int));
        }
        let ghost t0 = self.text@;
        self.text = out;
        proof {
            assert(self.text@ =~= t0.take(idx as int) + insert@ + t0.skip(idx as int));
            lemma_first_at_weight_or_end_unique(t0, self.tab_width, offset as int, idx as int);
        }
        offset.saturating_add(added)
    }

    /// Deletes the text between two weight offsets (in either order); returns
    /// the smaller offset.
    pub fn delete_range_by_offsets(&mut self, start_offset: u32, end_offset: u32) -> (r: u32)
        requires
            old(self).wf(),
        ensures
            final(self).wf(),
            final(self).same_but_text(&*old(self)),
            r == if start_offset < end_offset { start_offset } else { end_offset },
            final(self).text_view() == delete_weight_range(
                old(self).text_view(),
                old(self).tab_width_view(),
                start_offset as int,
                end_offset as int,
            ),
    {
        if start_offset == end_offset {
            return start_offset;
        }
        let start = if start_offset < end_offset { start_offset } else { end_offset };
        let end = if start_offset < end_offset { end_offset } else { start_offset };
        let a = weight_to_index(self.text.as_slice(), self.tab_width, start);
        let b = weight_to_index(self.text.as_slice(), self.tab_width, end);
        proof {
            assert(first_at_weight_or_end(self.text@, self.tab_width, start as int, a as int));
            assert(first_at_weight_or_end(self.text@, self.tab_width, end as int, b as int));
            lemma_first_at_weight_or_end_unique(self.text@, self.tab_width, start as int, a as int);
            lemma_first_at_weight_or_end_unique(self.text@, self.tab_width, end as int, b as int);
        }
        if a >= b || a >= self.text.len() {
            return start;
        }
        let mut out: Vec<char> = copy_range(self.text.as_slice(), 0, a);
        let mut j: usize = b;
        let ghost pre = out@;
        while j < self.text.len()
            invariant
                b <= j <= self.text@.len(),
                out@ == pre + self.text@.subrange(b as int, j as int),
                no_cr(pre),
                no_cr(self.text@),
            decreases self.text@.len() - j,
        {
            out.push(self.text[j]);
            proof {
                assert(pre + self.text@.subrange(b as int, j + 1) =~= (pre + self.text@.subrange(b as int, j as int)).push(
                    self.text@[j as int],
                ));
            }
            j = j + 1;
        }
        proof {
            assert(self.text@.subrange(b as int, self.text@.len() as int) =~= self.text@.skip(b as int));
        }
        self.text = out;
        start
    }
}

/// Copies as many bytes of `source` as fit into `out`; returns how many.
pub fn copy_bytes_to_out(source: &[u8], out: &mut [u8]) -> (n: usize)
    ensures
        n == if source@.len() <= old(out)@.len() { source@.len() } else { old(out)@.len() },
        final(out)@ == source@.take(n as int) + old(out)@.skip(n as int),
{
    let n = if source.len() <= out.len() { source.len() } else { out.len() };
    let mut i: usize = 0;
    while i < n
        invariant
            n <= source@.len(),
            n <= out@.len(),
            out@.len() == old(out)@.len(),
            i <= n,
            out@ == source@.take(i as int) + old(out)@.skip(i as int),
        decreases n - i,
    {
        out[i] = source[i];
        proof {
            assert(source@.take(i + 1) + old(out)@.skip(i + 1) =~= out@);
        }
        i = i + 1;
    }
    n
}

/// Buffers that differ at most in their text share every setting, and the
/// relation composes.
pub proof fn lemma_same_but_text(a: &TextBufferState, b: &TextBufferState, c: &TextBufferState)
    ensures
        a.same_but_text(a),
        a.same_but_text(b) ==> {
            &&& a.tab_width_view() == b.tab_width_view()
            &&& a.width_method_view() == b.width_method_view()
            &&& a.mem_view() == b.mem_view()
            &&& a.next_mem_id_view() == b.next_mem_id_view()
            &&& a.default_fg_view() == b.default_fg_view()
            &&& a.default_bg_view() == b.default_bg_view()
            &&& a.default_attributes_view() == b.default_attributes_view()
        },
        a.same_but_text(b) && b.same_but_text(c) ==> a.same_but_text(c),
{
}

pub proof fn lemma_none_count(s: Seq<Option<Seq<u8>>>)
    requires
        forall|i: int| 0 <= i < s.len() ==> s[i] is None,
    ensures
        occupied_count(s) == 0,
    decreases s.len(),
{
    if s.len() > 0 {
        lemma_none_count(s.drop_last());
    }
}

/// The concatenated normalized text of styled chunks; empty chunks add nothing.
pub open spec fn styled_text(chunks: Seq<StyledChunk>) -> Seq<char>
    decreases chunks.len(),
{
    if chunks.len() == 0 {
        Seq::empty()
    } else {
        styled_text(chunks.drop_last()) + if chunks.last().text@.len() > 0 {
            normalize_newlines(utf8_lossy(chunks.last().text@))
        } else {
            Seq::empty()
        }
    }
}

/// `k` is the first index whose running weight is `target`, or the length.
pub open spec fn first_at_weight_or_end(text: Seq<char>, tab_width: u8, target: int, k: int) -> bool {
    &&& 0 <= k <= text.len()
    &&& k < text.len() ==> weight_prefix(text, tab_width, k) == target
    &&& forall|j: int| 0 <= j < k ==> weight_prefix(text, tab_width, j) != target
}

/// The index `first_at_weight_or_end` designates.
pub open spec fn weight_index(text: Seq<char>, tab_width: u8, target: int) -> int {
    choose|k: int| first_at_weight_or_end(text, tab_width, target, k)
}

pub proof fn lemma_first_at_weight_or_end_unique(text: Seq<char>, tab_width: u8, target: int, k: int)
    requires
        first_at_weight_or_end(text, tab_width, target, k),
    ensures
        weight_index(text, tab_width, target) == k,
{
    let c = weight_index(text, tab_width, target);
    assert(first_at_weight_or_end(text, tab_width, target, c));
    if c < k {
        assert(weight_prefix(text, tab_width, c) != target);
    }
    if k < c {
        assert(weight_prefix(text, tab_width, k) != target);
    }
}

/// The text with the chars between two weight offsets (in either order)
/// removed; unchanged when they are equal or designate no chars.
pub open spec fn delete_weight_range(text: Seq<char>, tab_width: u8, s: int, e: int) -> Seq<char> {
    let lo = if s < e { s } else { e };
    let hi = if s < e { e } else { s };
    let a = weight_index(text, tab_width, lo);
    let b = weight_index(text, tab_width, hi);
    if s == e || a >= b || a >= text.len() {
        text
    } else {
        text.take(a) + text.skip(b)
    }
}

fn push_coords_piece(
    text: &[char],
    tab_width: u8,
    sr: usize,
    start_col: u32,
    er: usize,
    end_col: u32,
    row: usize,
    out: &mut Vec<char>,
)
    requires
        sr <= row <= er,
        er < lines_of(text@).len(),
    ensures
        final(out)@ + coords_pieces(lines_of(text@), tab_width, sr as int, start_col as int, er as int, end_col as int, row + 1)
            == old(out)@ + coords_pieces(
            lines_of(text@),
            tab_width,
            sr as int,
            start_col as int,
            er as int,
            end_col as int,
            row as int,
        ),
{
    let ghost lines = lines_of(text@);
    let (a, b) = match line_range(text, row) {
        Some(p) => p,
        None => {
            assert(false);
            (0, 0)
        },
    };
    let line = copy_range(text, a, b);
    let from = if row == sr { start_col } else { 0 };
    let to = if row == er { end_col } else { text_width(line.as_slice(), tab_width) };
    let piece = slice_by_display_offsets(line.as_slice(), tab_width, from, to);
    let ghost before = out@;
    let mut k: usize = 0;
    while k < piece.len()
        invariant
            k <= piece@.len(),
            out@ == before + piece@.take(k as int),
        decreases piece@.len() - k,
    {
        out.push(piece[k]);
        proof {
            assert(before + piece@.take(k + 1) =~= (before + piece@.take(k as int)).push(piece@[k as int]));
        }
        k = k + 1;
    }
    proof {
        assert(piece@.take(piece@.len() as int) =~= piece@);
    }
    if row < er {
        out.push('\n');
    }
    proof {
        let rest = coords_pieces(lines, tab_width, sr as int, start_col as int, er as int, end_col as int, row + 1);
        if row < er {
            assert(out@ + rest =~= before + (piece@ + (seq!['\n'] + rest)));
        } else {
            assert(rest =~= Seq::<char>::empty());
            assert(out@ + rest =~= before + (piece@ + Seq::<char>::empty()));
        }
    }
}

/// The chars of `coords_text`.
pub fn coords_chars(text: &[char], tab_width: u8, start_row: u32, start_col: u32, end_row: u32, end_col: u32) -> (r:
    Vec<char>)
    ensures
        r@ == coords_text(text@, tab_width, start_row as int, start_col as int, end_row as int, end_col as int),
{
    let sr = start_row as usize;
    let er = end_row as usize;
    if line_range(text, sr).is_none() || line_range(text, er).is_none() || sr > er {
        return Vec::new();
    }
    let ghost lines = lines_of(text@);
    let mut out: Vec<char> = Vec::new();
    let mut row: usize = sr;
    proof {
        assert(out@ + coords_pieces(lines, tab_width, sr as int, start_col as int, er as int, end_col as int, sr as int)
            =~= coords_pieces(lines, tab_width, sr as int, start_col as int, er as int, end_col as int, sr as int));
    }
    while row < er
        invariant
            sr <= row <= er,
            er < lines.len(),
            lines == lines_of(text@),
            coords_pieces(lines, tab_width, sr as int, start_col as int, er as int, end_col as int, sr as int) == out@
                + coords_pieces(lines, tab_width, sr as int, start_col as int, er as int, end_col as int, row as int),
        decreases er - row,
    {
        push_coords_piece(text, tab_width, sr, start_col, er, end_col, row, &mut out);
        row = row + 1;
    }
    push_coords_piece(text, tab_width, sr, start_col, er, end_col, row, &mut out);
    proof {
        assert(out@ + Seq::<char>::empty() =~= out@);
    }
    out
}

} // verus!
