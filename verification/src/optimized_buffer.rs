//! A grid of cells — code point, foreground, background, attributes — with
//! a stack of scissor rectangles and a stack of opacities. Colors and
//! opacities are held as `f32` bit patterns; arithmetic on them is not
//! done here.
use crate::draw::cell_bytes;
use crate::renderer_state::{i32_of, intersect_ok, intersect_rects, intersect_spec, rect_ok, ClipRect};
use crate::text_buffer::Rgba;
use vstd::prelude::*;

verus! {

/// A space.
pub const DEFAULT_SPACE_CHAR: u32 = 32;

/// Opaque black, as `f32` bit patterns.
pub const DEFAULT_BG: Rgba = [0u32, 0u32, 0u32, 0x3f80_0000u32];

/// Opaque white, as `f32` bit patterns.
pub const DEFAULT_FG: Rgba = [0x3f80_0000u32, 0x3f80_0000u32, 0x3f80_0000u32, 0x3f80_0000u32];

/// `1.0f32` as bits: the opacity with nothing pushed.
pub const FULL_OPACITY: u32 = 0x3f80_0000;

/// The zero color, as `f32` bit patterns.
pub const ZERO_COLOR: Rgba = [0u32, 0u32, 0u32, 0u32];

/// A vector of `n` copies of `x`.
pub fn filled<T: Copy>(n: usize, x: T) -> (r: Vec<T>)
    ensures
        r@ == Seq::new(n as nat, |i: int| x),
{
    let mut r: Vec<T> = Vec::new();
    let mut i: usize = 0;
    while i < n
        invariant
            i <= n,
            r@ == Seq::new(i as nat, |k: int| x),
        decreases n - i,
    {
        r.push(x);
        proof {
            assert(r@ =~= Seq::new((i + 1) as nat, |k: int| x));
        }
        i = i + 1;
    }
    r
}

/// Sets every element to `x`.
pub fn fill_all<T: Copy>(v: &mut Vec<T>, x: T)
    ensures
        final(v)@ == Seq::new(old(v)@.len(), |i: int| x),
{
    let mut i: usize = 0;
    while i < v.len()
        invariant
            i <= v@.len(),
            v@.len() == old(v)@.len(),
            forall|k: int| 0 <= k < i ==> v@[k] == x,
        decreases v@.len() - i,
    {
        v.set(i, x);
        i = i + 1;
    }
    assert(v@ =~= Seq::new(old(v)@.len(), |i: int| x));
}

/// Cuts or extends to `n` elements, the new ones `x`.
pub fn resize_to<T: Copy>(v: &mut Vec<T>, n: usize, x: T)
    ensures
        n <= old(v)@.len() ==> final(v)@ == old(v)@.take(n as int),
        n > old(v)@.len() ==> final(v)@ == old(v)@ + Seq::new((n - old(v)@.len()) as nat, |i: int| x),
{
    if n <= v.len() {
        v.truncate(n);
        assert(v@ =~= old(v)@.take(n as int));
        return;
    }
    let start = v.len();
    while v.len() < n
        invariant
            start == old(v)@.len(),
            start <= v@.len() <= n,
            v@ == old(v)@ + Seq::new((v@.len() - start) as nat, |i: int| x),
        decreases n - v@.len(),
    {
        v.push(x);
        proof {
            assert(v@ =~= old(v)@ + Seq::new((v@.len() - start) as nat, |i: int| x));
        }
    }
}

/// A copy of a slice.
pub fn copy_of<T: Copy>(s: &[T]) -> (r: Vec<T>)
    ensures
        r@ == s@,
{
    let mut r: Vec<T> = Vec::new();
    let mut i: usize = 0;
    while i < s.len()
        invariant
            i <= s@.len(),
            r@ == s@.take(i as int),
        decreases s@.len() - i,
    {
        r.push(s[i]);
        proof {
            assert(s@.take(i + 1) =~= s@.take(i as int).push(s@[i as int]));
        }
        i = i + 1;
    }
    assert(s@.take(s@.len() as int) =~= s@);
    r
}

pub struct OptimizedBuffer {
    width: usize,
    height: usize,
    respect_alpha: bool,
    id: Vec<u8>,
    chars: Vec<u32>,
    fg: Vec<Rgba>,
    bg: Vec<Rgba>,
    attributes: Vec<u32>,
    opacity_stack: Vec<u32>,
    scissor_stack: Vec<ClipRect>,
}

impl OptimizedBuffer {
    pub closed spec fn dims(&self) -> (usize, usize) {
        (self.width, self.height)
    }

    pub closed spec fn chars_view(&self) -> Seq<u32> {
        self.chars@
    }

    pub closed spec fn fg_view(&self) -> Seq<Rgba> {
        self.fg@
    }

    pub closed spec fn bg_view(&self) -> Seq<Rgba> {
        self.bg@
    }

    pub closed spec fn attrs_view(&self) -> Seq<u32> {
        self.attributes@
    }

    pub closed spec fn scissors_view(&self) -> Seq<ClipRect> {
        self.scissor_stack@
    }

    pub closed spec fn opacity_view(&self) -> Seq<u32> {
        self.opacity_stack@
    }

    pub closed spec fn id_view(&self) -> Seq<u8> {
        self.id@
    }

    pub closed spec fn respect_alpha_view(&self) -> bool {
        self.respect_alpha
    }

    /// The four grids hold one entry per cell, and every scissor rectangle's
    /// far edges fit in `i32`.
    pub closed spec fn wf(&self) -> bool {
        &&& self.width * self.height <= usize::MAX
        &&& self.chars@.len() == self.width * self.height
        &&& self.fg@.len() == self.width * self.height
        &&& self.bg@.len() == self.width * self.height
        &&& self.attributes@.len() == self.width * self.height
        &&& forall|i: int| 0 <= i < self.scissor_stack@.len() ==> rect_ok(#[trigger] self.scissor_stack@[i])
    }

    pub proof fn lemma_wf(&self)
        requires
            self.wf(),
        ensures
            self.dims().0 * self.dims().1 <= usize::MAX,
            self.chars_view().len() == self.dims().0 * self.dims().1,
            self.fg_view().len() == self.dims().0 * self.dims().1,
            self.bg_view().len() == self.dims().0 * self.dims().1,
            self.attrs_view().len() == self.dims().0 * self.dims().1,
            forall|i: int| 0 <= i < self.scissors_view().len() ==> rect_ok(#[trigger] self.scissors_view()[i]),
    {
    }

    /// A cleared grid with no stacks: chars and attributes 0, foreground
    /// zero, background `bg`.
    pub open spec fn blank(&self, bg: Rgba) -> bool {
        let n = self.dims().0 * self.dims().1;
        &&& self.chars_view() == Seq::new(n as nat, |i: int| 0u32)
        &&& self.fg_view() == Seq::new(n as nat, |i: int| ZERO_COLOR)
        &&& self.bg_view() == Seq::new(n as nat, |i: int| bg)
        &&& self.attrs_view() == Seq::new(n as nat, |i: int| 0u32)
    }

    /// A buffer of `width` by `height` cleared cells, named `id`.
    pub fn with_id(width: usize, height: usize, respect_alpha: bool, id: Vec<u8>) -> (r: Self)
        requires
            width * height <= usize::MAX,
        ensures
            r.wf(),
            r.dims() == (width, height),
            r.respect_alpha_view() == respect_alpha,
            r.id_view() == id@,
            r.blank(DEFAULT_BG),
            r.scissors_view().len() == 0,
            r.opacity_view().len() == 0,
    {
        let cells: usize = width * height;
        OptimizedBuffer {
            width,
            height,
            respect_alpha,
            id,
            chars: filled(cells, 0u32),
            fg: filled(cells, ZERO_COLOR),
            bg: filled(cells, DEFAULT_BG),
            attributes: filled(cells, 0u32),
            opacity_stack: Vec::new(),
            scissor_stack: Vec::new(),
        }
    }

    /// A buffer named `unnamed`.
    pub fn new(width: usize, height: usize, respect_alpha: bool) -> (r: Self)
        requires
            width * height <= usize::MAX,
        ensures
            r.wf(),
            r.dims() == (width, height),
            r.respect_alpha_view() == respect_alpha,
            r.id_view() == seq![117u8, 110, 110, 97, 109, 101, 100],
            r.blank(DEFAULT_BG),
            r.scissors_view().len() == 0,
            r.opacity_view().len() == 0,
    {
        let id: Vec<u8> = vec![117u8, 110, 110, 97, 109, 101, 100];
        assert(id@ =~= seq![117u8, 110, 110, 97, 109, 101, 100]);
        Self::with_id(width, height, respect_alpha, id)
    }

    pub fn width(&self) -> (w: usize)
        ensures
            w == self.dims().0,
    {
        self.width
    }

    pub fn height(&self) -> (h: usize)
        ensures
            h == self.dims().1,
    {
        self.height
    }

    pub fn id_bytes(&self) -> (r: &[u8])
        ensures
            r@ == self.id_view(),
    {
        self.id.as_slice()
    }

    pub fn chars(&self) -> (r: &[u32])
        ensures
            r@ == self.chars_view(),
    {
        self.chars.as_slice()
    }

    pub fn fg(&self) -> (r: &[Rgba])
        ensures
            r@ == self.fg_view(),
    {
        self.fg.as_slice()
    }

    pub fn bg(&self) -> (r: &[Rgba])
        ensures
            r@ == self.bg_view(),
    {
        self.bg.as_slice()
    }

    pub fn attributes(&self) -> (r: &[u32])
        ensures
            r@ == self.attrs_view(),
    {
        self.attributes.as_slice()
    }

    /// An upper bound on the bytes of the grid's text: four per cell and a
    /// line break per row, saturating at `usize::MAX`.
    pub fn real_char_size(&self) -> (n: usize)
        requires
            self.wf(),
        ensures
            n == if self.dims().0 * self.dims().1 * 4 + self.dims().1 > usize::MAX {
                usize::MAX as int
            } else {
                self.dims().0 * self.dims().1 * 4 + self.dims().1
            },
    {
        let cells: usize = self.width * self.height;
        let bytes: usize = if cells > usize::MAX / 4 { usize::MAX } else { cells * 4 };
        if bytes > usize::MAX - self.height {
            usize::MAX
        } else {
            bytes + self.height
        }
    }

    pub fn respect_alpha(&self) -> (b: bool)
        ensures
            b == self.respect_alpha_view(),
    {
        self.respect_alpha
    }

    /// Everything but the four grids is as in `o`.
    pub closed spec fn same_but_cells(&self, o: &Self) -> bool {
        &&& self.width == o.width && self.height == o.height
        &&& self.respect_alpha == o.respect_alpha
        &&& self.id@ == o.id@
        &&& self.opacity_stack@ == o.opacity_stack@
        &&& self.scissor_stack@ == o.scissor_stack@
    }

    pub fn set_respect_alpha(&mut self, respect_alpha: bool)
        requires
            old(self).wf(),
        ensures
            final(self).wf(),
            final(self).respect_alpha_view() == respect_alpha,
            final(self).dims() == old(self).dims(),
            final(self).id_view() == old(self).id_view(),
            final(self).chars_view() == old(self).chars_view(),
            final(self).fg_view() == old(self).fg_view(),
            final(self).bg_view() == old(self).bg_view(),
            final(self).attrs_view() == old(self).attrs_view(),
            final(self).scissors_view() == old(self).scissors_view(),
            final(self).opacity_view() == old(self).opacity_view(),
    {
        self.respect_alpha = respect_alpha;
    }

    /// Clears every cell: char and attributes 0, foreground zero,
    /// background `bg`.
    pub fn clear_with_bg(&mut self, bg: Rgba)
        requires
            old(self).wf(),
        ensures
            final(self).wf(),
            final(self).blank(bg),
            final(self).same_but_cells(&*old(self)),
            final(self).dims() == old(self).dims(),
            final(self).scissors_view() == old(self).scissors_view(),
    {
        fill_all(&mut self.chars, 0u32);
        fill_all(&mut self.fg, ZERO_COLOR);
        fill_all(&mut self.bg, bg);
        fill_all(&mut self.attributes, 0u32);
    }

    /// Clears every cell to the default background.
    pub fn clear(&mut self)
        requires
            old(self).wf(),
        ensures
            final(self).wf(),
            final(self).blank(DEFAULT_BG),
            final(self).same_but_cells(&*old(self)),
            final(self).dims() == old(self).dims(),
            final(self).scissors_view() == old(self).scissors_view(),
    {
        self.clear_with_bg(DEFAULT_BG);
    }

    /// The index of cell (x, y), row by row.
    pub fn cell_index(&self, x: usize, y: usize) -> (i: usize)
        requires
            self.wf(),
            x < self.dims().0,
            y < self.dims().1,
        ensures
            i == y * self.dims().0 + x,
            i < self.dims().0 * self.dims().1,
    {
        proof {
            lemma_index_in_grid(self.width as int, self.height as int, x as int, y as int);
        }
        y * self.width + x
    }

    /// Writes one cell.
    pub fn write_cell(&mut self, x: usize, y: usize, codepoint: u32, fg: Rgba, bg: Rgba, attributes: u32)
        requires
            old(self).wf(),
            x < old(self).dims().0,
            y < old(self).dims().1,
        ensures
            final(self).wf(),
            final(self).same_but_cells(&*old(self)),
            final(self).dims() == old(self).dims(),
            final(self).scissors_view() == old(self).scissors_view(),
            ({
                let i = y * old(self).dims().0 + x;
                &&& final(self).chars_view() == old(self).chars_view().update(i, codepoint)
                &&& final(self).fg_view() == old(self).fg_view().update(i, fg)
                &&& final(self).bg_view() == old(self).bg_view().update(i, bg)
                &&& final(self).attrs_view() == old(self).attrs_view().update(i, attributes)
            }),
    {
        let index = self.cell_index(x, y);
        self.chars.set(index, codepoint);
        self.fg.set(index, fg);
        self.bg.set(index, bg);
        self.attributes.set(index, attributes);
    }

    /// Resizes to `width` by `height`: each grid is cut or extended in
    /// row-major order, new cells cleared (background the default).
    pub fn resize(&mut self, width: usize, height: usize)
        requires
            old(self).wf(),
            width * height <= usize::MAX,
        ensures
            final(self).wf(),
            final(self).dims() == (width, height),
            final(self).respect_alpha_view() == old(self).respect_alpha_view(),
            final(self).id_view() == old(self).id_view(),
            final(self).scissors_view() == old(self).scissors_view(),
            final(self).opacity_view() == old(self).opacity_view(),
            ({
                let n = width * height;
                let m = old(self).chars_view().len();
                &&& n <= m ==> final(self).chars_view() == old(self).chars_view().take(n)
                &&& n <= m ==> final(self).fg_view() == old(self).fg_view().take(n)
                &&& n <= m ==> final(self).bg_view() == old(self).bg_view().take(n)
                &&& n <= m ==> final(self).attrs_view() == old(self).attrs_view().take(n)
                &&& n > m ==> final(self).chars_view() == old(self).chars_view() + Seq::new((n - m) as nat, |i: int| 0u32)
                &&& n > m ==> final(self).fg_view() == old(self).fg_view() + Seq::new((n - m) as nat, |i: int| ZERO_COLOR)
                &&& n > m ==> final(self).bg_view() == old(self).bg_view() + Seq::new((n - m) as nat, |i: int| DEFAULT_BG)
                &&& n > m ==> final(self).attrs_view() == old(self).attrs_view() + Seq::new((n - m) as nat, |i: int| 0u32)
            }),
    {
        let cells: usize = width * height;
        self.width = width;
        self.height = height;
        resize_to(&mut self.chars, cells, 0u32);
        resize_to(&mut self.fg, cells, ZERO_COLOR);
        resize_to(&mut self.bg, cells, DEFAULT_BG);
        resize_to(&mut self.attributes, cells, 0u32);
    }

    /// Takes the size, alpha setting, name and cells of `other`; the stacks
    /// stay.
    pub fn copy_from(&mut self, other: &OptimizedBuffer)
        requires
            old(self).wf(),
            other.wf(),
        ensures
            final(self).wf(),
            final(self).dims() == other.dims(),
            final(self).respect_alpha_view() == other.respect_alpha_view(),
            final(self).id_view() == other.id_view(),
            final(self).chars_view() == other.chars_view(),
            final(self).fg_view() == other.fg_view(),
            final(self).bg_view() == other.bg_view(),
            final(self).attrs_view() == other.attrs_view(),
            final(self).scissors_view() == old(self).scissors_view(),
            final(self).opacity_view() == old(self).opacity_view(),
    {
        self.width = other.width;
        self.height = other.height;
        self.respect_alpha = other.respect_alpha;
        self.id = copy_of(other.id.as_slice());
        self.chars = copy_of(other.chars.as_slice());
        self.fg = copy_of(other.fg.as_slice());
        self.bg = copy_of(other.bg.as_slice());
        self.attributes = copy_of(other.attributes.as_slice());
    }

    /// The opacity in force, as bits: the top of the stack, else 1.0.
    pub fn current_opacity_bits(&self) -> (o: u32)
        ensures
            o == if self.opacity_view().len() == 0 { FULL_OPACITY } else { self.opacity_view().last() },
    {
        if self.opacity_stack.len() == 0 {
            FULL_OPACITY
        } else {
            self.opacity_stack[self.opacity_stack.len() - 1]
        }
    }

    /// Pushes an opacity (bits of the product the caller computed).
    pub fn push_opacity_bits(&mut self, opacity: u32)
        requires
            old(self).wf(),
        ensures
            final(self).wf(),
            final(self).opacity_view() == old(self).opacity_view().push(opacity),
            final(self).same_but_opacity(&*old(self)),
    {
        self.opacity_stack.push(opacity);
    }

    pub fn pop_opacity(&mut self)
        requires
            old(self).wf(),
        ensures
            final(self).wf(),
            final(self).opacity_view() == if old(self).opacity_view().len() == 0 {
                old(self).opacity_view()
            } else {
                old(self).opacity_view().drop_last()
            },
            final(self).same_but_opacity(&*old(self)),
    {
        let _ = self.opacity_stack.pop();
        proof {
            if old(self).opacity_stack@.len() > 0 {
                assert(self.opacity_stack@ =~= old(self).opacity_stack@.drop_last());
            }
        }
    }

    pub fn clear_opacity(&mut self)
        requires
            old(self).wf(),
        ensures
            final(self).wf(),
            final(self).opacity_view().len() == 0,
            final(self).same_but_opacity(&*old(self)),
    {
        self.opacity_stack.clear();
    }

    /// Everything but the opacity stack is as in `o`.
    pub closed spec fn same_but_opacity(&self, o: &Self) -> bool {
        &&& self.width == o.width && self.height == o.height
        &&& self.respect_alpha == o.respect_alpha
        &&& self.id@ == o.id@
        &&& self.chars@ == o.chars@ && self.fg@ == o.fg@ && self.bg@ == o.bg@ && self.attributes@ == o.attributes@
        &&& self.scissor_stack@ == o.scissor_stack@
    }

    /// Everything but the scissor stack is as in `o`.
    pub closed spec fn same_but_scissors(&self, o: &Self) -> bool {
        &&& self.width == o.width && self.height == o.height
        &&& self.respect_alpha == o.respect_alpha
        &&& self.id@ == o.id@
        &&& self.chars@ == o.chars@ && self.fg@ == o.fg@ && self.bg@ == o.bg@ && self.attributes@ == o.attributes@
        &&& self.opacity_stack@ == o.opacity_stack@
    }

    /// The scissor rectangle in force, if any.
    pub open spec fn top_scissor(&self) -> Option<ClipRect> {
        if self.scissors_view().len() == 0 {
            None
        } else {
            Some(self.scissors_view().last())
        }
    }

    pub fn current_scissor_rect(&self) -> (r: Option<ClipRect>)
        ensures
            r == self.top_scissor(),
    {
        if self.scissor_stack.len() == 0 {
            None
        } else {
            Some(self.scissor_stack[self.scissor_stack.len() - 1])
        }
    }

    /// Whether (x, y) lies in the scissor rectangle in force (always, with
    /// none; never, in an empty one).
    pub open spec fn in_scissor(&self, x: i32, y: i32) -> bool {
        match self.top_scissor() {
            None => true,
            Some(r) => r.width != 0 && r.height != 0 && r.x <= x < r.x + i32_of(r.width) && r.y <= y < r.y
                + i32_of(r.height),
        }
    }

    pub fn is_point_in_scissor(&self, x: i32, y: i32) -> (b: bool)
        requires
            self.wf(),
        ensures
            b == self.in_scissor(x, y),
    {
        match self.current_scissor_rect() {
            None => true,
            Some(r) => {
                proof {
                    assert(rect_ok(self.scissor_stack@[self.scissor_stack@.len() - 1]));
                }
                if r.width == 0 || r.height == 0 {
                    false
                } else {
                    let x2: i64 = r.x as i64 + i32_of_exec(r.width);
                    let y2: i64 = r.y as i64 + i32_of_exec(r.height);
                    x >= r.x && (x as i64) < x2 && y >= r.y && (y as i64) < y2
                }
            },
        }
    }

    /// The buffer's bounds as a rectangle.
    pub open spec fn bounds(&self) -> ClipRect {
        ClipRect { x: 0, y: 0, width: self.dims().0 as u32, height: self.dims().1 as u32 }
    }

    /// A rectangle clipped to the buffer and the scissor in force.
    pub open spec fn clip_spec(&self, r: ClipRect) -> Option<ClipRect> {
        match intersect_spec(r, self.bounds()) {
            None => None,
            Some(c) => match self.top_scissor() {
                Some(s) => intersect_spec(c, s),
                None => Some(c),
            },
        }
    }

    /// Clipping computes without overflow.
    pub open spec fn clip_ok(&self, r: ClipRect) -> bool {
        &&& intersect_ok(r, self.bounds())
        &&& intersect_spec(r, self.bounds()) matches Some(c) ==> (self.top_scissor() matches Some(s) ==> intersect_ok(c, s))
    }

    pub fn clip_rect(&self, x: i32, y: i32, width: u32, height: u32) -> (r: Option<ClipRect>)
        requires
            self.wf(),
            self.clip_ok(ClipRect { x, y, width, height }),
        ensures
            r == self.clip_spec(ClipRect { x, y, width, height }),
    {
        let bounds = ClipRect { x: 0, y: 0, width: self.width as u32, height: self.height as u32 };
        let c = match intersect_rects(ClipRect { x, y, width, height }, bounds) {
            Some(c) => c,
            None => {
                return None;
            },
        };
        match self.current_scissor_rect() {
            Some(s) => intersect_rects(c, s),
            None => Some(c),
        }
    }

    /// What pushing a scissor rectangle pushes: its overlap with the one in
    /// force (an empty rectangle at the origin when they do not meet), or
    /// the rectangle itself when none is in force.
    pub open spec fn pushed_scissor(&self, r: ClipRect) -> ClipRect {
        match self.top_scissor() {
            None => r,
            Some(s) => match intersect_spec(s, r) {
                Some(c) => c,
                None => ClipRect { x: 0, y: 0, width: 0, height: 0 },
            },
        }
    }

    pub fn push_scissor_rect(&mut self, x: i32, y: i32, width: u32, height: u32)
        requires
            old(self).wf(),
            rect_ok(ClipRect { x, y, width, height }),
            old(self).top_scissor() matches Some(s) ==> intersect_ok(s, ClipRect { x, y, width, height }),
        ensures
            final(self).wf(),
            final(self).scissors_view() == old(self).scissors_view().push(
                old(self).pushed_scissor(ClipRect { x, y, width, height }),
            ),
            final(self).same_but_scissors(&*old(self)),
    {
        let rect = ClipRect { x, y, width, height };
        let next = match self.current_scissor_rect() {
            Some(current) => intersect_rects(current, rect),
            None => Some(rect),
        };
        let pushed = match next {
            Some(c) => c,
            None => ClipRect { x: 0, y: 0, width: 0, height: 0 },
        };
        self.scissor_stack.push(pushed);
        proof {
            assert forall|i: int| 0 <= i < self.scissor_stack@.len() implies rect_ok(#[trigger] self.scissor_stack@[i]) by {
                if i < old(self).scissor_stack@.len() {
                    assert(self.scissor_stack@[i] == old(self).scissor_stack@[i]);
                }
            }
        }
    }

    pub fn pop_scissor_rect(&mut self)
        requires
            old(self).wf(),
        ensures
            final(self).wf(),
            final(self).scissors_view() == if old(self).scissors_view().len() == 0 {
                old(self).scissors_view()
            } else {
                old(self).scissors_view().drop_last()
            },
            final(self).same_but_scissors(&*old(self)),
    {
        let _ = self.scissor_stack.pop();
        proof {
            if old(self).scissor_stack@.len() > 0 {
                assert(self.scissor_stack@ =~= old(self).scissor_stack@.drop_last());
            }
            assert forall|i: int| 0 <= i < self.scissor_stack@.len() implies rect_ok(#[trigger] self.scissor_stack@[i]) by {
                assert(self.scissor_stack@[i] == old(self).scissor_stack@[i]);
            }
        }
    }

    pub fn clear_scissor_rects(&mut self)
        requires
            old(self).wf(),
        ensures
            final(self).wf(),
            final(self).scissors_view().len() == 0,
            final(self).same_but_scissors(&*old(self)),
    {
        self.scissor_stack.clear();
    }
}

/// The index of cell (cx, cy) in a grid `w` cells wide.
pub open spec fn grid_index(w: int, cx: int, cy: int) -> int {
    cy * w + cx
}

/// Cell (cx, cy) lies in columns `x0..x1` of rows `y0..y1`.
pub open spec fn in_area(x0: int, y0: int, x1: int, y1: int, cx: int, cy: int) -> bool {
    x0 <= cx < x1 && y0 <= cy < y1
}

/// `new` is `old` with `v` in every cell of the area, for a grid `w` by `h`.
pub open spec fn area_written<T>(new: Seq<T>, old: Seq<T>, w: int, h: int, x0: int, y0: int, x1: int, y1: int, v: T) -> bool {
    &&& new.len() == old.len()
    &&& forall|cx: int, cy: int|
        0 <= cx < w && 0 <= cy < h ==> new[#[trigger] grid_index(w, cx, cy)] == if in_area(x0, y0, x1, y1, cx, cy) {
            v
        } else {
            old[grid_index(w, cx, cy)]
        }
}

impl OptimizedBuffer {
    /// Every cell of the area holds the given cell; the others are as in `o`.
    pub open spec fn area_holds(
        &self,
        o: &Self,
        x0: int,
        y0: int,
        x1: int,
        y1: int,
        codepoint: u32,
        fg: Rgba,
        bg: Rgba,
        attributes: u32,
    ) -> bool {
        let w = o.dims().0 as int;
        let h = o.dims().1 as int;
        &&& area_written(self.chars_view(), o.chars_view(), w, h, x0, y0, x1, y1, codepoint)
        &&& area_written(self.fg_view(), o.fg_view(), w, h, x0, y0, x1, y1, fg)
        &&& area_written(self.bg_view(), o.bg_view(), w, h, x0, y0, x1, y1, bg)
        &&& area_written(self.attrs_view(), o.attrs_view(), w, h, x0, y0, x1, y1, attributes)
    }

    proof fn lemma_area_step(
        &self,
        prev: &Self,
        o: &Self,
        x0: int,
        y0: int,
        x1: int,
        y1: int,
        x: int,
        y: int,
        codepoint: u32,
        fg: Rgba,
        bg: Rgba,
        attributes: u32,
    )
        requires
            o.wf(),
            0 <= x0 <= x < x1 <= o.dims().0,
            0 <= y0 <= y < y1 <= o.dims().1,
            prev.chars_view().len() == o.chars_view().len(),
            prev.fg_view().len() == o.fg_view().len(),
            prev.bg_view().len() == o.bg_view().len(),
            prev.attrs_view().len() == o.attrs_view().len(),
            forall|cx: int, cy: int|
                0 <= cx < o.dims().0 && 0 <= cy < o.dims().1 ==> {
                    let k = #[trigger] grid_index(o.dims().0 as int, cx, cy);
                    let hit = in_area(x0, y0, x1, y, cx, cy) || (cy == y && x0 <= cx < x);
                    &&& prev.chars_view()[k] == if hit { codepoint } else { o.chars_view()[k] }
                    &&& prev.fg_view()[k] == if hit { fg } else { o.fg_view()[k] }
                    &&& prev.bg_view()[k] == if hit { bg } else { o.bg_view()[k] }
                    &&& prev.attrs_view()[k] == if hit { attributes } else { o.attrs_view()[k] }
                },
            self.chars_view() == prev.chars_view().update(grid_index(o.dims().0 as int, x, y), codepoint),
            self.fg_view() == prev.fg_view().update(grid_index(o.dims().0 as int, x, y), fg),
            self.bg_view() == prev.bg_view().update(grid_index(o.dims().0 as int, x, y), bg),
            self.attrs_view() == prev.attrs_view().update(grid_index(o.dims().0 as int, x, y), attributes),
        ensures
            forall|cx: int, cy: int|
                0 <= cx < o.dims().0 && 0 <= cy < o.dims().1 ==> {
                    let k = #[trigger] grid_index(o.dims().0 as int, cx, cy);
                    let hit = in_area(x0, y0, x1, y, cx, cy) || (cy == y && x0 <= cx < x + 1);
                    &&& self.chars_view()[k] == if hit { codepoint } else { o.chars_view()[k] }
                    &&& self.fg_view()[k] == if hit { fg } else { o.fg_view()[k] }
                    &&& self.bg_view()[k] == if hit { bg } else { o.bg_view()[k] }
                    &&& self.attrs_view()[k] == if hit { attributes } else { o.attrs_view()[k] }
                },
    {
        let w = o.dims().0 as int;
        assert forall|cx: int, cy: int| 0 <= cx < o.dims().0 && 0 <= cy < o.dims().1 implies {
            let k = #[trigger] grid_index(o.dims().0 as int, cx, cy);
            let hit = in_area(x0, y0, x1, y, cx, cy) || (cy == y && x0 <= cx < x + 1);
            &&& self.chars_view()[k] == if hit { codepoint } else { o.chars_view()[k] }
            &&& self.fg_view()[k] == if hit { fg } else { o.fg_view()[k] }
            &&& self.bg_view()[k] == if hit { bg } else { o.bg_view()[k] }
            &&& self.attrs_view()[k] == if hit { attributes } else { o.attrs_view()[k] }
        } by {
            o.lemma_wf();
            lemma_index_in_grid(w, o.dims().1 as int, cx, cy);
            lemma_index_in_grid(w, o.dims().1 as int, x, y);
            let k = grid_index(w, cx, cy);
            assert(0 <= k < prev.chars_view().len());
            if k == grid_index(w, x, y) {
                crate::renderer_state::lemma_cell_index_injective(w, cx, cy, x, y);
            }
        }
    }

    /// Writes the given cell into columns `x0..x1` of rows `y0..y1`.
    pub fn write_area(
        &mut self,
        x0: usize,
        y0: usize,
        x1: usize,
        y1: usize,
        codepoint: u32,
        fg: Rgba,
        bg: Rgba,
        attributes: u32,
    )
        requires
            old(self).wf(),
            x0 <= x1 <= old(self).dims().0,
            y0 <= y1 <= old(self).dims().1,
        ensures
            final(self).wf(),
            final(self).same_but_cells(&*old(self)),
            final(self).dims() == old(self).dims(),
            final(self).scissors_view() == old(self).scissors_view(),
            final(self).area_holds(&*old(self), x0 as int, y0 as int, x1 as int, y1 as int, codepoint, fg, bg, attributes),
    {
        let ghost o = *self;
        let w = self.width;
        let mut y: usize = y0;
        if x0 == x1 {
            assert(self.area_holds(&o, x0 as int, y0 as int, x1 as int, y1 as int, codepoint, fg, bg, attributes));
            return;
        }
        while y < y1
            invariant
                o.wf(),
                self.wf(),
                w == o.dims().0,
                x0 < x1 <= o.dims().0,
                y0 <= y <= y1 <= o.dims().1,
                self.same_but_cells(&o),
                self.dims() == o.dims(),
                self.scissors_view() == o.scissors_view(),
                forall|cx: int, cy: int|
                    0 <= cx < o.dims().0 && 0 <= cy < o.dims().1 ==> {
                        let k = #[trigger] grid_index(o.dims().0 as int, cx, cy);
                        let hit = in_area(x0 as int, y0 as int, x1 as int, y as int, cx, cy);
                        &&& self.chars_view()[k] == if hit { codepoint } else { o.chars_view()[k] }
                        &&& self.fg_view()[k] == if hit { fg } else { o.fg_view()[k] }
                        &&& self.bg_view()[k] == if hit { bg } else { o.bg_view()[k] }
                        &&& self.attrs_view()[k] == if hit { attributes } else { o.attrs_view()[k] }
                    },
            decreases y1 - y,
        {
            let mut x: usize = x0;
            while x < x1
                invariant
                    o.wf(),
                    self.wf(),
                    w == o.dims().0,
                    x0 <= x <= x1 <= o.dims().0,
                    y0 <= y < y1 <= o.dims().1,
                    self.same_but_cells(&o),
                    self.dims() == o.dims(),
                    self.scissors_view() == o.scissors_view(),
                    forall|cx: int, cy: int|
                        0 <= cx < o.dims().0 && 0 <= cy < o.dims().1 ==> {
                            let k = #[trigger] grid_index(o.dims().0 as int, cx, cy);
                            let hit = in_area(x0 as int, y0 as int, x1 as int, y as int, cx, cy) || (cy == y && x0 <= cx
                                < x);
                            &&& self.chars_view()[k] == if hit { codepoint } else { o.chars_view()[k] }
                            &&& self.fg_view()[k] == if hit { fg } else { o.fg_view()[k] }
                            &&& self.bg_view()[k] == if hit { bg } else { o.bg_view()[k] }
                            &&& self.attrs_view()[k] == if hit { attributes } else { o.attrs_view()[k] }
                        },
                decreases x1 - x,
            {
                let ghost prev = *self;
                self.write_cell(x, y, codepoint, fg, bg, attributes);
                proof {
                    self.lemma_area_step(
                        &prev,
                        &o,
                        x0 as int,
                        y0 as int,
                        x1 as int,
                        y1 as int,
                        x as int,
                        y as int,
                        codepoint,
                        fg,
                        bg,
                        attributes,
                    );
                }
                x = x + 1;
            }
            y = y + 1;
        }
        proof {
            o.lemma_wf();
            self.lemma_wf();
        }
    }

    /// The cells a filled rectangle covers: clipped to the buffer and the
    /// scissor, as column and row ranges; none for an empty rectangle or one
    /// that starts outside the buffer. The start and size are taken as
    /// `i32` and `u32`, cut to those widths.
    pub open spec fn fill_area(&self, x: usize, y: usize, width: usize, height: usize) -> Option<(int, int, int, int)> {
        if width == 0 || height == 0 || x >= self.dims().0 || y >= self.dims().1 {
            None
        } else {
            match self.clip_spec(ClipRect { x: x as i32, y: y as i32, width: width as u32, height: height as u32 }) {
                None => None,
                Some(c) => Some(
                    (
                        max0(c.x as int),
                        max0(c.y as int),
                        max0(c.x + c.width),
                        max0(c.y + c.height),
                    ),
                ),
            }
        }
    }

    pub fn fill_rect_area(&self, x: usize, y: usize, width: usize, height: usize) -> (r: Option<(usize, usize, usize, usize)>)
        requires
            self.wf(),
            !(width == 0 || height == 0 || x >= self.dims().0 || y >= self.dims().1) ==> self.clip_ok(
                ClipRect { x: x as i32, y: y as i32, width: width as u32, height: height as u32 },
            ),
        ensures
            match r {
                None => self.fill_area(x, y, width, height) is None,
                Some(t) => self.fill_area(x, y, width, height) == Some((t.0 as int, t.1 as int, t.2 as int, t.3 as int))
                    && t.0 <= t.2 <= self.dims().0 && t.1 <= t.3 <= self.dims().1,
            },
    {
        if width == 0 || height == 0 || x >= self.width || y >= self.height {
            return None;
        }
        let c = match self.clip_rect(x as i32, y as i32, width as u32, height as u32) {
            Some(c) => c,
            None => {
                return None;
            },
        };
        let ghost bounds = self.bounds();
        proof {
            let c0 = intersect_spec(ClipRect { x: x as i32, y: y as i32, width: width as u32, height: height as u32 }, bounds)->0;
            assert(0 <= c0.x && c0.x + i32_of(c0.width) <= i32_of(self.width as u32));
        }
        let x2: i64 = c.x as i64 + c.width as i64;
        let y2: i64 = c.y as i64 + c.height as i64;
        Some((c.x as usize, c.y as usize, x2 as usize, y2 as usize))
    }

    /// Fills a rectangle with spaces on `bg` (default foreground, no
    /// attributes), clipped as `fill_area` says.
    pub fn fill_rect_opaque(&mut self, x: usize, y: usize, width: usize, height: usize, bg: Rgba)
        requires
            old(self).wf(),
            !(width == 0 || height == 0 || x >= old(self).dims().0 || y >= old(self).dims().1) ==> old(self).clip_ok(
                ClipRect { x: x as i32, y: y as i32, width: width as u32, height: height as u32 },
            ),
        ensures
            final(self).wf(),
            final(self).same_but_cells(&*old(self)),
            match old(self).fill_area(x, y, width, height) {
                None => final(self).chars_view() == old(self).chars_view() && final(self).fg_view() == old(
                    self,
                ).fg_view() && final(self).bg_view() == old(self).bg_view() && final(self).attrs_view() == old(
                    self,
                ).attrs_view(),
                Some(t) => final(self).area_holds(&*old(self), t.0, t.1, t.2, t.3, DEFAULT_SPACE_CHAR, DEFAULT_FG, bg, 0),
            },
    {
        match self.fill_rect_area(x, y, width, height) {
            None => {},
            Some((x0, y0, x1, y1)) => {
                self.write_area(x0, y0, x1, y1, DEFAULT_SPACE_CHAR, DEFAULT_FG, bg, 0);
            },
        }
    }
}

/// The bytes of columns `0..n` of row `row`: each cell's bytes.
pub open spec fn row_text(chars: Seq<u32>, w: int, row: int, n: int) -> Seq<u8>
    decreases n,
{
    if n <= 0 {
        Seq::empty()
    } else {
        row_text(chars, w, row, n - 1) + cell_bytes(chars[row * w + n - 1])
    }
}

/// The bytes of the first `rows` rows, each followed by a newline when
/// asked.
pub open spec fn grid_text(chars: Seq<u32>, w: int, rows: int, line_breaks: bool) -> Seq<u8>
    decreases rows,
{
    if rows <= 0 {
        Seq::empty()
    } else {
        grid_text(chars, w, rows - 1, line_breaks) + row_text(chars, w, rows - 1, w) + if line_breaks {
            seq![10u8]
        } else {
            Seq::empty()
        }
    }
}

impl OptimizedBuffer {
    /// The text of the grid: every cell's bytes row by row (a space for an
    /// empty cell), each row followed by a newline when asked.
    pub fn write_resolved_chars_to_vec(&self, add_line_breaks: bool) -> (r: Vec<u8>)
        requires
            self.wf(),
        ensures
            r@ == grid_text(self.chars_view(), self.dims().0 as int, self.dims().1 as int, add_line_breaks),
    {
        let mut out: Vec<u8> = Vec::new();
        let w = self.width;
        let h = self.height;
        let mut row: usize = 0;
        while row < h
            invariant
                self.wf(),
                w == self.dims().0,
                h == self.dims().1,
                row <= h,
                out@ == grid_text(self.chars_view(), w as int, row as int, add_line_breaks),
            decreases h - row,
        {
            let ghost before = out@;
            let mut col: usize = 0;
            while col < w
                invariant
                    self.wf(),
                    w == self.dims().0,
                    h == self.dims().1,
                    row < h,
                    col <= w,
                    out@ == before + row_text(self.chars_view(), w as int, row as int, col as int),
                decreases w - col,
            {
                let index = self.cell_index(col, row);
                crate::draw::append_terminal_cell(&mut out, self.chars[index]);
                proof {
                    assert(before + row_text(self.chars_view(), w as int, row as int, col + 1) =~= before + row_text(
                        self.chars_view(),
                        w as int,
                        row as int,
                        col as int,
                    ) + cell_bytes(self.chars_view()[row * w + col]));
                }
                col = col + 1;
            }
            if add_line_breaks {
                out.push(10u8);
            }
            proof {
                assert(out@ =~= grid_text(self.chars_view(), w as int, row + 1, add_line_breaks));
            }
            row = row + 1;
        }
        out
    }
}

/// Whether (x, y) lies in a rectangle with both sides non-zero.
pub open spec fn in_rect(r: ClipRect, x: i32, y: i32) -> bool {
    r.width != 0 && r.height != 0 && r.x <= x < r.x + i32_of(r.width) && r.y <= y < r.y + i32_of(r.height)
}

/// Popping right after pushing gives the scissor stack back as it was.
pub proof fn lemma_scissor_pop_undoes_push(before: &OptimizedBuffer, pushed: &OptimizedBuffer, popped: &OptimizedBuffer, r: ClipRect)
    requires
        pushed.scissors_view() == before.scissors_view().push(before.pushed_scissor(r)),
        popped.scissors_view() == if pushed.scissors_view().len() == 0 {
            pushed.scissors_view()
        } else {
            pushed.scissors_view().drop_last()
        },
    ensures
        popped.scissors_view() == before.scissors_view(),
{
    assert(before.scissors_view().push(before.pushed_scissor(r)).drop_last() =~= before.scissors_view());
}

/// Popping right after pushing gives the opacity stack back as it was.
pub proof fn lemma_opacity_pop_undoes_push(before: &OptimizedBuffer, pushed: &OptimizedBuffer, popped: &OptimizedBuffer, o: u32)
    requires
        pushed.opacity_view() == before.opacity_view().push(o),
        popped.opacity_view() == if pushed.opacity_view().len() == 0 {
            pushed.opacity_view()
        } else {
            pushed.opacity_view().drop_last()
        },
    ensures
        popped.opacity_view() == before.opacity_view(),
{
    assert(before.opacity_view().push(o).drop_last() =~= before.opacity_view());
}

/// After pushing a scissor rectangle, a point is inside the scissor in
/// force exactly when it was inside before and lies in the rectangle.
pub proof fn lemma_pushed_scissor_narrows(before: &OptimizedBuffer, after: &OptimizedBuffer, r: ClipRect, x: i32, y: i32)
    requires
        before.wf(),
        rect_ok(r),
        before.top_scissor() matches Some(s) ==> intersect_ok(s, r),
        after.scissors_view() == before.scissors_view().push(before.pushed_scissor(r)),
    ensures
        after.in_scissor(x, y) == (before.in_scissor(x, y) && in_rect(r, x, y)),
{
    before.lemma_wf();
    match before.top_scissor() {
        None => {},
        Some(s) => {
            assert(rect_ok(before.scissors_view()[before.scissors_view().len() - 1]));
            match intersect_spec(s, r) {
                Some(c) => {
                    assert(i32_of(c.width) == c.width as int);
                    assert(i32_of(c.height) == c.height as int);
                },
                None => {},
            }
        },
    }
}

pub open spec fn max0(v: int) -> int {
    if v >= 0 { v } else { 0 }
}

/// A `u32` read as an `i32`, widened.
pub fn i32_of_exec(v: u32) -> (r: i64)
    ensures
        r == i32_of(v),
{
    if v < 0x8000_0000 {
        v as i64
    } else {
        v as i64 - 0x1_0000_0000i64
    }
}

proof fn lemma_index_in_grid(w: int, h: int, x: int, y: int)
    requires
        0 <= x < w,
        0 <= y < h,
    ensures
        0 <= y * w + x < w * h,
{
    assert(y * w + x < w * h) by (nonlinear_arith)
        requires
            0 <= x < w,
            0 <= y < h,
    ;
    assert(0 <= y * w) by (nonlinear_arith)
        requires
            0 <= y,
            0 <= w,
    ;
}

} // verus!
