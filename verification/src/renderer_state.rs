//! The renderer's own state: its size, the terminal, and the hit grid that
//! maps each cell to the id of what was drawn there, clipped by a stack of
//! scissor rectangles.
use crate::optimized_buffer::{OptimizedBuffer, DEFAULT_BG};
use crate::terminal_state::TerminalState;
use crate::text_buffer::Rgba;
use vstd::prelude::*;

verus! {

/// A rectangle of cells; `x + width` is computed as the `i32` sum of `x`
/// and `width` read as an `i32`.
#[derive(Clone, Copy, Debug, PartialEq, Eq, Structural)]
pub struct ClipRect {
    pub x: i32,
    pub y: i32,
    pub width: u32,
    pub height: u32,
}

#[derive(Clone, Copy, Debug, Default, PartialEq, Eq, Structural)]
pub struct DebugOverlayState {
    pub enabled: bool,
    pub corner: u8,
}

#[derive(Clone, Copy, Debug, Default, PartialEq, Eq, Structural)]
pub struct MemoryStats {
    pub heap_used: u32,
    pub heap_total: u32,
    pub array_buffers: u32,
}

/// A `u32` read as an `i32` (two's complement).
pub open spec fn i32_of(v: u32) -> int {
    if v < 0x8000_0000 { v as int } else { v - 0x1_0000_0000 }
}

pub open spec fn fits_i32(v: int) -> bool {
    i32::MIN <= v <= i32::MAX
}

/// The far edges of a rectangle fit in `i32`.
pub open spec fn rect_ok(r: ClipRect) -> bool {
    fits_i32(r.x + i32_of(r.width)) && fits_i32(r.y + i32_of(r.height))
}

pub open spec fn max_int(a: int, b: int) -> int {
    if a >= b { a } else { b }
}

pub open spec fn min_int(a: int, b: int) -> int {
    if a <= b { a } else { b }
}

/// The overlap of two rectangles, none when it is empty.
pub open spec fn intersect_spec(l: ClipRect, r: ClipRect) -> Option<ClipRect> {
    let x1 = max_int(l.x as int, r.x as int);
    let y1 = max_int(l.y as int, r.y as int);
    let x2 = min_int(l.x + i32_of(l.width), r.x + i32_of(r.width));
    let y2 = min_int(l.y + i32_of(l.height), r.y + i32_of(r.height));
    if x2 <= x1 || y2 <= y1 {
        None
    } else {
        Some(ClipRect { x: x1 as i32, y: y1 as i32, width: (x2 - x1) as u32, height: (y2 - y1) as u32 })
    }
}

/// Intersecting computes without overflow: the edges and a non-empty
/// overlap's sides fit in `i32`.
pub open spec fn intersect_ok(l: ClipRect, r: ClipRect) -> bool {
    let x1 = max_int(l.x as int, r.x as int);
    let y1 = max_int(l.y as int, r.y as int);
    let x2 = min_int(l.x + i32_of(l.width), r.x + i32_of(r.width));
    let y2 = min_int(l.y + i32_of(l.height), r.y + i32_of(r.height));
    &&& rect_ok(l)
    &&& rect_ok(r)
    &&& (x2 > x1 && y2 > y1) ==> (x2 - x1 <= i32::MAX && y2 - y1 <= i32::MAX)
}

fn edge(origin: i32, extent: u32) -> (e: i64)
    ensures
        e == origin + i32_of(extent),
{
    if extent < 0x8000_0000 {
        origin as i64 + extent as i64
    } else {
        origin as i64 + extent as i64 - 0x1_0000_0000i64
    }
}

/// The overlap of two rectangles.
pub fn intersect_rects(left: ClipRect, right: ClipRect) -> (r: Option<ClipRect>)
    requires
        intersect_ok(left, right),
    ensures
        r == intersect_spec(left, right),
        r matches Some(c) ==> rect_ok(c) && i32_of(c.width) == c.width && i32_of(c.height) == c.height,
{
    let x1: i64 = if left.x >= right.x { left.x as i64 } else { right.x as i64 };
    let y1: i64 = if left.y >= right.y { left.y as i64 } else { right.y as i64 };
    let lx2 = edge(left.x, left.width);
    let rx2 = edge(right.x, right.width);
    let ly2 = edge(left.y, left.height);
    let ry2 = edge(right.y, right.height);
    let x2: i64 = if lx2 <= rx2 { lx2 } else { rx2 };
    let y2: i64 = if ly2 <= ry2 { ly2 } else { ry2 };
    if x2 <= x1 || y2 <= y1 {
        return None;
    }
    Some(ClipRect { x: x1 as i32, y: y1 as i32, width: (x2 - x1) as u32, height: (y2 - y1) as u32 })
}

/// Whether column (or row) `g` is one that the first `n` offsets of a span
/// from `origin` reach, each offset read as an `i32`.
pub open spec fn covers_span(origin: int, n: int, g: int) -> bool {
    ||| origin <= g < origin + min_int(n, 0x8000_0000)
    ||| n > 0x8000_0000 && origin - 0x8000_0000 <= g < origin + n - 0x1_0000_0000
}

/// Every offset of a span fits in `i32` from its origin.
pub open spec fn span_ok(origin: int, extent: u32) -> bool {
    extent == 0 || (origin + min_int(extent as int, 0x8000_0000) - 1 <= i32::MAX && (extent <= 0x8000_0000 || origin >= 0))
}

pub struct RendererState {
    width: u32,
    height: u32,
    current_buffer: Box<OptimizedBuffer>,
    next_buffer: Box<OptimizedBuffer>,
    pub terminal: TerminalState,
    /// The background color, channels as `f32` bit patterns.
    pub background_color: Rgba,
    pub render_offset: u32,
    pub use_thread: bool,
    pub debug_overlay: DebugOverlayState,
    pub memory_stats: MemoryStats,
    current_hit_grid: Vec<u32>,
    hit_grid_width: u32,
    hit_grid_height: u32,
    hit_grid_dirty: bool,
    hit_grid_scissor_stack: Vec<ClipRect>,
}

/// The number of hit grid cells for a size: the product, capped at
/// `u32::MAX`.
pub open spec fn grid_cells(width: u32, height: u32) -> int {
    if width * height > u32::MAX { u32::MAX as int } else { width * height }
}

impl RendererState {
    pub closed spec fn size_view(&self) -> (u32, u32) {
        (self.width, self.height)
    }

    /// Width and height of the hit grid.
    pub closed spec fn grid_size(&self) -> (u32, u32) {
        (self.hit_grid_width, self.hit_grid_height)
    }

    /// The hit grid, row by row.
    pub closed spec fn grid_view(&self) -> Seq<u32> {
        self.current_hit_grid@
    }

    /// Background color, render offset, thread use, debug overlay and
    /// memory statistics.
    pub closed spec fn settings(&self) -> (Rgba, u32, bool, DebugOverlayState, MemoryStats) {
        (self.background_color, self.render_offset, self.use_thread, self.debug_overlay, self.memory_stats)
    }

    pub closed spec fn terminal_state(&self) -> TerminalState {
        self.terminal
    }

    /// The buffer on screen.
    pub closed spec fn current_view(&self) -> OptimizedBuffer {
        *self.current_buffer
    }

    /// The buffer being drawn.
    pub closed spec fn next_view(&self) -> OptimizedBuffer {
        *self.next_buffer
    }

    /// Both buffers are well formed.
    pub open spec fn buffers_wf(&self) -> bool {
        self.current_view().wf() && self.next_view().wf()
    }

    /// This state with another buffer being drawn.
    pub closed spec fn with_next(&self, next: OptimizedBuffer) -> Self {
        RendererState { next_buffer: Box::new(next), ..*self }
    }

    pub closed spec fn dirty_view(&self) -> bool {
        self.hit_grid_dirty
    }

    pub closed spec fn scissors_view(&self) -> Seq<ClipRect> {
        self.hit_grid_scissor_stack@
    }

    pub closed spec fn wf(&self) -> bool {
        &&& self.current_hit_grid@.len() == grid_cells(self.hit_grid_width, self.hit_grid_height)
        &&& forall|i: int| 0 <= i < self.hit_grid_scissor_stack@.len() ==> rect_ok(#[trigger] self.hit_grid_scissor_stack@[i])
    }

    /// Everything but the hit grid and its scissor stack is as in `o`.
    pub closed spec fn same_but_grid(&self, o: &Self) -> bool {
        *self == RendererState {
            current_hit_grid: self.current_hit_grid,
            hit_grid_dirty: self.hit_grid_dirty,
            hit_grid_scissor_stack: self.hit_grid_scissor_stack,
            ..*o
        }
    }

    pub proof fn lemma_wf(&self)
        requires
            self.wf(),
        ensures
            self.grid_view().len() == grid_cells(self.grid_size().0, self.grid_size().1),
            forall|i: int| 0 <= i < self.scissors_view().len() ==> rect_ok(#[trigger] self.scissors_view()[i]),
    {
    }

    /// The cell a touched (column, row) stands for, row by row.
    pub open spec fn cell_index(&self, gx: int, gy: int) -> int {
        gy * self.grid_size().0 + gx
    }

    /// The cells that a rectangle from (x, y) touches within the grid.
    pub open spec fn touches(&self, x: i32, y: i32, width: u32, height: u32, gx: int, gy: int) -> bool {
        &&& 0 <= gx < self.grid_size().0
        &&& 0 <= gy < self.grid_size().1
        &&& covers_span(x as int, width as int, gx)
        &&& covers_span(y as int, height as int, gy)
    }

    /// Marking a rectangle computes without overflow: its offsets fit in
    /// `i32` and each cell it touches has an index below `u32::MAX`.
    pub open spec fn hit_ok(&self, x: i32, y: i32, width: u32, height: u32) -> bool {
        &&& width > 0 && height > 0 ==> span_ok(x as int, width) && span_ok(y as int, height)
        &&& forall|gx: int, gy: int| #[trigger] self.touches(x, y, width, height, gx, gy) ==> self.cell_index(gx, gy) < u32::MAX
    }

    /// Cell (gx, gy) holds `id` if a rectangle touches it, else what `o`
    /// holds there.
    pub open spec fn marked_from(&self, o: &Self, x: i32, y: i32, width: u32, height: u32, id: u32) -> bool {
        &&& self.grid_view().len() == o.grid_view().len()
        &&& forall|gx: int, gy: int|
            0 <= gx < o.grid_size().0 && 0 <= gy < o.grid_size().1 && #[trigger] o.cell_index(gx, gy) < o.grid_view().len()
                ==> self.grid_view()[o.cell_index(gx, gy)] == if o.touches(x, y, width, height, gx, gy) {
                id
            } else {
                o.grid_view()[o.cell_index(gx, gy)]
            }
    }

    pub fn new(width: u32, height: u32) -> (r: Self)
        requires
            width * height <= usize::MAX,
        ensures
            r.wf(),
            r.buffers_wf(),
            r.current_view().dims() == (width as usize, height as usize) && r.current_view().blank(DEFAULT_BG),
            r.next_view().dims() == (width as usize, height as usize) && r.next_view().blank(DEFAULT_BG),
            r.size_view() == (width, height),
            r.grid_size() == (width, height),
            r.grid_view() == Seq::new(grid_cells(width, height) as nat, |i: int| 0u32),
            !r.dirty_view(),
            r.scissors_view() == Seq::<ClipRect>::empty(),
            r.settings() == ([0u32, 0, 0, 0x3f80_0000], 0u32, false, DebugOverlayState { enabled: false, corner: 0 }, MemoryStats {
                heap_used: 0,
                heap_total: 0,
                array_buffers: 0,
            }),
            r.terminal_state().model() == crate::terminal_state::initial_terminal(),
    {
        let grid = zero_grid(width, height);
        RendererState {
            width,
            height,
            current_buffer: Box::new(OptimizedBuffer::new(width as usize, height as usize, false)),
            next_buffer: Box::new(OptimizedBuffer::new(width as usize, height as usize, false)),
            terminal: TerminalState::new(),
            background_color: [0u32, 0, 0, 0x3f80_0000],
            render_offset: 0,
            use_thread: false,
            debug_overlay: DebugOverlayState { enabled: false, corner: 0 },
            memory_stats: MemoryStats { heap_used: 0, heap_total: 0, array_buffers: 0 },
            current_hit_grid: grid,
            hit_grid_width: width,
            hit_grid_height: height,
            hit_grid_dirty: false,
            hit_grid_scissor_stack: Vec::new(),
        }
    }

    /// (width, height) of the renderer.
    pub fn size(&self) -> (r: (u32, u32))
        ensures
            r == self.size_view(),
    {
        (self.width, self.height)
    }

    /// (width, height) of the hit grid.
    pub fn hit_grid_size(&self) -> (r: (u32, u32))
        ensures
            r == self.grid_size(),
    {
        (self.hit_grid_width, self.hit_grid_height)
    }

    /// Takes a new size: the hit grid is all zeros again, marked dirty, with
    /// no scissor rectangles.
    pub fn resize(&mut self, width: u32, height: u32)
        requires
            width * height <= usize::MAX,
        ensures
            final(self).wf(),
            final(self).buffers_wf(),
            final(self).current_view().dims() == (width as usize, height as usize) && final(self).current_view().blank(
                DEFAULT_BG,
            ),
            final(self).next_view().dims() == (width as usize, height as usize) && final(self).next_view().blank(DEFAULT_BG),
            final(self).size_view() == (width, height),
            final(self).grid_size() == (width, height),
            final(self).grid_view() == Seq::new(grid_cells(width, height) as nat, |i: int| 0u32),
            final(self).dirty_view(),
            final(self).scissors_view() == Seq::<ClipRect>::empty(),
            final(self).terminal_state() == old(self).terminal_state(),
            final(self).settings() == old(self).settings(),
    {
        self.width = width;
        self.height = height;
        self.current_buffer = Box::new(OptimizedBuffer::new(width as usize, height as usize, false));
        self.next_buffer = Box::new(OptimizedBuffer::new(width as usize, height as usize, false));
        self.hit_grid_width = width;
        self.hit_grid_height = height;
        self.current_hit_grid = zero_grid(width, height);
        self.hit_grid_dirty = true;
        self.hit_grid_scissor_stack.clear();
    }

    /// The buffer on screen.
    pub fn current_buffer(&self) -> (r: &OptimizedBuffer)
        ensures
            *r == self.current_view(),
    {
        &self.current_buffer
    }

    /// The buffer being drawn.
    pub fn next_buffer(&self) -> (r: &OptimizedBuffer)
        ensures
            *r == self.next_view(),
    {
        &self.next_buffer
    }

    /// The buffer being drawn, to draw into.
    pub fn next_buffer_mut(&mut self) -> (r: &mut OptimizedBuffer)
        ensures
            *r == old(self).next_view(),
            *final(self) == old(self).with_next(*final(r)),
    {
        &mut self.next_buffer
    }

    /// Puts the drawn buffer on screen: the current buffer takes the next
    /// one's size, name and cells.
    pub fn render(&mut self)
        requires
            old(self).buffers_wf(),
        ensures
            final(self).buffers_wf(),
            final(self).next_view() == old(self).next_view(),
            final(self).current_view().dims() == old(self).next_view().dims(),
            final(self).current_view().id_view() == old(self).next_view().id_view(),
            final(self).current_view().chars_view() == old(self).next_view().chars_view(),
            final(self).current_view().fg_view() == old(self).next_view().fg_view(),
            final(self).current_view().bg_view() == old(self).next_view().bg_view(),
            final(self).current_view().attrs_view() == old(self).next_view().attrs_view(),
            final(self).grid_view() == old(self).grid_view(),
            final(self).grid_size() == old(self).grid_size(),
            final(self).scissors_view() == old(self).scissors_view(),
            final(self).wf() == old(self).wf(),
    {
        self.current_buffer.copy_from(&self.next_buffer);
    }

    pub fn hit_grid_dirty(&self) -> (b: bool)
        ensures
            b == self.dirty_view(),
    {
        self.hit_grid_dirty
    }

    /// What a hit test at (x, y) answers: the id there, 0 outside the grid.
    pub open spec fn hit_at(&self, x: u32, y: u32) -> u32 {
        if x < self.grid_size().0 && y < self.grid_size().1 {
            self.grid_view()[y * self.grid_size().0 + x]
        } else {
            0
        }
    }

    /// The id at (x, y), 0 outside the grid.
    pub fn check_hit(&self, x: u32, y: u32) -> (r: u32)
        requires
            self.wf(),
            x < self.grid_size().0 && y < self.grid_size().1 ==> y * self.grid_size().0 + x < u32::MAX,
        ensures
            r == self.hit_at(x, y),
    {
        if x >= self.hit_grid_width || y >= self.hit_grid_height {
            return 0;
        }
        proof {
            assert(y * self.hit_grid_width + x < grid_cells(self.hit_grid_width, self.hit_grid_height)) by (nonlinear_arith)
                requires
                    x < self.hit_grid_width,
                    y < self.hit_grid_height,
                    y * self.hit_grid_width + x < u32::MAX;
        }
        let index = y * self.hit_grid_width + x;
        self.current_hit_grid[index as usize]
    }

    /// Sets every cell to 0 and marks the grid dirty.
    pub fn clear_current_hit_grid(&mut self)
        requires
            old(self).wf(),
        ensures
            final(self).wf(),
            final(self).grid_view() == Seq::new(old(self).grid_view().len(), |i: int| 0u32),
            final(self).dirty_view(),
            final(self).grid_size() == old(self).grid_size(),
            final(self).scissors_view() == old(self).scissors_view(),
            final(self).same_but_grid(&*old(self)),
    {
        let mut i: usize = 0;
        while i < self.current_hit_grid.len()
            invariant
                i <= self.current_hit_grid@.len(),
                self.current_hit_grid@.len() == old(self).current_hit_grid@.len(),
                forall|k: int| 0 <= k < i ==> self.current_hit_grid@[k] == 0,
                self.hit_grid_width == old(self).hit_grid_width,
                self.hit_grid_height == old(self).hit_grid_height,
                self.hit_grid_scissor_stack == old(self).hit_grid_scissor_stack,
                self.same_but_grid(&*old(self)),
            decreases self.current_hit_grid@.len() - i,
        {
            self.current_hit_grid.set(i, 0);
            i = i + 1;
        }
        self.hit_grid_dirty = true;
        proof {
            assert(self.current_hit_grid@ =~= Seq::new(old(self).grid_view().len(), |i: int| 0u32));
        }
    }

    /// Marks with `id` each cell of the grid that a rectangle from (x, y)
    /// touches, and marks the grid dirty; nothing happens for an empty
    /// rectangle.
    pub fn add_to_hit_grid(&mut self, x: i32, y: i32, width: u32, height: u32, id: u32)
        requires
            old(self).wf(),
            old(self).hit_ok(x, y, width, height),
        ensures
            final(self).wf(),
            final(self).grid_size() == old(self).grid_size(),
            final(self).scissors_view() == old(self).scissors_view(),
            final(self).same_but_grid(&*old(self)),
            final(self).marked_from(&*old(self), x, y, width, height, id),
            final(self).dirty_view() == (old(self).dirty_view() || (width > 0 && height > 0)),
    {
        if width == 0 || height == 0 {
            return;
        }
        let ghost o = *self;
        let w = self.hit_grid_width;
        let h = self.hit_grid_height;
        let mut row: u32 = 0;
        while row < height
            invariant
                o == *old(self),
                o.wf(),
                w == o.grid_size().0,
                h == o.grid_size().1,
                0 < width && 0 < height,
                row <= height,
                o.hit_ok(x, y, width, height),
                self.same_but_grid(&o),
                self.grid_size() == o.grid_size(),
                self.scissors_view() == o.scissors_view(),
                self.hit_grid_dirty == o.hit_grid_dirty,
                self.grid_view().len() == o.grid_view().len(),
                forall|gx: int, gy: int|
                    0 <= gx < w && 0 <= gy < h && #[trigger] o.cell_index(gx, gy) < o.grid_view().len()
                        ==> self.grid_view()[o.cell_index(gx, gy)] == if covers_span(x as int, width as int, gx)
                        && covers_span(y as int, row as int, gy) {
                        id
                    } else {
                        o.grid_view()[o.cell_index(gx, gy)]
                    },
            decreases height - row,
        {
            self.mark_row(x, y, width, height, row, id, Ghost(o));
            row = row + 1;
        }
        self.hit_grid_dirty = true;
        proof {
            assert forall|gx: int, gy: int|
                0 <= gx < o.grid_size().0 && 0 <= gy < o.grid_size().1 && #[trigger] o.cell_index(gx, gy) < o.grid_view().len()
                    implies self.grid_view()[o.cell_index(gx, gy)] == if o.touches(x, y, width, height, gx, gy) {
                    id
                } else {
                    o.grid_view()[o.cell_index(gx, gy)]
                } by {
            }
        }
    }

    fn mark_row(&mut self, x: i32, y: i32, width: u32, height: u32, row: u32, id: u32, Ghost(o): Ghost<Self>)
        requires
            o.wf(),
            0 < width && 0 < height,
            row < height,
            o.hit_ok(x, y, width, height),
            old(self).same_but_grid(&o),
            old(self).grid_size() == o.grid_size(),
            old(self).scissors_view() == o.scissors_view(),
            old(self).hit_grid_dirty == o.hit_grid_dirty,
            old(self).grid_view().len() == o.grid_view().len(),
            forall|gx: int, gy: int|
                0 <= gx < o.grid_size().0 && 0 <= gy < o.grid_size().1 && #[trigger] o.cell_index(gx, gy) < o.grid_view().len()
                    ==> old(self).grid_view()[o.cell_index(gx, gy)] == if covers_span(x as int, width as int, gx)
                    && covers_span(y as int, row as int, gy) {
                    id
                } else {
                    o.grid_view()[o.cell_index(gx, gy)]
                },
        ensures
            final(self).same_but_grid(&o),
            final(self).grid_size() == o.grid_size(),
            final(self).scissors_view() == o.scissors_view(),
            final(self).hit_grid_dirty == o.hit_grid_dirty,
            final(self).grid_view().len() == o.grid_view().len(),
            forall|gx: int, gy: int|
                0 <= gx < o.grid_size().0 && 0 <= gy < o.grid_size().1 && #[trigger] o.cell_index(gx, gy) < o.grid_view().len()
                    ==> final(self).grid_view()[o.cell_index(gx, gy)] == if covers_span(x as int, width as int, gx)
                    && covers_span(y as int, row + 1, gy) {
                    id
                } else {
                    o.grid_view()[o.cell_index(gx, gy)]
                },
    {
        let w = self.hit_grid_width;
        let h = self.hit_grid_height;
        let gy: i64 = if row < 0x8000_0000 { y as i64 + row as i64 } else { y as i64 + row as i64 - 0x1_0000_0000i64 };
        let mut col: u32 = 0;
        while col < width
            invariant
                o.wf(),
                w == o.grid_size().0,
                h == o.grid_size().1,
                0 < width && 0 < height,
                row < height,
                col <= width,
                gy == y + i32_of(row),
                o.hit_ok(x, y, width, height),
                self.same_but_grid(&o),
                self.grid_size() == o.grid_size(),
                self.scissors_view() == o.scissors_view(),
                self.hit_grid_dirty == o.hit_grid_dirty,
                self.grid_view().len() == o.grid_view().len(),
                forall|gx: int, gy2: int|
                    0 <= gx < w && 0 <= gy2 < h && #[trigger] o.cell_index(gx, gy2) < o.grid_view().len()
                        ==> self.grid_view()[o.cell_index(gx, gy2)] == if covers_span(x as int, width as int, gx)
                        && covers_span(y as int, row as int, gy2) || (gy2 == gy && covers_span(x as int, col as int, gx)) {
                        id
                    } else {
                        o.grid_view()[o.cell_index(gx, gy2)]
                    },
            decreases width - col,
        {
            let gx: i64 = if col < 0x8000_0000 { x as i64 + col as i64 } else { x as i64 + col as i64 - 0x1_0000_0000i64 };
            if gx >= 0 && gy >= 0 && gx < w as i64 && gy < h as i64 {
                proof {
                    assert(o.touches(x, y, width, height, gx as int, gy as int));
                    assert(o.cell_index(gx as int, gy as int) < u32::MAX);
                    assert(gy * w + gx < grid_cells(w, h)) by (nonlinear_arith)
                        requires 0 <= gx < w, 0 <= gy < h, gy * w + gx < u32::MAX;
                }
                let index: u32 = (gy as u32) * w + (gx as u32);
                let ghost before = self.grid_view();
                self.current_hit_grid.set(index as usize, id);
                proof {
                    assert forall|a: int, b: int|
                        0 <= a < w && 0 <= b < h && #[trigger] o.cell_index(a, b) < o.grid_view().len()
                            implies self.grid_view()[o.cell_index(a, b)] == if covers_span(x as int, width as int, a)
                            && covers_span(y as int, row as int, b) || (b == gy && covers_span(x as int, col + 1, a)) {
                            id
                        } else {
                            o.grid_view()[o.cell_index(a, b)]
                        } by {
                        if o.cell_index(a, b) == index {
                            lemma_cell_index_injective(w as int, a, b, gx as int, gy as int);
                        }
                    }
                }
            }
            col = col + 1;
        }
    }

    /// The rectangle of the whole grid.
    pub open spec fn bounds(&self) -> ClipRect {
        ClipRect { x: 0, y: 0, width: self.grid_size().0, height: self.grid_size().1 }
    }

    /// The top scissor rectangle, if any.
    pub open spec fn top_scissor(&self) -> Option<ClipRect> {
        if self.scissors_view().len() == 0 {
            None
        } else {
            Some(self.scissors_view().last())
        }
    }

    /// A rectangle clipped to the grid and then to the top scissor.
    pub open spec fn clip_spec(&self, r: ClipRect) -> Option<ClipRect> {
        match intersect_spec(r, self.bounds()) {
            None => None,
            Some(c) => match self.top_scissor() {
                Some(s) => intersect_spec(c, s),
                None => Some(c),
            },
        }
    }

    pub open spec fn clip_ok(&self, r: ClipRect) -> bool {
        &&& intersect_ok(r, self.bounds())
        &&& intersect_spec(r, self.bounds()) matches Some(c) ==> (self.top_scissor() matches Some(s) ==> intersect_ok(c, s))
    }

    /// After marking the cells of `r` (if any) in `o`.
    pub open spec fn marked_opt(&self, o: &Self, r: Option<ClipRect>, id: u32) -> bool {
        match r {
            None => *self == *o,
            Some(c) => {
                &&& self.wf()
                &&& self.grid_size() == o.grid_size()
                &&& self.scissors_view() == o.scissors_view()
                &&& self.same_but_grid(o)
                &&& self.marked_from(o, c.x, c.y, c.width, c.height, id)
                &&& self.dirty_view() == (o.dirty_view() || (c.width > 0 && c.height > 0))
            },
        }
    }

    fn clip_rect(&self, x: i32, y: i32, width: u32, height: u32) -> (r: Option<ClipRect>)
        requires
            self.clip_ok(ClipRect { x, y, width, height }),
        ensures
            r == self.clip_spec(ClipRect { x, y, width, height }),
    {
        let rect = ClipRect { x, y, width, height };
        let bounds = ClipRect { x: 0, y: 0, width: self.hit_grid_width, height: self.hit_grid_height };
        let clipped = match intersect_rects(rect, bounds) {
            Some(c) => c,
            None => {
                return None;
            },
        };
        let n = self.hit_grid_scissor_stack.len();
        if n == 0 {
            Some(clipped)
        } else {
            intersect_rects(clipped, self.hit_grid_scissor_stack[n - 1])
        }
    }

    /// Marks the cells of a rectangle clipped to the grid and the top
    /// scissor rectangle.
    pub fn add_to_current_hit_grid_clipped(&mut self, x: i32, y: i32, width: u32, height: u32, id: u32)
        requires
            old(self).wf(),
            old(self).clip_ok(ClipRect { x, y, width, height }),
            old(self).clip_spec(ClipRect { x, y, width, height }) matches Some(c) ==> old(self).hit_ok(c.x, c.y, c.width, c.height),
        ensures
            final(self).wf(),
            final(self).marked_opt(&*old(self), old(self).clip_spec(ClipRect { x, y, width, height }), id),
    {
        match self.clip_rect(x, y, width, height) {
            Some(rect) => self.add_to_hit_grid(rect.x, rect.y, rect.width, rect.height, id),
            None => {},
        }
    }

    /// Marks the cells of a rectangle clipped to the grid and to a given
    /// clip rectangle.
    pub fn add_to_hit_grid_with_clip(
        &mut self,
        x: i32,
        y: i32,
        width: u32,
        height: u32,
        clip_x: i32,
        clip_y: i32,
        clip_width: u32,
        clip_height: u32,
        id: u32,
    )
        requires
            old(self).wf(),
            intersect_ok(ClipRect { x, y, width, height }, old(self).bounds()),
            intersect_spec(ClipRect { x, y, width, height }, old(self).bounds()) matches Some(c) ==> intersect_ok(
                c,
                ClipRect { x: clip_x, y: clip_y, width: clip_width, height: clip_height },
            ),
            (match intersect_spec(ClipRect { x, y, width, height }, old(self).bounds()) {
                Some(c) => intersect_spec(c, ClipRect { x: clip_x, y: clip_y, width: clip_width, height: clip_height }),
                None => None,
            }) matches Some(r) ==> old(self).hit_ok(r.x, r.y, r.width, r.height),
        ensures
            final(self).wf(),
            final(self).marked_opt(
                &*old(self),
                match intersect_spec(ClipRect { x, y, width, height }, old(self).bounds()) {
                    Some(c) => intersect_spec(
                        c,
                        ClipRect { x: clip_x, y: clip_y, width: clip_width, height: clip_height },
                    ),
                    None => None,
                },
                id,
            ),
    {
        let rect = ClipRect { x, y, width, height };
        let bounds = ClipRect { x: 0, y: 0, width: self.hit_grid_width, height: self.hit_grid_height };
        let clipped_to_bounds = match intersect_rects(rect, bounds) {
            Some(c) => c,
            None => {
                return;
            },
        };
        let clip = ClipRect { x: clip_x, y: clip_y, width: clip_width, height: clip_height };
        match intersect_rects(clipped_to_bounds, clip) {
            Some(clipped) => self.add_to_hit_grid(clipped.x, clipped.y, clipped.width, clipped.height, id),
            None => {},
        }
    }

    /// Pushes a scissor rectangle: the given one clipped to the current top
    /// one, or an empty rectangle when they do not overlap.
    pub fn push_hit_grid_scissor_rect(&mut self, x: i32, y: i32, width: u32, height: u32)
        requires
            old(self).wf(),
            rect_ok(ClipRect { x, y, width, height }),
            old(self).top_scissor() matches Some(t) ==> intersect_ok(t, ClipRect { x, y, width, height }),
        ensures
            final(self).wf(),
            final(self).grid_view() == old(self).grid_view(),
            final(self).grid_size() == old(self).grid_size(),
            final(self).dirty_view() == old(self).dirty_view(),
            final(self).same_but_grid(&*old(self)),
            final(self).scissors_view() == old(self).scissors_view().push(
                match old(self).top_scissor() {
                    Some(t) => match intersect_spec(t, ClipRect { x, y, width, height }) {
                        Some(c) => c,
                        None => ClipRect { x: 0, y: 0, width: 0, height: 0 },
                    },
                    None => ClipRect { x, y, width, height },
                },
            ),
    {
        let rect = ClipRect { x, y, width, height };
        let n = self.hit_grid_scissor_stack.len();
        let next = if n > 0 {
            intersect_rects(self.hit_grid_scissor_stack[n - 1], rect)
        } else {
            Some(rect)
        };
        let pushed = match next {
            Some(c) => c,
            None => ClipRect { x: 0, y: 0, width: 0, height: 0 },
        };
        self.hit_grid_scissor_stack.push(pushed);
        proof {
            assert forall|i: int| 0 <= i < self.hit_grid_scissor_stack@.len() implies rect_ok(
                #[trigger] self.hit_grid_scissor_stack@[i],
            ) by {
                if i < n {
                    assert(self.hit_grid_scissor_stack@[i] == old(self).hit_grid_scissor_stack@[i]);
                }
            }
        }
    }

    /// Pops the top scissor rectangle, if any.
    pub fn pop_hit_grid_scissor_rect(&mut self)
        requires
            old(self).wf(),
        ensures
            final(self).wf(),
            final(self).grid_view() == old(self).grid_view(),
            final(self).grid_size() == old(self).grid_size(),
            final(self).dirty_view() == old(self).dirty_view(),
            final(self).same_but_grid(&*old(self)),
            final(self).scissors_view() == if old(self).scissors_view().len() == 0 {
                old(self).scissors_view()
            } else {
                old(self).scissors_view().drop_last()
            },
    {
        let _ = self.hit_grid_scissor_stack.pop();
        proof {
            assert forall|i: int| 0 <= i < self.hit_grid_scissor_stack@.len() implies rect_ok(
                #[trigger] self.hit_grid_scissor_stack@[i],
            ) by {
                assert(self.hit_grid_scissor_stack@[i] == old(self).hit_grid_scissor_stack@[i]);
            }
        }
    }

    pub fn clear_hit_grid_scissor_rects(&mut self)
        requires
            old(self).wf(),
        ensures
            final(self).wf(),
            final(self).grid_view() == old(self).grid_view(),
            final(self).grid_size() == old(self).grid_size(),
            final(self).dirty_view() == old(self).dirty_view(),
            final(self).same_but_grid(&*old(self)),
            final(self).scissors_view() == Seq::<ClipRect>::empty(),
    {
        self.hit_grid_scissor_stack.clear();
    }

    /// Does nothing: links live outside the renderer's state.
    pub fn clear_global_link_pool(&mut self)
        ensures
            *final(self) == *old(self),
    {
    }
}

/// A hit test after a rectangle was marked with an id answers that id at
/// every cell the rectangle touches and what it answered before elsewhere.
pub proof fn lemma_hit_after_mark(
    before: &RendererState,
    after: &RendererState,
    x: i32,
    y: i32,
    width: u32,
    height: u32,
    id: u32,
    gx: u32,
    gy: u32,
)
    requires
        before.wf(),
        after.wf(),
        after.grid_size() == before.grid_size(),
        after.marked_from(before, x, y, width, height, id),
        gx < before.grid_size().0 && gy < before.grid_size().1,
        before.cell_index(gx as int, gy as int) < u32::MAX,
    ensures
        after.hit_at(gx, gy) == if before.touches(x, y, width, height, gx as int, gy as int) {
            id
        } else {
            before.hit_at(gx, gy)
        },
{
    before.lemma_wf();
    lemma_cell_in_grid(before.grid_size().0 as int, before.grid_size().1 as int, gx as int, gy as int);
    assert(before.cell_index(gx as int, gy as int) < before.grid_view().len());
    assert(after.hit_at(gx, gy) == after.grid_view()[before.cell_index(gx as int, gy as int)]);
}

/// After clearing, every cell answers 0.
pub proof fn lemma_hit_after_clear(before: &RendererState, after: &RendererState, gx: u32, gy: u32)
    requires
        before.wf(),
        after.wf(),
        after.grid_size() == before.grid_size(),
        after.grid_view() == Seq::new(before.grid_view().len(), |i: int| 0u32),
        gx < before.grid_size().0 && gy < before.grid_size().1 ==> before.cell_index(gx as int, gy as int) < u32::MAX,
    ensures
        after.hit_at(gx, gy) == 0,
{
    before.lemma_wf();
    if gx < before.grid_size().0 && gy < before.grid_size().1 {
        lemma_cell_in_grid(before.grid_size().0 as int, before.grid_size().1 as int, gx as int, gy as int);
        assert(before.cell_index(gx as int, gy as int) < after.grid_view().len());
        assert(after.hit_at(gx, gy) == after.grid_view()[before.cell_index(gx as int, gy as int)]);
    }
}

proof fn lemma_cell_in_grid(w: int, h: int, gx: int, gy: int)
    requires
        0 <= gx < w,
        0 <= gy < h,
    ensures
        0 <= gy * w + gx < w * h,
{
    assert(gy * w + gx < w * h) by (nonlinear_arith)
        requires
            0 <= gx < w,
            0 <= gy < h,
    ;
    assert(0 <= gy * w) by (nonlinear_arith)
        requires
            0 <= gx < w,
            0 <= gy,
    ;
}

/// Popping the hit grid's scissor stack right after a push gives it back
/// as it was.
pub proof fn lemma_hit_scissor_pop_undoes_push(
    before: &RendererState,
    pushed: &RendererState,
    popped: &RendererState,
    top: ClipRect,
)
    requires
        pushed.scissors_view() == before.scissors_view().push(top),
        popped.scissors_view() == if pushed.scissors_view().len() == 0 {
            pushed.scissors_view()
        } else {
            pushed.scissors_view().drop_last()
        },
    ensures
        popped.scissors_view() == before.scissors_view(),
{
    assert(before.scissors_view().push(top).drop_last() =~= before.scissors_view());
}

/// Distinct (column, row) pairs of a grid have distinct indices.
pub proof fn lemma_cell_index_injective(w: int, a: int, b: int, c: int, d: int)
    requires
        0 <= a < w,
        0 <= c < w,
        0 <= b,
        0 <= d,
        b * w + a == d * w + c,
    ensures
        a == c && b == d,
{
    if b < d {
        assert(b * w + a < d * w + c) by (nonlinear_arith)
            requires b < d, 0 <= a < w, 0 <= c, b >= 0;
    } else if d < b {
        assert(d * w + c < b * w + a) by (nonlinear_arith)
            requires d < b, 0 <= c < w, 0 <= a, d >= 0;
    }
}

fn zero_grid(width: u32, height: u32) -> (g: Vec<u32>)
    ensures
        g@ == Seq::new(grid_cells(width, height) as nat, |i: int| 0u32),
{
    assert((width as u64) * (height as u64) <= u64::MAX) by (nonlinear_arith)
        requires width <= u32::MAX, height <= u32::MAX;
    let product: u64 = width as u64 * height as u64;
    let n: u32 = if product > u32::MAX as u64 { u32::MAX } else { product as u32 };
    let mut g: Vec<u32> = Vec::new();
    let mut i: u32 = 0;
    while i < n
        invariant
            i <= n,
            g@ == Seq::new(i as nat, |k: int| 0u32),
        decreases n - i,
    {
        g.push(0);
        proof {
            assert(g@ =~= Seq::new((i + 1) as nat, |k: int| 0u32));
        }
        i = i + 1;
    }
    g
}

} // verus!
