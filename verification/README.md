# opentui_core

The native core of a terminal UI toolkit, written in Verus: each module's
behaviour is stated in `requires`/`ensures` contracts over mathematical
models and proved.

`src/` is the verified library:

- `span_feed` — a chunked byte stream handing out spans of committed bytes;
  what is drained is what was written, in order.
- `text`, `text_buffer`, `word`, `position_laws` — text as chars with weight
  and width arithmetic, offset/position conversion (and its round trips),
  word and wrap boundaries.
- `edit_buffer`, `text_buffer_view`, `editor_view` — an undoable edit
  buffer, wrapped views with selections, and an editor view over both.
- `syntax_style`, `terminal_state`, `crossterm_backend`, `terminal_input`,
  `abi` — styles, terminal state and control sequences.
- `optimized_buffer`, `draw`, `text_draw`, `renderer_state` — the cell grid,
  scissor stacks, the placement of boxes, grids, text and frame copies, and
  the hit grid.
- `scene_tree`, `scene_laws`, `scene_measure` — the scene graph's structure,
  the invariant every operation keeps, and measured sizes.

Colours are held as `f32` bit patterns in the library; blending and other
floating-point work, the layout engine, threads, files and the C ABI live in
`app/`.
