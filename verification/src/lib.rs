//! Native core of a terminal UI toolkit: a chunked span stream, text
//! buffers with offset arithmetic, an undoable edit buffer, wrapped views,
//! styles, terminal state and hit testing.
use vstd::prelude::*;

pub mod span_feed;
pub mod text;
pub mod text_buffer;
pub mod word;
pub mod edit_buffer;
pub mod text_buffer_view;
pub mod editor_view;
pub mod syntax_style;
pub mod terminal_state;
pub mod renderer_state;
pub mod draw;
pub mod scene_tree;
pub mod crossterm_backend;
pub mod terminal_input;
pub mod abi;
pub mod text_draw;
pub mod position_laws;
pub mod scene_laws;
pub mod scene_measure;
pub mod optimized_buffer;
pub mod wrap_laws;
pub mod word_laws;
pub mod edit_laws;

verus! {

} // verus!
