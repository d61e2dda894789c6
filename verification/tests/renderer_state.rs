use opentui_core::optimized_buffer::{DEFAULT_BG, DEFAULT_FG};
use opentui_core::renderer_state::{intersect_rects, ClipRect, RendererState};

#[test]
fn renderer_buffers_and_hit_grid_round_trip() {
    let mut renderer = RendererState::new(4, 2);
    assert_eq!(renderer.check_hit(1, 1), 0);
    renderer.add_to_hit_grid(1, 0, 2, 2, 42);
    assert_eq!(renderer.check_hit(1, 0), 42);
    assert_eq!(renderer.check_hit(2, 1), 42);
    assert!(renderer.hit_grid_dirty());
    renderer.clear_current_hit_grid();
    assert_eq!(renderer.check_hit(1, 0), 0);

    renderer.resize(8, 4);
    assert_eq!(renderer.hit_grid_size(), (8, 4));
    assert_eq!(renderer.size(), (8, 4));
}

#[test]
fn hit_grid_marks_only_the_rectangle() {
    let mut renderer = RendererState::new(4, 3);
    renderer.add_to_hit_grid(1, 1, 2, 1, 7);
    assert_eq!(renderer.check_hit(0, 1), 0);
    assert_eq!(renderer.check_hit(1, 1), 7);
    assert_eq!(renderer.check_hit(2, 1), 7);
    assert_eq!(renderer.check_hit(3, 1), 0);
    assert_eq!(renderer.check_hit(1, 0), 0);
    assert_eq!(renderer.check_hit(1, 2), 0);
}

#[test]
fn hit_grid_clips_at_the_edges_and_outside_reads_zero() {
    let mut renderer = RendererState::new(3, 2);
    renderer.add_to_hit_grid(-1, -1, 3, 3, 5);
    assert_eq!(renderer.check_hit(0, 0), 5);
    assert_eq!(renderer.check_hit(1, 1), 5);
    assert_eq!(renderer.check_hit(2, 0), 0);
    assert_eq!(renderer.check_hit(10, 10), 0);
}

#[test]
fn scissor_rectangles_limit_clipped_hits() {
    let mut renderer = RendererState::new(4, 4);
    renderer.push_hit_grid_scissor_rect(0, 0, 2, 2);
    renderer.add_to_current_hit_grid_clipped(0, 0, 4, 4, 9);
    assert_eq!(renderer.check_hit(1, 1), 9);
    assert_eq!(renderer.check_hit(2, 2), 0);
    renderer.pop_hit_grid_scissor_rect();
    renderer.add_to_current_hit_grid_clipped(3, 3, 1, 1, 4);
    assert_eq!(renderer.check_hit(3, 3), 4);
    renderer.push_hit_grid_scissor_rect(0, 0, 1, 1);
    renderer.clear_hit_grid_scissor_rects();
    renderer.add_to_current_hit_grid_clipped(2, 0, 1, 1, 6);
    assert_eq!(renderer.check_hit(2, 0), 6);
}

#[test]
fn explicit_clip_limits_hits() {
    let mut renderer = RendererState::new(4, 4);
    renderer.add_to_hit_grid_with_clip(0, 0, 4, 4, 1, 1, 2, 2, 3);
    assert_eq!(renderer.check_hit(0, 0), 0);
    assert_eq!(renderer.check_hit(1, 1), 3);
    assert_eq!(renderer.check_hit(2, 2), 3);
    assert_eq!(renderer.check_hit(3, 3), 0);
}

#[test]
fn rectangles_intersect_to_their_overlap() {
    let a = ClipRect { x: 0, y: 0, width: 4, height: 4 };
    let b = ClipRect { x: 2, y: -1, width: 5, height: 3 };
    assert_eq!(intersect_rects(a, b), Some(ClipRect { x: 2, y: 0, width: 2, height: 2 }));
    let c = ClipRect { x: 4, y: 0, width: 1, height: 1 };
    assert_eq!(intersect_rects(a, c), None);
}

#[test]
fn render_puts_the_drawn_buffer_on_screen() {
    let mut renderer = RendererState::new(4, 2);
    renderer.next_buffer_mut().write_cell(1, 1, 'H' as u32, DEFAULT_FG, DEFAULT_BG, 3);
    assert_eq!(renderer.current_buffer().chars()[5], 0);
    renderer.render();
    assert_eq!(renderer.current_buffer().chars()[5], 'H' as u32);
    assert_eq!(renderer.current_buffer().attributes()[5], 3);
    assert_eq!(renderer.next_buffer().chars()[5], 'H' as u32);
    renderer.resize(2, 2);
    assert_eq!(renderer.current_buffer().width(), 2);
    assert_eq!(renderer.next_buffer().chars().to_vec(), vec![0; 4]);
}
