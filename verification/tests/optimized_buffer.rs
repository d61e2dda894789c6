use opentui_core::draw::plan_frame_copy;
use opentui_core::optimized_buffer::{OptimizedBuffer, DEFAULT_BG, DEFAULT_FG};
use opentui_core::renderer_state::ClipRect;
use opentui_core::text_draw::plan_text;

fn bits(c: [f32; 4]) -> [u32; 4] {
    [c[0].to_bits(), c[1].to_bits(), c[2].to_bits(), c[3].to_bits()]
}

fn draw_text_opaque(buffer: &mut OptimizedBuffer, x: usize, y: usize, text: &str, fg: [u32; 4], bg: [u32; 4], attributes: u32) -> usize {
    let chars: Vec<char> = text.chars().collect();
    let (clusters, cells) = plan_text(buffer.width(), buffer.height(), x, y, &chars);
    for cell in &cells {
        let codepoint = clusters[cell.cluster][0] as u32;
        if buffer.is_point_in_scissor(cell.col as i32, cell.row as i32) {
            buffer.write_cell(cell.col, cell.row, codepoint, fg, bg, attributes);
        }
    }
    cells.len()
}

#[test]
fn clear_resets_all_grids() {
    let mut buffer = OptimizedBuffer::new(3, 2, false);
    draw_text_opaque(&mut buffer, 0, 0, "abc", bits([1.0, 0.0, 0.0, 1.0]), bits([0.0, 1.0, 0.0, 1.0]), 7);
    assert_eq!(buffer.chars()[0], 'a' as u32);
    buffer.clear();
    assert_eq!(buffer.chars().to_vec(), vec![0; 6]);
    assert_eq!(buffer.attributes().to_vec(), vec![0; 6]);
    assert_eq!(buffer.fg().to_vec(), vec![[0u32; 4]; 6]);
    assert_eq!(buffer.bg().to_vec(), vec![DEFAULT_BG; 6]);
    assert_eq!(DEFAULT_BG, bits([0.0, 0.0, 0.0, 1.0]));
}

#[test]
fn draw_text_writes_codepoints_and_styles() {
    let mut buffer = OptimizedBuffer::new(4, 2, false);
    let fg = bits([0.25, 0.5, 0.75, 1.0]);
    let bg = bits([0.1, 0.2, 0.3, 1.0]);

    let written = draw_text_opaque(&mut buffer, 1, 0, "Aé\nZ", fg, bg, 42);

    assert_eq!(written, 3);
    assert_eq!(buffer.chars()[1], 'A' as u32);
    assert_eq!(buffer.chars()[2], 'é' as u32);
    assert_eq!(buffer.attributes()[1], 42);
    assert_eq!(buffer.fg()[1], fg);
    assert_eq!(buffer.bg()[5], bg);
}

#[test]
fn draw_text_wraps_at_row_end() {
    let mut buffer = OptimizedBuffer::new(3, 2, true);
    let written = draw_text_opaque(&mut buffer, 2, 0, "abcd", bits([1.0; 4]), bits([0.0; 4]), 1);
    assert_eq!(written, 4);
    assert_eq!(buffer.chars().to_vec(), vec![0, 0, 'a' as u32, 'b' as u32, 'c' as u32, 'd' as u32]);
    assert!(buffer.respect_alpha());
}

#[test]
fn resize_and_framebuffer_copy_work() {
    let mut parent = OptimizedBuffer::with_id(2, 1, false, b"parent".to_vec());
    let mut child = OptimizedBuffer::with_id(2, 1, false, b"child".to_vec());
    draw_text_opaque(&mut child, 0, 0, "Hi", bits([1.0; 4]), DEFAULT_BG, 0);
    let region = plan_frame_copy(2, 1, parent.current_scissor_rect(), 0, 0, 2, 1, 0, 0, None, None).unwrap();
    assert_eq!((region.x0, region.y0, region.x1, region.y1), (0, 0, 1, 0));
    assert_eq!(child.chars()[child.cell_index(region.x0 as usize, region.y0 as usize)], 'H' as u32);
    assert_eq!(child.chars()[child.cell_index(region.x1 as usize, region.y1 as usize)], 'i' as u32);

    parent.resize(3, 2);
    assert_eq!(parent.width(), 3);
    assert_eq!(parent.height(), 2);
    assert_eq!(parent.id_bytes(), b"parent");
}

#[test]
fn opacity_and_scissor_stacks_round_trip() {
    let mut buffer = OptimizedBuffer::new(2, 2, false);
    assert_eq!(f32::from_bits(buffer.current_opacity_bits()), 1.0);
    buffer.push_opacity_bits(0.5f32.to_bits());
    assert_eq!(f32::from_bits(buffer.current_opacity_bits()), 0.5);
    buffer.pop_opacity();
    assert_eq!(f32::from_bits(buffer.current_opacity_bits()), 1.0);
    buffer.push_scissor_rect(0, 0, 1, 1);
    buffer.clear_scissor_rects();
    buffer.clear_opacity();
    assert_eq!(f32::from_bits(buffer.current_opacity_bits()), 1.0);
    assert_eq!(buffer.current_scissor_rect(), None);
}

#[test]
fn new_buffers_are_unnamed_and_blank() {
    let buffer = OptimizedBuffer::new(2, 3, false);
    assert_eq!(buffer.id_bytes(), b"unnamed");
    assert_eq!(buffer.chars().len(), 6);
    assert_eq!(buffer.bg()[5], DEFAULT_BG);
}

#[test]
fn nested_scissors_intersect() {
    let mut buffer = OptimizedBuffer::new(10, 10, false);
    buffer.push_scissor_rect(0, 0, 5, 5);
    buffer.push_scissor_rect(3, 3, 5, 5);
    assert_eq!(buffer.current_scissor_rect(), Some(ClipRect { x: 3, y: 3, width: 2, height: 2 }));
    assert!(buffer.is_point_in_scissor(4, 4));
    assert!(!buffer.is_point_in_scissor(5, 4));
    buffer.push_scissor_rect(8, 8, 1, 1);
    assert_eq!(buffer.current_scissor_rect(), Some(ClipRect { x: 0, y: 0, width: 0, height: 0 }));
    assert!(!buffer.is_point_in_scissor(0, 0));
    buffer.pop_scissor_rect();
    assert_eq!(buffer.clip_rect(0, 0, 10, 10), Some(ClipRect { x: 3, y: 3, width: 2, height: 2 }));
    buffer.clear_scissor_rects();
    assert_eq!(buffer.clip_rect(-2, 8, 5, 5), Some(ClipRect { x: 0, y: 8, width: 3, height: 2 }));
    assert_eq!(buffer.clip_rect(10, 0, 5, 5), None);
}

#[test]
fn opaque_fill_covers_the_clipped_rectangle() {
    let mut buffer = OptimizedBuffer::new(4, 3, false);
    let bg = bits([0.5, 0.5, 0.5, 1.0]);
    buffer.push_scissor_rect(1, 0, 2, 3);
    assert_eq!(buffer.fill_rect_area(0, 1, 4, 5), Some((1, 1, 3, 3)));
    buffer.fill_rect_opaque(0, 1, 4, 5, bg);
    let filled: Vec<bool> = buffer.bg().iter().map(|c| *c == bg).collect();
    assert_eq!(filled, vec![false, false, false, false, false, true, true, false, false, true, true, false]);
    assert_eq!(buffer.chars()[5], ' ' as u32);
    assert_eq!(buffer.fg()[5], DEFAULT_FG);
    assert_eq!(buffer.fill_rect_area(0, 0, 0, 3), None);
    assert_eq!(buffer.fill_rect_area(4, 0, 1, 1), None);
}

#[test]
fn resolved_chars_read_the_grid_row_by_row() {
    let mut buffer = OptimizedBuffer::new(3, 2, false);
    buffer.write_cell(0, 0, 'a' as u32, DEFAULT_FG, DEFAULT_BG, 0);
    buffer.write_cell(2, 0, '世' as u32, DEFAULT_FG, DEFAULT_BG, 0);
    buffer.write_cell(1, 1, 'z' as u32, DEFAULT_FG, DEFAULT_BG, 0);
    let mut expected = Vec::new();
    expected.extend_from_slice("a 世\n z \n".as_bytes());
    assert_eq!(buffer.write_resolved_chars_to_vec(true), expected);
    let mut flat = Vec::new();
    flat.extend_from_slice("a 世 z ".as_bytes());
    assert_eq!(buffer.write_resolved_chars_to_vec(false), flat);
}

#[test]
fn resize_keeps_row_major_prefix_and_clears_new_cells() {
    let mut buffer = OptimizedBuffer::new(2, 2, false);
    buffer.write_cell(1, 0, 'x' as u32, DEFAULT_FG, DEFAULT_BG, 3);
    buffer.resize(1, 2);
    assert_eq!(buffer.chars().to_vec(), vec![0, 'x' as u32]);
    buffer.resize(2, 2);
    assert_eq!(buffer.chars().to_vec(), vec![0, 'x' as u32, 0, 0]);
    assert_eq!(buffer.attributes().to_vec(), vec![0, 3, 0, 0]);
}

#[test]
fn copy_from_takes_size_name_and_cells() {
    let mut a = OptimizedBuffer::new(1, 1, false);
    let mut b = OptimizedBuffer::with_id(2, 1, true, b"b".to_vec());
    b.write_cell(1, 0, 'q' as u32, DEFAULT_FG, DEFAULT_BG, 0);
    a.copy_from(&b);
    assert_eq!(a.width(), 2);
    assert_eq!(a.id_bytes(), b"b");
    assert!(a.respect_alpha());
    assert_eq!(a.chars().to_vec(), vec![0, 'q' as u32]);
}

#[test]
fn real_char_size_counts_four_bytes_a_cell_and_a_break_a_row() {
    let buffer = OptimizedBuffer::new(3, 2, false);
    assert_eq!(buffer.real_char_size(), 26);
}
