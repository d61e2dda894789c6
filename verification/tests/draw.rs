use opentui_core::draw::{
    append_sgr, blended_cell_glyph, packed_char, packed_target,
    append_move_cursor, append_terminal_cell, attributes_with_link, get_base_attributes, get_link_id,
    intersect_clip_rects, plan_box, plan_frame_copy, plan_grid, read_u32, table_border_intersection, BorderSides,
    BoxOp, CellWrite, CopyRegion, GridDrawOptions,
};
use opentui_core::renderer_state::ClipRect;

fn cell(x: usize, y: usize, ch: u32) -> CellWrite {
    CellWrite { x, y, ch }
}

const CHARS: [u32; 11] = [100, 101, 102, 103, 104, 105, 106, 107, 108, 109, 110];

#[test]
fn attributes_keep_style_bits_and_link_id_apart() {
    let packed = attributes_with_link(0x1_05, 42);
    assert_eq!(get_base_attributes(packed), 0x05);
    assert_eq!(get_link_id(packed), 42);
    assert_eq!(get_base_attributes(0x1234_5678), 0x78);
    assert_eq!(get_link_id(0x1234_5678), 0x12_3456);
}

#[test]
fn table_border_intersection_picks_joint_chars() {
    assert_eq!(table_border_intersection(&CHARS, true, true, true, true), 110);
    assert_eq!(table_border_intersection(&CHARS, false, true, false, true), 100);
    assert_eq!(table_border_intersection(&CHARS, false, true, true, false), 101);
    assert_eq!(table_border_intersection(&CHARS, true, false, false, true), 102);
    assert_eq!(table_border_intersection(&CHARS, true, false, true, false), 103);
    assert_eq!(table_border_intersection(&CHARS, true, true, false, true), 108);
    assert_eq!(table_border_intersection(&CHARS, true, true, true, false), 109);
    assert_eq!(table_border_intersection(&CHARS, false, true, true, true), 106);
    assert_eq!(table_border_intersection(&CHARS, true, false, true, true), 107);
    assert_eq!(table_border_intersection(&CHARS, false, false, true, false), 104);
    assert_eq!(table_border_intersection(&CHARS, true, false, false, false), 105);
    assert_eq!(table_border_intersection(&CHARS, false, false, false, false), 110);
    assert_eq!(table_border_intersection(&[], true, true, true, true), '+' as u32);
    assert_eq!(table_border_intersection(&[], false, false, true, true), '-' as u32);
    assert_eq!(table_border_intersection(&[], true, true, false, false), '|' as u32);
}

#[test]
fn read_u32_is_little_endian_with_zero_past_the_end() {
    let data = [0x78u8, 0x56, 0x34, 0x12, 0xff];
    assert_eq!(read_u32(&data, 0), 0x1234_5678);
    assert_eq!(read_u32(&data, 3), 0x0000_ff12);
    assert_eq!(read_u32(&data, 10), 0);
}

#[test]
fn move_cursor_writes_one_based_position() {
    let mut out = Vec::new();
    append_move_cursor(&mut out, 12, 0);
    assert_eq!(out, b"\x1b[12;1H".to_vec());
}

#[test]
fn terminal_cells_are_utf8_or_a_space() {
    let mut out = Vec::new();
    append_terminal_cell(&mut out, 'A' as u32);
    append_terminal_cell(&mut out, 'é' as u32);
    append_terminal_cell(&mut out, 0);
    append_terminal_cell(&mut out, 0xD800);
    append_terminal_cell(&mut out, '世' as u32);
    let mut expected = Vec::new();
    expected.extend_from_slice("Aé  世".as_bytes());
    assert_eq!(out, expected);
}

#[test]
fn clip_rects_intersect() {
    let a = ClipRect { x: -2, y: 1, width: 5, height: 4 };
    let b = ClipRect { x: 0, y: 0, width: 2, height: 2 };
    assert_eq!(intersect_clip_rects(a, b), Some(ClipRect { x: 0, y: 1, width: 2, height: 1 }));
    assert_eq!(intersect_clip_rects(b, ClipRect { x: 2, y: 0, width: 1, height: 1 }), None);
}

#[test]
fn grid_with_outer_frame_draws_corners_runs_and_sides() {
    let options = GridDrawOptions { draw_inner: false, draw_outer: true };
    let plan = plan_grid(3, 3, &[0, 2], &[0, 2], &CHARS, options);
    assert_eq!(
        plan,
        vec![
            cell(0, 0, 100),
            cell(2, 0, 101),
            cell(1, 0, 104),
            cell(0, 1, 105),
            cell(2, 1, 105),
            cell(0, 2, 102),
            cell(2, 2, 103),
            cell(1, 2, 104),
        ]
    );
}

#[test]
fn grid_without_lines_or_offsets_draws_nothing() {
    let none = GridDrawOptions { draw_inner: false, draw_outer: false };
    assert!(plan_grid(3, 3, &[0, 2], &[0, 2], &CHARS, none).is_empty());
    let outer = GridDrawOptions { draw_inner: false, draw_outer: true };
    assert!(plan_grid(3, 3, &[0], &[0, 2], &CHARS, outer).is_empty());
}

#[test]
fn grid_inner_lines_use_joint_chars() {
    let options = GridDrawOptions { draw_inner: true, draw_outer: true };
    let plan = plan_grid(5, 3, &[0, 2, 4], &[0, 2], &[], options);
    assert_eq!(plan[0], cell(0, 0, '+' as u32));
    assert_eq!(plan[1], cell(2, 0, '+' as u32));
    assert_eq!(plan[2], cell(4, 0, '+' as u32));
    assert_eq!(plan[3], cell(1, 0, '-' as u32));
    assert_eq!(plan[4], cell(3, 0, '-' as u32));
    assert_eq!(plan[5], cell(0, 1, '|' as u32));
    assert_eq!(plan[6], cell(2, 1, '|' as u32));
    assert_eq!(plan[7], cell(4, 1, '|' as u32));
    assert_eq!(plan.len(), 13);
}

#[test]
fn box_with_title_draws_frame_and_places_title() {
    let sides = BorderSides { top: true, right: true, bottom: true, left: true };
    let title = ['a', 'b'];
    let plan = plan_box(8, 3, None, 0, 0, 8, 3, &CHARS[..6], sides, false, Some(&title[..]), 0);
    let mut expected = Vec::new();
    expected.push(BoxOp::Cell(cell(0, 0, 100)));
    for x in 1..7 {
        expected.push(BoxOp::Cell(cell(x, 0, 104)));
    }
    expected.push(BoxOp::Cell(cell(7, 0, 101)));
    expected.push(BoxOp::Cell(cell(0, 2, 102)));
    for x in 1..7 {
        expected.push(BoxOp::Cell(cell(x, 2, 104)));
    }
    expected.push(BoxOp::Cell(cell(7, 2, 103)));
    expected.push(BoxOp::Cell(cell(0, 1, 105)));
    expected.push(BoxOp::Cell(cell(7, 1, 105)));
    expected.push(BoxOp::Title { x: 2, y: 0 });
    assert_eq!(plan, expected);
}

#[test]
fn box_titles_align_center_and_right() {
    let sides = BorderSides { top: true, right: true, bottom: true, left: true };
    let title = ['a', 'b'];
    let center = plan_box(10, 3, None, 0, 0, 10, 3, &[], sides, false, Some(&title[..]), 1);
    assert_eq!(center.last(), Some(&BoxOp::Title { x: 4, y: 0 }));
    let right = plan_box(10, 3, None, 0, 0, 10, 3, &[], sides, false, Some(&title[..]), 2);
    assert_eq!(right.last(), Some(&BoxOp::Title { x: 6, y: 0 }));
    let narrow = plan_box(5, 3, None, 0, 0, 5, 3, &[], sides, false, Some(&title[..]), 0);
    assert!(!narrow.iter().any(|op| matches!(op, BoxOp::Title { .. })));
}

#[test]
fn filled_box_without_sides_fills_its_clipped_area() {
    let sides = BorderSides { top: false, right: false, bottom: false, left: false };
    let plan = plan_box(4, 4, None, -1, 1, 3, 5, &[], sides, true, None, 0);
    assert_eq!(plan, vec![BoxOp::Fill { x: 0, y: 1, width: 2, height: 3 }]);
    let scissor = Some(ClipRect { x: 1, y: 0, width: 10, height: 2 });
    let clipped = plan_box(4, 4, scissor, 0, 0, 4, 4, &[], sides, true, None, 0);
    assert_eq!(clipped, vec![BoxOp::Fill { x: 1, y: 0, width: 3, height: 2 }]);
}

#[test]
fn filled_box_with_sides_fills_inside_the_border() {
    let sides = BorderSides { top: true, right: true, bottom: true, left: true };
    let plan = plan_box(5, 4, None, 0, 0, 5, 4, &[], sides, true, None, 0);
    assert_eq!(plan[0], BoxOp::Fill { x: 1, y: 1, width: 3, height: 2 });
}

#[test]
fn box_outside_the_buffer_draws_nothing() {
    let sides = BorderSides { top: true, right: true, bottom: true, left: true };
    assert!(plan_box(4, 4, None, 5, 5, 2, 2, &[], sides, true, None, 0).is_empty());
    assert!(plan_box(4, 4, None, 0, 0, 0, 2, &[], sides, true, None, 0).is_empty());
}

#[test]
fn frame_copy_of_a_whole_buffer() {
    let region = plan_frame_copy(2, 1, None, 0, 0, 2, 1, 0, 0, None, None);
    assert_eq!(region, Some(CopyRegion { x0: 0, y0: 0, x1: 1, y1: 0 }));
}

#[test]
fn frame_copy_clips_to_destination_and_source() {
    let region = plan_frame_copy(4, 4, None, -1, 2, 3, 3, 0, 0, None, None);
    assert_eq!(region, Some(CopyRegion { x0: 0, y0: 2, x1: 1, y1: 3 }));
    let region = plan_frame_copy(10, 10, None, 1, 1, 4, 4, 2, 1, Some(10), Some(1));
    assert_eq!(region, Some(CopyRegion { x0: 1, y0: 1, x1: 2, y1: 1 }));
    let scissor = Some(ClipRect { x: 0, y: 0, width: 2, height: 2 });
    let region = plan_frame_copy(10, 10, scissor, 1, 1, 4, 4, 0, 0, None, None);
    assert_eq!(region, Some(CopyRegion { x0: 1, y0: 1, x1: 1, y1: 1 }));
}

#[test]
fn frame_copy_of_nothing_is_none() {
    assert_eq!(plan_frame_copy(4, 4, None, 0, 0, 2, 2, 2, 0, None, None), None);
    assert_eq!(plan_frame_copy(4, 4, None, 0, 0, 2, 2, 0, 0, Some(0), None), None);
    assert_eq!(plan_frame_copy(4, 4, None, 4, 0, 2, 2, 0, 0, None, None), None);
    assert_eq!(plan_frame_copy(0, 4, None, 0, 0, 2, 2, 0, 0, None, None), None);
    let scissor = Some(ClipRect { x: 3, y: 3, width: 1, height: 1 });
    assert_eq!(plan_frame_copy(4, 4, scissor, 0, 0, 2, 2, 0, 0, None, None), None);
}

#[test]
fn sgr_lists_reset_attributes_then_colors() {
    let mut out = Vec::new();
    append_sgr(&mut out, [255, 0, 7], [1, 22, 133], 0b0110_0001);
    assert_eq!(out, b"\x1b[0;1;7;8;38;2;255;0;7;48;2;1;22;133m".to_vec());
    out.clear();
    append_sgr(&mut out, [0, 0, 0], [0, 0, 0], 0);
    assert_eq!(out, b"\x1b[0;38;2;0;0;0;48;2;0;0;0m".to_vec());
}

#[test]
fn packed_cells_map_chars_and_positions() {
    assert_eq!(packed_char(0), ' ' as u32);
    assert_eq!(packed_char(0x110000), ' ' as u32);
    assert_eq!(packed_char(7), 0x2588);
    assert_eq!(packed_char(200), 0x2588);
    assert_eq!(packed_char('A' as u32), 'A' as u32);
    assert_eq!(packed_char(0x2580), 0x2580);
    assert_eq!(packed_target(5, 0, 0, 4, 4, 10, 10), Some((1, 1)));
    assert_eq!(packed_target(5, 3, 0, 4, 4, 10, 10), None);
    assert_eq!(packed_target(5, 0, 0, 4, 4, 1, 10), None);
}

#[test]
fn translucent_space_keeps_the_char_below_and_takes_the_new_link() {
    assert_eq!(blended_cell_glyph(32, 'x' as u32, 0x0102_03, 0x0405_06), ('x' as u32, 0x0102_06, true));
    assert_eq!(blended_cell_glyph('y' as u32, 'x' as u32, 0x0102_03, 0x0405_06), ('y' as u32, 0x0102_03, false));
    assert_eq!(blended_cell_glyph(32, 0, 7, 9), (32, 7, false));
    assert_eq!(blended_cell_glyph(32, 32, 7, 9), (32, 7, false));
}
