use opentui_core::scene_measure::{count_digits, line_number_size, text_view_size};

#[test]
fn digits_are_counted() {
    assert_eq!(count_digits(0), 1);
    assert_eq!(count_digits(9), 1);
    assert_eq!(count_digits(10), 2);
    assert_eq!(count_digits(12345), 5);
    assert_eq!(count_digits(u64::MAX), 20);
}

#[test]
fn text_view_size_is_at_least_one_and_clamps_only_when_asked() {
    assert_eq!(text_view_size(0, 0, 10, 10, false, false), (1, 1));
    assert_eq!(text_view_size(30, 5, 10, 3, false, true), (30, 5));
    assert_eq!(text_view_size(30, 5, 10, 3, true, false), (30, 5));
    assert_eq!(text_view_size(30, 5, 10, 3, true, true), (10, 3));
}

#[test]
fn gutter_width_counts_digits_padding_and_extras() {
    assert_eq!(line_number_size(120, 0, 0, 1, 0, 0, 0, 0), (5, 120));
    assert_eq!(line_number_size(5, 0, 6, 1, 0, 0, 0, 0), (6, 5));
    assert_eq!(line_number_size(0, 0, 0, 0, 0, 0, 2, 3), (7, 1));
    assert_eq!(line_number_size(10, 20, 0, 0, -25, 0, 0, 0), (2, 10));
    assert_eq!(line_number_size(3, 0, 0, 0, 0, 1000, 0, 0), (5, 3));
    assert_eq!(line_number_size(9, 0, 0, 0, 1, 0, 0, 0), (3, 9));
}
