use opentui_core::text_draw::{plan_text, TextCell};

fn chars(s: &str) -> Vec<char> {
    s.chars().collect()
}

#[test]
fn text_places_clusters_and_breaks_lines() {
    let (clusters, cells) = plan_text(4, 2, 1, 0, &chars("Aé\nZ"));
    assert_eq!(cells.len(), 3);
    assert_eq!(cells[0], TextCell { col: 1, row: 0, cluster: 0, width: 1 });
    assert_eq!(clusters[cells[0].cluster], vec!['A']);
    assert_eq!(cells[1], TextCell { col: 2, row: 0, cluster: 1, width: 1 });
    assert_eq!(clusters[cells[1].cluster], vec!['é']);
    assert_eq!(cells[2], TextCell { col: 1, row: 1, cluster: 3, width: 1 });
    assert_eq!(clusters[cells[2].cluster], vec!['Z']);
}

#[test]
fn text_wraps_to_the_next_row() {
    let (_, cells) = plan_text(3, 2, 2, 0, &chars("abcd"));
    let places: Vec<(usize, usize)> = cells.iter().map(|c| (c.col, c.row)).collect();
    assert_eq!(places, vec![(2, 0), (0, 1), (1, 1), (2, 1)]);
}

#[test]
fn text_stops_below_the_last_row() {
    let (_, cells) = plan_text(2, 1, 0, 0, &chars("abcde"));
    assert_eq!(cells.len(), 2);
    let (_, cells) = plan_text(5, 1, 0, 0, &chars("a\nb"));
    assert_eq!(cells.len(), 1);
}

#[test]
fn wide_clusters_take_two_columns() {
    let (_, cells) = plan_text(5, 2, 0, 0, &chars("世界x"));
    assert_eq!(cells[0], TextCell { col: 0, row: 0, cluster: 0, width: 2 });
    assert_eq!(cells[1], TextCell { col: 2, row: 0, cluster: 1, width: 2 });
    assert_eq!(cells[2], TextCell { col: 4, row: 0, cluster: 2, width: 1 });
}

#[test]
fn text_outside_the_buffer_or_empty_draws_nothing() {
    assert!(plan_text(3, 3, 3, 0, &chars("a")).1.is_empty());
    assert!(plan_text(3, 3, 0, 3, &chars("a")).1.is_empty());
    assert!(plan_text(3, 3, 0, 0, &[]).1.is_empty());
}
