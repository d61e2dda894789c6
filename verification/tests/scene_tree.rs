use opentui_core::scene_tree::{LayoutAction, SceneTree};

#[test]
fn appended_child_is_counted_and_destroyed_with_its_parent() {
    let mut tree = SceneTree::new();
    let mut actions = Vec::new();
    let root = tree.create_node();
    let child = tree.create_node();
    assert!(tree.append_child(root, child, &mut actions));
    assert_eq!(tree.child_count(root), 1);
    assert!(tree.destroy_node(child, &mut actions));
    assert!(tree.destroy_node(root, &mut actions));
    assert!(!tree.has_node(root));
}

#[test]
fn appended_children_are_inserted_in_order() {
    let mut tree = SceneTree::new();
    let mut actions = Vec::new();
    let root = tree.create_node();
    let first = tree.create_node();
    let second = tree.create_node();
    assert!(tree.append_child(root, first, &mut actions));
    assert!(tree.append_child(root, second, &mut actions));
    assert_eq!(tree.child_count(root), 2);
    assert_eq!(
        actions,
        vec![
            LayoutAction::InsertChild { parent: root, child: first, index: 0 },
            LayoutAction::InsertChild { parent: root, child: second, index: 1 },
        ]
    );
    assert!(tree.destroy_node(second, &mut actions));
    assert!(tree.destroy_node(first, &mut actions));
    assert!(tree.destroy_node(root, &mut actions));
}

#[test]
fn nodes_get_fresh_ids() {
    let mut tree = SceneTree::new();
    let a = tree.create_node();
    let b = tree.create_node();
    assert_ne!(a, b);
    assert!(tree.has_node(a));
    assert!(tree.has_node(b));
    assert_eq!(tree.child_count(a), 0);
    assert_eq!(tree.child_count(12345), 0);
}

#[test]
fn insert_before_places_child_at_anchor() {
    let mut tree = SceneTree::new();
    let mut actions = Vec::new();
    let root = tree.create_node();
    let a = tree.create_node();
    let b = tree.create_node();
    assert!(tree.append_child(root, a, &mut actions));
    actions.clear();
    assert!(tree.insert_before(root, b, a, &mut actions));
    assert_eq!(actions, vec![LayoutAction::InsertChild { parent: root, child: b, index: 0 }]);
    assert_eq!(tree.child_count(root), 2);
    let stranger = tree.create_node();
    assert!(!tree.insert_before(root, stranger, 9999, &mut actions));
}

#[test]
fn moving_a_child_removes_it_from_its_old_parent() {
    let mut tree = SceneTree::new();
    let mut actions = Vec::new();
    let p1 = tree.create_node();
    let p2 = tree.create_node();
    let c = tree.create_node();
    assert!(tree.append_child(p1, c, &mut actions));
    actions.clear();
    assert!(tree.append_child(p2, c, &mut actions));
    assert_eq!(
        actions,
        vec![
            LayoutAction::RemoveChild { parent: p1, child: c },
            LayoutAction::InsertChild { parent: p2, child: c, index: 0 },
        ]
    );
    assert_eq!(tree.child_count(p1), 0);
    assert_eq!(tree.child_count(p2), 1);
}

#[test]
fn insert_child_refuses_self_and_unknown_nodes() {
    let mut tree = SceneTree::new();
    let mut actions = Vec::new();
    let a = tree.create_node();
    assert!(!tree.insert_child(a, a, 0, &mut actions));
    assert!(!tree.insert_child(a, 777, 0, &mut actions));
    assert!(!tree.append_child(777, a, &mut actions));
    assert!(actions.is_empty());
}

#[test]
fn remove_child_only_removes_a_present_child() {
    let mut tree = SceneTree::new();
    let mut actions = Vec::new();
    let p = tree.create_node();
    let c = tree.create_node();
    assert!(!tree.remove_child(p, c, &mut actions));
    assert!(tree.append_child(p, c, &mut actions));
    actions.clear();
    assert!(tree.remove_child(p, c, &mut actions));
    assert_eq!(actions, vec![LayoutAction::RemoveChild { parent: p, child: c }]);
    assert_eq!(tree.child_count(p), 0);
}

#[test]
fn measured_nodes_take_no_children() {
    let mut tree = SceneTree::new();
    let mut actions = Vec::new();
    let leaf = tree.create_node();
    let other = tree.create_node();
    assert!(tree.set_measure(leaf, true, &mut actions));
    assert_eq!(actions, vec![LayoutAction::MarkDirty { node: leaf }]);
    assert!(!tree.append_child(leaf, other, &mut actions));
    assert!(!tree.set_measure(other, false, &mut actions));
    let parent = tree.create_node();
    assert!(tree.append_child(parent, other, &mut actions));
    assert!(!tree.set_measure(parent, true, &mut actions));
}

#[test]
fn destroying_a_node_detaches_it_and_orphans_its_children() {
    let mut tree = SceneTree::new();
    let mut actions = Vec::new();
    let root = tree.create_node();
    let mid = tree.create_node();
    let leaf = tree.create_node();
    assert!(tree.append_child(root, mid, &mut actions));
    assert!(tree.append_child(mid, leaf, &mut actions));
    actions.clear();
    assert!(tree.destroy_node(mid, &mut actions));
    assert_eq!(actions, vec![LayoutAction::RemoveChild { parent: root, child: mid }]);
    assert_eq!(tree.child_count(root), 0);
    assert!(tree.has_node(leaf));
    assert!(!tree.destroy_node(mid, &mut actions));
    let other = tree.create_node();
    actions.clear();
    assert!(tree.append_child(other, leaf, &mut actions));
    assert_eq!(actions, vec![LayoutAction::InsertChild { parent: other, child: leaf, index: 0 }]);
}
