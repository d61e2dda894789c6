//! The scene graph's links stay consistent: every child names its parent,
//! every parent lists each of its children once, no node is its own
//! parent, and a measuring node has no children. Each operation keeps this.
use crate::scene_tree::{clear_parents, destroy_spec, index_of, insert_child_spec, lemma_index_of, remove_child_spec, NodeView};
use vstd::prelude::*;

verus! {

/// The `i`-th child of `p` exists and names `p` as its parent.
pub open spec fn child_ok(m: Map<u64, NodeView>, p: u64, i: int) -> bool {
    m.contains_key(m[p].children[i]) && m[m[p].children[i]].parent == Some(p)
}

/// The parent of `c`, if any, exists and lists `c`.
pub open spec fn parent_ok(m: Map<u64, NodeView>, c: u64) -> bool {
    match m[c].parent {
        Some(q) => m.contains_key(q) && m[q].children.contains(c),
        None => true,
    }
}

/// `p` lists no child twice, is not its own parent, and has no children
/// if it measures its own content.
pub open spec fn node_ok(m: Map<u64, NodeView>, p: u64) -> bool {
    &&& m[p].children.no_duplicates()
    &&& m[p].parent != Some(p)
    &&& m[p].measured ==> m[p].children.len() == 0
}

pub open spec fn links_consistent(m: Map<u64, NodeView>) -> bool {
    &&& forall|p: u64, i: int| m.contains_key(p) && 0 <= i < m[p].children.len() ==> #[trigger] child_ok(m, p, i)
    &&& forall|c: u64| m.contains_key(c) ==> #[trigger] parent_ok(m, c)
    &&& forall|p: u64| m.contains_key(p) ==> #[trigger] node_ok(m, p)
}

/// In consistent links a node is listed only by its parent.
proof fn lemma_listed_only_by_parent(m: Map<u64, NodeView>, q: u64, c: u64)
    requires
        links_consistent(m),
        m.contains_key(q),
        m[q].children.contains(c),
    ensures
        m.contains_key(c) && m[c].parent == Some(q),
{
    let i = choose|i: int| 0 <= i < m[q].children.len() && m[q].children[i] == c;
    assert(child_ok(m, q, i));
}

/// The empty graph is consistent.
pub proof fn lemma_empty_consistent()
    ensures
        links_consistent(Map::<u64, NodeView>::empty()),
{
}

/// Creating a node under a fresh id keeps the links consistent.
pub proof fn lemma_create_keeps_links(m: Map<u64, NodeView>, id: u64)
    requires
        links_consistent(m),
        !m.contains_key(id),
    ensures
        links_consistent(m.insert(id, NodeView { parent: None, children: Seq::empty(), measured: false })),
{
    let n = m.insert(id, NodeView { parent: None, children: Seq::empty(), measured: false });
    assert forall|p: u64, i: int| n.contains_key(p) && 0 <= i < n[p].children.len() implies #[trigger] child_ok(n, p, i) by {
        assert(p != id);
        assert(child_ok(m, p, i));
    }
    assert forall|c: u64| n.contains_key(c) implies #[trigger] parent_ok(n, c) by {
        if c != id {
            assert(parent_ok(m, c));
        }
    }
    assert forall|p: u64| n.contains_key(p) implies #[trigger] node_ok(n, p) by {
        if p != id {
            assert(node_ok(m, p));
        }
    }
}

/// Removing a child keeps the links consistent, and a successfully removed
/// child is then listed by no node.
pub proof fn lemma_remove_keeps_links(m: Map<u64, NodeView>, parent: u64, child: u64)
    requires
        links_consistent(m),
    ensures
        links_consistent(remove_child_spec(m, parent, child).1),
        remove_child_spec(m, parent, child).1.dom() == m.dom(),
        forall|k: u64| #[trigger] remove_child_spec(m, parent, child).1.contains_key(k) ==> remove_child_spec(
            m,
            parent,
            child,
        ).1[k].measured == m[k].measured,
        remove_child_spec(m, parent, child).0 ==> forall|q: u64|
            #[trigger] remove_child_spec(m, parent, child).1.contains_key(q) ==> !remove_child_spec(
                m,
                parent,
                child,
            ).1[q].children.contains(child),
{
    let r = remove_child_spec(m, parent, child);
    if !r.0 {
        return;
    }
    let old_kids = m[parent].children;
    let idx = index_of(old_kids, child, 0);
    lemma_index_of(old_kids, child, 0);
    assert(child_ok(m, parent, idx));
    assert(node_ok(m, parent));
    let new_kids = old_kids.remove(idx);
    let n = r.1;
    assert(n.dom() =~= m.dom());
    assert(n[parent].children == new_kids);
    assert(forall|j: int| 0 <= j < new_kids.len() ==> new_kids[j] != child) by {
        assert forall|j: int| 0 <= j < new_kids.len() implies new_kids[j] != child by {
            if j < idx {
                assert(old_kids[j] != old_kids[idx]);
            } else {
                assert(new_kids[j] == old_kids[j + 1]);
                assert(old_kids[j + 1] != old_kids[idx]);
            }
        }
    }
    assert forall|p: u64, i: int| n.contains_key(p) && 0 <= i < n[p].children.len() implies #[trigger] child_ok(n, p, i) by {
        if p == parent {
            let j = if i < idx { i } else { i + 1 };
            assert(new_kids[i] == old_kids[j]);
            assert(child_ok(m, parent, j));
        } else {
            assert(child_ok(m, p, i));
            if m[p].children[i] == child {
                assert(m[child].parent == Some(p));
            }
        }
    }
    assert forall|c: u64| n.contains_key(c) implies #[trigger] parent_ok(n, c) by {
        assert(parent_ok(m, c));
        if c != child {
            match m[c].parent {
                Some(q) => {
                    if q == parent {
                        let j = choose|j: int| 0 <= j < old_kids.len() && old_kids[j] == c;
                        assert(j != idx);
                        let k = if j < idx { j } else { j - 1 };
                        assert(new_kids[k] == c);
                    }
                },
                None => {},
            }
        }
    }
    assert forall|p: u64| n.contains_key(p) implies #[trigger] node_ok(n, p) by {
        assert(node_ok(m, p));
        if p == parent {
            assert forall|a: int, b: int| 0 <= a < new_kids.len() && 0 <= b < new_kids.len() && a != b implies new_kids[a]
                != new_kids[b] by {
                let a2 = if a < idx { a } else { a + 1 };
                let b2 = if b < idx { b } else { b + 1 };
                assert(new_kids[a] == old_kids[a2] && new_kids[b] == old_kids[b2]);
            }
        }
    }
    assert forall|q: u64| #[trigger] n.contains_key(q) implies !n[q].children.contains(child) by {
        if q != parent && n[q].children.contains(child) {
            lemma_listed_only_by_parent(m, q, child);
        }
    }
}

/// Inserting a child keeps the links consistent.
pub proof fn lemma_insert_keeps_links(m: Map<u64, NodeView>, parent: u64, child: u64, index: int)
    requires
        links_consistent(m),
        index >= 0,
    ensures
        links_consistent(insert_child_spec(m, parent, child, index).1),
{
    if parent == child || (m.contains_key(parent) && m[parent].measured) {
        return;
    }
    let m1 = if m.contains_key(child) && m[child].parent is Some {
        let q = m[child].parent->0;
        lemma_remove_keeps_links(m, q, child);
        assert(parent_ok(m, child));
        lemma_index_of(m[q].children, child, 0);
        if index_of(m[q].children, child, 0) < 0 {
            let j = choose|j: int| 0 <= j < m[q].children.len() && m[q].children[j] == child;
            lemma_index_of_finds(m[q].children, child, 0, j);
        }
        remove_child_spec(m, q, child).1
    } else {
        m
    };
    assert(links_consistent(m1));
    if !m1.contains_key(parent) || !m1.contains_key(child) {
        return;
    }
    // the child is listed by no node of m1
    assert forall|q: u64| #[trigger] m1.contains_key(q) implies !m1[q].children.contains(child) by {
        if m1[q].children.contains(child) {
            lemma_listed_only_by_parent(m1, q, child);
            if !(m.contains_key(child) && m[child].parent is Some) {
                assert(m1[child].parent is None);
            }
        }
    }
    assert(m1[parent].measured == m[parent].measured);
    let n0 = m1[parent].children.len() as int;
    let idx = if index <= n0 { index } else { n0 };
    let old_kids = m1[parent].children;
    let new_kids = old_kids.insert(idx, child);
    let m2 = m1.insert(parent, NodeView { children: new_kids, ..m1[parent] });
    let m3 = m2.insert(child, NodeView { parent: Some(parent), ..m2[child] });
    assert(insert_child_spec(m, parent, child, index).1 == m3);
    assert(node_ok(m1, parent));
    assert(m3[parent].children == new_kids);
    assert forall|p: u64, i: int| m3.contains_key(p) && 0 <= i < m3[p].children.len() implies #[trigger] child_ok(m3, p, i) by {
        if p == parent {
            if i != idx {
                let j = if i < idx { i } else { i - 1 };
                assert(new_kids[i] == old_kids[j]);
                assert(child_ok(m1, parent, j));
                assert(old_kids[j] != child);
            }
        } else {
            assert(m3[p].children == m1[p].children);
            assert(child_ok(m1, p, i));
            assert(m1[p].children[i] != child);
        }
    }
    assert forall|c: u64| m3.contains_key(c) implies #[trigger] parent_ok(m3, c) by {
        if c == child {
            assert(new_kids[idx] == child);
        } else {
            assert(parent_ok(m1, c));
            assert(m3[c].parent == m1[c].parent);
            match m1[c].parent {
                Some(q) => {
                    if q == parent {
                        let j = choose|j: int| 0 <= j < old_kids.len() && old_kids[j] == c;
                        let k = if j < idx { j } else { j + 1 };
                        assert(new_kids[k] == c);
                    }
                },
                None => {},
            }
        }
    }
    assert forall|p: u64| m3.contains_key(p) implies #[trigger] node_ok(m3, p) by {
        assert(node_ok(m1, p));
        if p == parent {
            assert forall|a: int, b: int| 0 <= a < new_kids.len() && 0 <= b < new_kids.len() && a != b implies new_kids[a]
                != new_kids[b] by {
                if a != idx && b != idx {
                    let a2 = if a < idx { a } else { a - 1 };
                    let b2 = if b < idx { b } else { b - 1 };
                    assert(new_kids[a] == old_kids[a2] && new_kids[b] == old_kids[b2]);
                } else if a == idx {
                    let b2 = if b < idx { b } else { b - 1 };
                    assert(new_kids[b] == old_kids[b2]);
                } else {
                    let a2 = if a < idx { a } else { a - 1 };
                    assert(new_kids[a] == old_kids[a2]);
                }
            }
        }
    }
}

proof fn lemma_index_of_finds(s: Seq<u64>, v: u64, i: int, j: int)
    requires
        0 <= i <= j < s.len(),
        s[j] == v,
    ensures
        index_of(s, v, i) >= 0,
    decreases j - i,
{
    if s[i] != v {
        lemma_index_of_finds(s, v, i + 1, j);
    }
}

/// Marking a node that has no children as measuring keeps the links
/// consistent.
pub proof fn lemma_measure_keeps_links(m: Map<u64, NodeView>, id: u64)
    requires
        links_consistent(m),
        m.contains_key(id),
        m[id].children.len() == 0,
    ensures
        links_consistent(m.insert(id, NodeView { measured: true, ..m[id] })),
{
    let n = m.insert(id, NodeView { measured: true, ..m[id] });
    assert forall|p: u64, i: int| n.contains_key(p) && 0 <= i < n[p].children.len() implies #[trigger] child_ok(n, p, i) by {
        assert(child_ok(m, p, i));
    }
    assert forall|c: u64| n.contains_key(c) implies #[trigger] parent_ok(n, c) by {
        assert(parent_ok(m, c));
    }
    assert forall|p: u64| n.contains_key(p) implies #[trigger] node_ok(n, p) by {
        assert(node_ok(m, p));
    }
}

proof fn lemma_clear_parents(m: Map<u64, NodeView>, kids: Seq<u64>, k: int)
    requires
        0 <= k <= kids.len(),
    ensures
        clear_parents(m, kids, k).dom() == m.dom(),
        forall|c: u64| #[trigger] clear_parents(m, kids, k).contains_key(c) ==> clear_parents(m, kids, k)[c] == if kids.take(
            k,
        ).contains(c) {
            NodeView { parent: None, ..m[c] }
        } else {
            m[c]
        },
    decreases k,
{
    if k > 0 {
        lemma_clear_parents(m, kids, k - 1);
        let m1 = clear_parents(m, kids, k - 1);
        let c0 = kids[k - 1];
        assert(kids.take(k) =~= kids.take(k - 1).push(c0));
        if m1.contains_key(c0) {
            assert(m1.insert(c0, NodeView { parent: None, ..m1[c0] }).dom() =~= m1.dom());
        }
        assert forall|c: u64| #[trigger] clear_parents(m, kids, k).contains_key(c) implies clear_parents(m, kids, k)[c]
            == if kids.take(k).contains(c) {
            NodeView { parent: None, ..m[c] }
        } else {
            m[c]
        } by {
            if c == c0 {
                assert(kids.take(k)[k - 1] == c0);
            } else {
                let t = kids.take(k);
                let t1 = kids.take(k - 1);
                if t.contains(c) {
                    let j = choose|j: int| 0 <= j < t.len() && #[trigger] t[j] == c;
                    assert(t1[j] == c);
                }
                if t1.contains(c) {
                    let j = choose|j: int| 0 <= j < t1.len() && #[trigger] t1[j] == c;
                    assert(t[j] == c);
                }
            }
        }
    }
}

/// Destroying a node keeps the links consistent.
pub proof fn lemma_destroy_keeps_links(m: Map<u64, NodeView>, id: u64)
    requires
        links_consistent(m),
    ensures
        links_consistent(destroy_spec(m, id).1),
{
    if !m.contains_key(id) {
        return;
    }
    let kids = m[id].children;
    assert(node_ok(m, id));
    let m1 = match m[id].parent {
        Some(p) => {
            lemma_remove_keeps_links(m, p, id);
            assert(parent_ok(m, id));
            lemma_index_of(m[p].children, id, 0);
            if index_of(m[p].children, id, 0) < 0 {
                let j = choose|j: int| 0 <= j < m[p].children.len() && m[p].children[j] == id;
                lemma_index_of_finds(m[p].children, id, 0, j);
            }
            assert(p != id);
            remove_child_spec(m, p, id).1
        },
        None => m,
    };
    assert(links_consistent(m1));
    assert(m1.contains_key(id));
    assert(m1[id].children == kids);
    assert(m1[id].parent is None);
    assert forall|q: u64| #[trigger] m1.contains_key(q) implies !m1[q].children.contains(id) by {
        if m1[q].children.contains(id) {
            lemma_listed_only_by_parent(m1, q, id);
        }
    }
    lemma_clear_parents(m1, kids, kids.len() as int);
    assert(kids.take(kids.len() as int) =~= kids);
    let m2 = clear_parents(m1, kids, kids.len() as int);
    let m3 = m2.remove(id);
    assert(destroy_spec(m, id).1 == m3);
    assert forall|p: u64, i: int| m3.contains_key(p) && 0 <= i < m3[p].children.len() implies #[trigger] child_ok(m3, p, i) by {
        assert(m3[p].children == m1[p].children);
        assert(child_ok(m1, p, i));
        let d = m1[p].children[i];
        assert(d != id);
        if kids.contains(d) {
            lemma_listed_only_by_parent(m1, id, d);
        }
    }
    assert forall|c: u64| m3.contains_key(c) implies #[trigger] parent_ok(m3, c) by {
        assert(parent_ok(m1, c));
        if !kids.contains(c) {
            match m1[c].parent {
                Some(q) => {
                    if q == id {
                        lemma_listed_only_by_parent(m1, id, c);
                        let j = choose|j: int| 0 <= j < m1[id].children.len() && m1[id].children[j] == c;
                        assert(kids.contains(c));
                    }
                },
                None => {},
            }
        }
    }
    assert forall|p: u64| m3.contains_key(p) implies #[trigger] node_ok(m3, p) by {
        assert(node_ok(m1, p));
    }
}

} // verus!
