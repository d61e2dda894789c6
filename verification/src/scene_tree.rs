//! The structure of a scene graph: nodes by id, each with its parent, its
//! ordered children and whether it measures its own content. Each change
//! also yields the layout actions that a layout engine's tree must mirror.
use crate::scene_laws::{
    lemma_create_keeps_links, lemma_destroy_keeps_links, lemma_empty_consistent, lemma_insert_keeps_links,
    lemma_measure_keeps_links, lemma_remove_keeps_links, links_consistent,
};
use vstd::prelude::*;

verus! {

/// What a node is, as mathematical values.
pub struct NodeView {
    pub parent: Option<u64>,
    pub children: Seq<u64>,
    pub measured: bool,
}

/// A change to mirror in the layout engine's tree.
#[derive(Clone, Copy, Debug, PartialEq, Eq, Structural)]
pub enum LayoutAction {
    RemoveChild { parent: u64, child: u64 },
    InsertChild { parent: u64, child: u64, index: usize },
    MarkDirty { node: u64 },
}

pub struct SceneNode {
    id: u64,
    parent: Option<u64>,
    children: Vec<u64>,
    measured: bool,
}

impl SceneNode {
    pub closed spec fn view(&self) -> NodeView {
        NodeView { parent: self.parent, children: self.children@, measured: self.measured }
    }
}

/// The nodes as a map from id to node; a later entry for an id wins.
pub open spec fn node_map(ids: Seq<u64>, nodes: Seq<NodeView>) -> Map<u64, NodeView>
    decreases ids.len(),
{
    if ids.len() == 0 || nodes.len() == 0 {
        Map::empty()
    } else {
        node_map(ids.drop_last(), nodes.drop_last()).insert(ids.last(), nodes.last())
    }
}

pub struct SceneTree {
    nodes: Vec<SceneNode>,
    next_id: u64,
}

pub proof fn lemma_node_map(ids: Seq<u64>, nodes: Seq<NodeView>, i: int)
    requires
        ids.len() == nodes.len(),
        forall|a: int, b: int| 0 <= a < b < ids.len() ==> ids[a] != ids[b],
    ensures
        0 <= i < ids.len() ==> node_map(ids, nodes).contains_key(ids[i]) && node_map(ids, nodes)[ids[i]] == nodes[i],
        forall|k: u64| node_map(ids, nodes).contains_key(k) <==> exists|j: int| 0 <= j < ids.len() && ids[j] == k,
    decreases ids.len(),
{
    if ids.len() > 0 {
        let di = ids.drop_last();
        let dn = nodes.drop_last();
        lemma_node_map(di, dn, i);
        assert forall|k: u64| node_map(ids, nodes).contains_key(k) <==> exists|j: int| 0 <= j < ids.len() && ids[j] == k by {
            if node_map(ids, nodes).contains_key(k) && k != ids.last() {
                assert(node_map(di, dn).contains_key(k));
                let j = choose|j: int| 0 <= j < di.len() && di[j] == k;
                assert(ids[j] == k);
            }
            if node_map(ids, nodes).contains_key(k) && k == ids.last() {
                assert(ids[ids.len() - 1] == k);
            }
            if exists|j: int| 0 <= j < ids.len() && ids[j] == k {
                let j = choose|j: int| 0 <= j < ids.len() && ids[j] == k;
                if j < ids.len() - 1 {
                    assert(di[j] == k);
                    assert(node_map(di, dn).contains_key(k));
                }
            }
        }
        if 0 <= i < ids.len() - 1 {
            assert(ids.drop_last()[i] == ids[i]);
            assert(nodes.drop_last()[i] == nodes[i]);
        }
    }
}

impl SceneTree {
    pub closed spec fn ids(&self) -> Seq<u64> {
        self.nodes@.map_values(|n: SceneNode| n.id)
    }

    pub closed spec fn node_views(&self) -> Seq<NodeView> {
        self.nodes@.map_values(|n: SceneNode| n.view())
    }

    /// The nodes by id.
    pub open spec fn view(&self) -> Map<u64, NodeView> {
        node_map(self.ids(), self.node_views())
    }

    pub closed spec fn next_id_view(&self) -> u64 {
        self.next_id
    }

    /// Every child names its parent, every parent lists each child once, no
    /// node is its own parent and a measuring node has no children.
    pub open spec fn links_ok(&self) -> bool {
        links_consistent(self.view())
    }

    /// Ids are unique and below the next id, which is at least 1.
    pub closed spec fn wf(&self) -> bool {
        &&& forall|a: int, b: int| 0 <= a < b < self.nodes@.len() ==> self.nodes@[a].id != self.nodes@[b].id
        &&& forall|a: int| 0 <= a < self.nodes@.len() ==> #[trigger] self.nodes@[a].id < self.next_id
        &&& self.next_id >= 1
    }

    pub fn new() -> (t: Self)
        ensures
            t.wf(),
            t.view() == Map::<u64, NodeView>::empty(),
            t.next_id_view() == 1,
            t.links_ok(),
    {
        let t = SceneTree { nodes: Vec::new(), next_id: 1 };
        proof {
            assert(t.ids() =~= Seq::<u64>::empty());
            lemma_empty_consistent();
        }
        t
    }

    fn find(&self, id: u64) -> (r: Option<usize>)
        requires
            self.wf(),
        ensures
            r is Some <==> self.view().contains_key(id),
            r matches Some(i) ==> i < self.nodes@.len() && self.nodes@[i as int].id == id && self.view()[id]
                == self.nodes@[i as int].view(),
    {
        proof {
            self.lemma_view(0);
        }
        let mut i: usize = 0;
        while i < self.nodes.len()
            invariant
                self.wf(),
                i <= self.nodes@.len(),
                forall|j: int| 0 <= j < i ==> self.nodes@[j].id != id,
            decreases self.nodes@.len() - i,
        {
            if self.nodes[i].id == id {
                proof {
                    self.lemma_view(i as int);
                }
                return Some(i);
            }
            i = i + 1;
        }
        proof {
            if self.view().contains_key(id) {
                let j = choose|j: int| 0 <= j < self.ids().len() && self.ids()[j] == id;
                assert(self.nodes@[j].id == id);
            }
        }
        None
    }

    proof fn lemma_view(&self, i: int)
        requires
            self.wf(),
        ensures
            0 <= i < self.nodes@.len() ==> self.view().contains_key(self.nodes@[i].id) && self.view()[self.nodes@[i].id]
                == self.nodes@[i].view(),
            forall|k: u64| self.view().contains_key(k) <==> exists|j: int| 0 <= j < self.ids().len() && self.ids()[j] == k,
            self.ids().len() == self.nodes@.len(),
            forall|j: int| 0 <= j < self.nodes@.len() ==> #[trigger] self.ids()[j] == self.nodes@[j].id,
    {
        lemma_node_map(self.ids(), self.node_views(), i);
    }

    /// The number of children of a node, 0 for an unknown id.
    pub fn child_count(&self, id: u64) -> (n: usize)
        requires
            self.wf(),
        ensures
            n == if self.view().contains_key(id) { self.view()[id].children.len() } else { 0 },
    {
        match self.find(id) {
            Some(i) => self.nodes[i].children.len(),
            None => 0,
        }
    }

    /// Creates a node without parent, children or measure; returns its id.
    pub fn create_node(&mut self) -> (id: u64)
        requires
            old(self).wf(),
            old(self).next_id_view() < u64::MAX,
        ensures
            final(self).wf(),
            id == old(self).next_id_view(),
            !old(self).view().contains_key(id),
            final(self).next_id_view() == id + 1,
            final(self).view() == old(self).view().insert(id, NodeView { parent: None, children: Seq::empty(), measured: false }),
            old(self).links_ok() ==> final(self).links_ok(),
    {
        let id = self.next_id;
        proof {
            old(self).lemma_view(0);
            if old(self).view().contains_key(id) {
                let j = choose|j: int| 0 <= j < old(self).ids().len() && old(self).ids()[j] == id;
                assert(old(self).nodes@[j].id < id);
            }
        }
        self.next_id = self.next_id + 1;
        let ghost old_ids = self.ids();
        let ghost old_views = self.node_views();
        self.nodes.push(SceneNode { id, parent: None, children: Vec::new(), measured: false });
        proof {
            assert(self.ids() =~= old_ids.push(id));
            assert(self.node_views() =~= old_views.push(NodeView { parent: None, children: Seq::empty(), measured: false }));
            assert(self.ids().drop_last() =~= old_ids);
            assert(self.node_views().drop_last() =~= old_views);
            if old(self).links_ok() {
                lemma_create_keeps_links(old(self).view(), id);
            }
        }
        id
    }
}

/// The first position of `v` in `s`, or -1.
pub open spec fn index_of(s: Seq<u64>, v: u64, i: int) -> int
    decreases s.len() - i,
{
    if i < 0 || i >= s.len() {
        -1
    } else if s[i] == v {
        i
    } else {
        index_of(s, v, i + 1)
    }
}

pub proof fn lemma_index_of(s: Seq<u64>, v: u64, i: int)
    requires
        0 <= i <= s.len(),
    ensures
        index_of(s, v, i) == -1 || (i <= index_of(s, v, i) < s.len() && s[index_of(s, v, i)] == v),
    decreases s.len() - i,
{
    if i < s.len() {
        lemma_index_of(s, v, i + 1);
    }
}

/// Detaching `child` from `parent`: it leaves the parent's children and has
/// no parent; nothing happens unless both exist and `child` is among the
/// parent's children.
pub open spec fn remove_child_spec(m: Map<u64, NodeView>, parent: u64, child: u64) -> (bool, Map<u64, NodeView>, Seq<LayoutAction>) {
    if !m.contains_key(parent) {
        (false, m, Seq::empty())
    } else {
        let idx = index_of(m[parent].children, child, 0);
        if idx < 0 || !m.contains_key(child) {
            (false, m, Seq::empty())
        } else {
            let m1 = m.insert(parent, NodeView { children: m[parent].children.remove(idx), ..m[parent] });
            let m2 = m1.insert(child, NodeView { parent: None, ..m1[child] });
            (true, m2, seq![LayoutAction::RemoveChild { parent, child }])
        }
    }
}

/// Attaching `child` to `parent` at `index` (at most the end), detached
/// first from a former parent; refused for a node onto itself, onto a
/// measuring node, or when either is unknown.
pub open spec fn insert_child_spec(m: Map<u64, NodeView>, parent: u64, child: u64, index: int) -> (bool, Map<u64, NodeView>, Seq<LayoutAction>) {
    if parent == child || (m.contains_key(parent) && m[parent].measured) {
        (false, m, Seq::empty())
    } else {
        let (m1, acts) = if m.contains_key(child) && m[child].parent is Some {
            let r = remove_child_spec(m, m[child].parent->0, child);
            (r.1, r.2)
        } else {
            (m, Seq::empty())
        };
        if !m1.contains_key(parent) || !m1.contains_key(child) {
            (false, m1, acts)
        } else {
            let n = m1[parent].children.len() as int;
            let idx = if index <= n { index } else { n };
            let m2 = m1.insert(parent, NodeView { children: m1[parent].children.insert(idx, child), ..m1[parent] });
            let m3 = m2.insert(child, NodeView { parent: Some(parent), ..m2[child] });
            (true, m3, acts.push(LayoutAction::InsertChild { parent, child, index: idx as usize }))
        }
    }
}

impl SceneTree {
    fn replace_node(&mut self, i: usize, node: SceneNode)
        requires
            old(self).wf(),
            i < old(self).nodes@.len(),
            node.id == old(self).nodes@[i as int].id,
        ensures
            final(self).wf(),
            final(self).next_id_view() == old(self).next_id_view(),
            final(self).view() == old(self).view().insert(node.id, node.view()),
    {
        let ghost id = node.id;
        let ghost nv = node.view();
        proof {
            old(self).lemma_view(0);
        }
        self.nodes.set(i, node);
        proof {
            assert(self.ids() =~= old(self).ids());
            assert(self.node_views() =~= old(self).node_views().update(i as int, nv));
            self.lemma_view(i as int);
            assert forall|k: u64| #![trigger self.view().contains_key(k)] self.view().contains_key(k) == old(self).view().insert(id, nv).contains_key(k) by {
                old(self).lemma_view(0);
                self.lemma_view(0);
                if old(self).view().contains_key(k) {
                    let j = choose|j: int| 0 <= j < old(self).ids().len() && old(self).ids()[j] == k;
                    assert(self.ids()[j] == k);
                }
            }
            assert forall|k: u64| self.view().contains_key(k) implies #[trigger] self.view()[k] == old(self).view().insert(id, nv)[k] by {
                self.lemma_view(0);
                let j = choose|j: int| 0 <= j < self.ids().len() && self.ids()[j] == k;
                self.lemma_view(j);
                old(self).lemma_view(j);
                if k != id {
                    assert(j != i);
                }
            }
            assert(self.view() =~= old(self).view().insert(id, nv));
        }
    }

    fn copy_children(&self, i: usize) -> (r: Vec<u64>)
        requires
            i < self.nodes@.len(),
        ensures
            r@ == self.nodes@[i as int].children@,
    {
        let src = &self.nodes[i].children;
        let mut v: Vec<u64> = Vec::new();
        let mut k: usize = 0;
        while k < src.len()
            invariant
                k <= src@.len(),
                v@ == src@.take(k as int),
            decreases src@.len() - k,
        {
            v.push(src[k]);
            proof {
                assert(src@.take(k + 1) =~= src@.take(k as int).push(src@[k as int]));
            }
            k = k + 1;
        }
        proof {
            assert(src@.take(src@.len() as int) =~= src@);
        }
        v
    }

    fn position(children: &Vec<u64>, v: u64) -> (r: Option<usize>)
        ensures
            r is None <==> index_of(children@, v, 0) < 0,
            r matches Some(i) ==> i == index_of(children@, v, 0) && i < children@.len(),
    {
        let mut i: usize = 0;
        while i < children.len()
            invariant
                i <= children@.len(),
                index_of(children@, v, 0) == index_of(children@, v, i as int),
            decreases children@.len() - i,
        {
            if children[i] == v {
                return Some(i);
            }
            i = i + 1;
        }
        None
    }

    /// Detaches `child` from `parent` (see `remove_child_spec`).
    pub fn remove_child(&mut self, parent: u64, child: u64, actions: &mut Vec<LayoutAction>) -> (ok: bool)
        requires
            old(self).wf(),
        ensures
            final(self).wf(),
            final(self).next_id_view() == old(self).next_id_view(),
            ({
                let r = remove_child_spec(old(self).view(), parent, child);
                ok == r.0 && final(self).view() == r.1 && final(actions)@ == old(actions)@ + r.2
            }),
            old(self).links_ok() ==> final(self).links_ok(),
    {
        proof {
            if old(self).links_ok() {
                lemma_remove_keeps_links(old(self).view(), parent, child);
            }
        }
        let pi = match self.find(parent) {
            Some(i) => i,
            None => {
                proof {
                    assert(actions@ + Seq::<LayoutAction>::empty() =~= actions@);
                }
                return false;
            },
        };
        let idx = match Self::position(&self.nodes[pi].children, child) {
            Some(k) => k,
            None => {
                proof {
                    assert(actions@ + Seq::<LayoutAction>::empty() =~= actions@);
                }
                return false;
            },
        };
        if self.find(child).is_none() {
            proof {
                assert(actions@ + Seq::<LayoutAction>::empty() =~= actions@);
            }
            return false;
        }
        actions.push(LayoutAction::RemoveChild { parent, child });
        let mut children = self.copy_children(pi);
        children.remove(idx);
        let pnode = SceneNode { id: parent, parent: self.nodes[pi].parent, children, measured: self.nodes[pi].measured };
        self.replace_node(pi, pnode);
        let ci = match self.find(child) {
            Some(i) => i,
            None => {
                assert(false);
                return false;
            },
        };
        let cchildren = self.copy_children(ci);
        let cnode = SceneNode { id: child, parent: None, children: cchildren, measured: self.nodes[ci].measured };
        self.replace_node(ci, cnode);
        proof {
            assert(actions@ =~= old(actions)@ + seq![LayoutAction::RemoveChild { parent, child }]);
        }
        true
    }
}

/// Clears the parent of the first `k` of `kids` that exist.
pub open spec fn clear_parents(m: Map<u64, NodeView>, kids: Seq<u64>, k: int) -> Map<u64, NodeView>
    decreases k,
{
    if k <= 0 {
        m
    } else {
        let m1 = clear_parents(m, kids, k - 1);
        let c = kids[k - 1];
        if m1.contains_key(c) {
            m1.insert(c, NodeView { parent: None, ..m1[c] })
        } else {
            m1
        }
    }
}

/// Destroying a node: it leaves its parent, its children lose their
/// parent (they stay in the tree), and it is gone; nothing happens for an
/// unknown id.
pub open spec fn destroy_spec(m: Map<u64, NodeView>, id: u64) -> (bool, Map<u64, NodeView>, Seq<LayoutAction>) {
    if !m.contains_key(id) {
        (false, m, Seq::empty())
    } else {
        let kids = m[id].children;
        let (m1, acts) = match m[id].parent {
            Some(p) => {
                let r = remove_child_spec(m, p, id);
                (r.1, r.2)
            },
            None => (m, Seq::empty()),
        };
        (true, clear_parents(m1, kids, kids.len() as int).remove(id), acts)
    }
}

impl SceneTree {
    /// Whether a node exists.
    pub fn has_node(&self, id: u64) -> (b: bool)
        requires
            self.wf(),
        ensures
            b == self.view().contains_key(id),
    {
        self.find(id).is_some()
    }

    /// Attaches `child` to `parent` at `index` (see `insert_child_spec`).
    pub fn insert_child(&mut self, parent: u64, child: u64, index: usize, actions: &mut Vec<LayoutAction>) -> (ok: bool)
        requires
            old(self).wf(),
        ensures
            final(self).wf(),
            final(self).next_id_view() == old(self).next_id_view(),
            ({
                let r = insert_child_spec(old(self).view(), parent, child, index as int);
                ok == r.0 && final(self).view() == r.1 && final(actions)@ == old(actions)@ + r.2
            }),
            old(self).links_ok() ==> final(self).links_ok(),
    {
        proof {
            if old(self).links_ok() {
                lemma_insert_keeps_links(old(self).view(), parent, child, index as int);
            }
        }
        let ghost a0 = actions@;
        proof {
            assert(actions@ + Seq::<LayoutAction>::empty() =~= actions@);
        }
        if parent == child {
            return false;
        }
        match self.find(parent) {
            Some(pi) => {
                if self.nodes[pi].measured {
                    return false;
                }
            },
            None => {},
        }
        match self.find(child) {
            Some(ci) => match self.nodes[ci].parent {
                Some(op) => {
                    let _ = self.remove_child(op, child, actions);
                },
                None => {},
            },
            None => {},
        }
        let ghost m1 = self.view();
        let ghost a1 = actions@;
        let pi = match self.find(parent) {
            Some(i) => i,
            None => {
                return false;
            },
        };
        let ci = match self.find(child) {
            Some(i) => i,
            None => {
                return false;
            },
        };
        let n = self.nodes[pi].children.len();
        let idx = if index <= n { index } else { n };
        actions.push(LayoutAction::InsertChild { parent, child, index: idx });
        let mut children = self.copy_children(pi);
        children.insert(idx, child);
        let pnode = SceneNode { id: parent, parent: self.nodes[pi].parent, children, measured: self.nodes[pi].measured };
        self.replace_node(pi, pnode);
        let ci2 = match self.find(child) {
            Some(i) => i,
            None => {
                assert(false);
                return false;
            },
        };
        let cchildren = self.copy_children(ci2);
        let cnode = SceneNode { id: child, parent: Some(parent), children: cchildren, measured: self.nodes[ci2].measured };
        self.replace_node(ci2, cnode);
        proof {
            assert(a1 =~= a0 + (a1.skip(a0.len() as int)));
            assert(actions@ =~= a0 + a1.skip(a0.len() as int).push(LayoutAction::InsertChild { parent, child, index: idx }));
        }
        true
    }

    /// Appends `child` to the children of `parent`.
    pub fn append_child(&mut self, parent: u64, child: u64, actions: &mut Vec<LayoutAction>) -> (ok: bool)
        requires
            old(self).wf(),
        ensures
            final(self).wf(),
            final(self).next_id_view() == old(self).next_id_view(),
            ({
                let r = if old(self).view().contains_key(parent) {
                    insert_child_spec(old(self).view(), parent, child, old(self).view()[parent].children.len() as int)
                } else {
                    (false, old(self).view(), Seq::empty())
                };
                ok == r.0 && final(self).view() == r.1 && final(actions)@ == old(actions)@ + r.2
            }),
            old(self).links_ok() ==> final(self).links_ok(),
    {
        proof {
            if old(self).links_ok() {
                if old(self).view().contains_key(parent) {
                    lemma_insert_keeps_links(old(self).view(), parent, child, old(self).view()[parent].children.len() as int);
                }
            }
        }
        let n = match self.find(parent) {
            Some(pi) => self.nodes[pi].children.len(),
            None => {
                proof {
                    assert(actions@ + Seq::<LayoutAction>::empty() =~= actions@);
                }
                return false;
            },
        };
        self.insert_child(parent, child, n, actions)
    }

    /// Inserts `child` before `anchor` among the children of `parent`;
    /// refused when `anchor` is not one of them.
    pub fn insert_before(&mut self, parent: u64, child: u64, anchor: u64, actions: &mut Vec<LayoutAction>) -> (ok: bool)
        requires
            old(self).wf(),
        ensures
            final(self).wf(),
            final(self).next_id_view() == old(self).next_id_view(),
            ({
                let r = if old(self).view().contains_key(parent) && index_of(old(self).view()[parent].children, anchor, 0)
                    >= 0 {
                    insert_child_spec(old(self).view(), parent, child, index_of(old(self).view()[parent].children, anchor, 0))
                } else {
                    (false, old(self).view(), Seq::empty())
                };
                ok == r.0 && final(self).view() == r.1 && final(actions)@ == old(actions)@ + r.2
            }),
            old(self).links_ok() ==> final(self).links_ok(),
    {
        proof {
            if old(self).links_ok() {
                if old(self).view().contains_key(parent) && index_of(old(self).view()[parent].children, anchor, 0) >= 0 {
                    lemma_insert_keeps_links(old(self).view(), parent, child, index_of(old(self).view()[parent].children, anchor, 0));
                }
            }
        }
        let pi = match self.find(parent) {
            Some(i) => i,
            None => {
                proof {
                    assert(actions@ + Seq::<LayoutAction>::empty() =~= actions@);
                }
                return false;
            },
        };
        let index = match Self::position(&self.nodes[pi].children, anchor) {
            Some(k) => k,
            None => {
                proof {
                    assert(actions@ + Seq::<LayoutAction>::empty() =~= actions@);
                }
                return false;
            },
        };
        self.insert_child(parent, child, index, actions)
    }

    /// Marks a childless node as measuring its own content when it has
    /// something to measure; returns whether it did.
    pub fn set_measure(&mut self, id: u64, has_source: bool, actions: &mut Vec<LayoutAction>) -> (ok: bool)
        requires
            old(self).wf(),
        ensures
            final(self).wf(),
            final(self).next_id_view() == old(self).next_id_view(),
            ok == (old(self).view().contains_key(id) && old(self).view()[id].children.len() == 0 && has_source),
            ok ==> final(self).view() == old(self).view().insert(id, NodeView { measured: true, ..old(self).view()[id] }),
            ok ==> final(actions)@ == old(actions)@.push(LayoutAction::MarkDirty { node: id }),
            !ok ==> final(self).view() == old(self).view() && final(actions)@ == old(actions)@,
            old(self).links_ok() ==> final(self).links_ok(),
    {
        proof {
            if old(self).links_ok() {
                if old(self).view().contains_key(id) && old(self).view()[id].children.len() == 0 {
                    lemma_measure_keeps_links(old(self).view(), id);
                }
            }
        }
        let i = match self.find(id) {
            Some(i) => i,
            None => {
                return false;
            },
        };
        if self.nodes[i].children.len() > 0 || !has_source {
            return false;
        }
        let node = SceneNode { id, parent: self.nodes[i].parent, children: Vec::new(), measured: true };
        proof {
            assert(self.nodes@[i as int].children@ =~= Seq::<u64>::empty());
            assert(node.view() == NodeView { measured: true, ..old(self).view()[id] });
        }
        self.replace_node(i, node);
        actions.push(LayoutAction::MarkDirty { node: id });
        true
    }
}

impl SceneTree {
    fn remove_at(&mut self, j: usize)
        requires
            old(self).wf(),
            j < old(self).nodes@.len(),
        ensures
            final(self).wf(),
            final(self).next_id_view() == old(self).next_id_view(),
            final(self).view() == old(self).view().remove(old(self).nodes@[j as int].id),
    {
        let ghost id = self.nodes@[j as int].id;
        proof {
            old(self).lemma_view(0);
        }
        let _ = self.nodes.remove(j);
        proof {
            assert(self.ids() =~= old(self).ids().remove(j as int));
            assert(self.node_views() =~= old(self).node_views().remove(j as int));
            self.lemma_view(0);
            assert forall|k: u64| #![trigger self.view().contains_key(k)] self.view().contains_key(k) == old(self).view().remove(id).contains_key(k) by {
                old(self).lemma_view(0);
                self.lemma_view(0);
                if old(self).view().contains_key(k) && k != id {
                    let t = choose|t: int| 0 <= t < old(self).ids().len() && old(self).ids()[t] == k;
                    assert(t != j);
                    if t < j {
                        assert(self.ids()[t] == k);
                    } else {
                        assert(self.ids()[t - 1] == k);
                    }
                }
                if self.view().contains_key(k) {
                    let t = choose|t: int| 0 <= t < self.ids().len() && self.ids()[t] == k;
                    if t < j {
                        assert(old(self).ids()[t] == k);
                        assert(old(self).ids()[j as int] == id);
                    } else {
                        assert(old(self).ids()[t + 1] == k);
                        assert(old(self).ids()[j as int] == id);
                    }
                }
            }
            assert forall|k: u64| self.view().contains_key(k) implies #[trigger] self.view()[k] == old(self).view().remove(id)[k] by {
                self.lemma_view(0);
                let t = choose|t: int| 0 <= t < self.ids().len() && self.ids()[t] == k;
                self.lemma_view(t);
                if t < j {
                    old(self).lemma_view(t);
                } else {
                    old(self).lemma_view(t + 1);
                }
            }
            assert(self.view() =~= old(self).view().remove(id));
        }
    }

    /// Destroys a node (see `destroy_spec`).
    pub fn destroy_node(&mut self, id: u64, actions: &mut Vec<LayoutAction>) -> (ok: bool)
        requires
            old(self).wf(),
        ensures
            final(self).wf(),
            final(self).next_id_view() == old(self).next_id_view(),
            ({
                let r = destroy_spec(old(self).view(), id);
                ok == r.0 && final(self).view() == r.1 && final(actions)@ == old(actions)@ + r.2
            }),
            old(self).links_ok() ==> final(self).links_ok(),
    {
        proof {
            if old(self).links_ok() {
                lemma_destroy_keeps_links(old(self).view(), id);
            }
        }
        let i = match self.find(id) {
            Some(i) => i,
            None => {
                proof {
                    assert(actions@ + Seq::<LayoutAction>::empty() =~= actions@);
                }
                return false;
            },
        };
        let parent = self.nodes[i].parent;
        let kids = self.copy_children(i);
        match parent {
            Some(p) => {
                let _ = self.remove_child(p, id, actions);
            },
            None => {
                proof {
                    assert(actions@ + Seq::<LayoutAction>::empty() =~= actions@);
                }
            },
        }
        let ghost m1 = self.view();
        proof {
            assert(m1.contains_key(id));
        }
        let mut k: usize = 0;
        while k < kids.len()
            invariant
                self.wf(),
                self.next_id_view() == old(self).next_id_view(),
                k <= kids@.len(),
                self.view() == clear_parents(m1, kids@, k as int),
                m1.contains_key(id),
            decreases kids@.len() - k,
        {
            proof {
                lemma_clear_parents_keys(m1, kids@, k as int);
            }
            match self.find(kids[k]) {
                Some(ci) => {
                    let cchildren = self.copy_children(ci);
                    let node = SceneNode { id: kids[k], parent: None, children: cchildren, measured: self.nodes[ci].measured };
                    self.replace_node(ci, node);
                },
                None => {},
            }
            k = k + 1;
        }
        proof {
            lemma_clear_parents_keys(m1, kids@, kids@.len() as int);
        }
        let j = match self.find(id) {
            Some(j) => j,
            None => {
                assert(false);
                return false;
            },
        };
        self.remove_at(j);
        true
    }
}

pub proof fn lemma_clear_parents_keys(m: Map<u64, NodeView>, kids: Seq<u64>, k: int)
    ensures
        clear_parents(m, kids, k).dom() == m.dom(),
    decreases k,
{
    if k > 0 {
        lemma_clear_parents_keys(m, kids, k - 1);
        let m1 = clear_parents(m, kids, k - 1);
        if m1.contains_key(kids[k - 1]) {
            assert(m1.insert(kids[k - 1], NodeView { parent: None, ..m1[kids[k - 1]] }).dom() =~= m1.dom());
        }
    }
}

} // verus!
