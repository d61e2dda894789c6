//! A registry of named syntax styles: each name gets an id once, and the
//! id's style can be replaced and looked up.
use crate::text_buffer::{bytes_to_vec, Rgba};
use vstd::prelude::*;

verus! {

/// A style: optional colors (channels as `f32` bit patterns) and attributes.
#[derive(Clone, Copy, Debug)]
pub struct StyleDefinition {
    pub fg: Option<Rgba>,
    pub bg: Option<Rgba>,
    pub attributes: u32,
}

/// Whether the `f32` with these bits is a NaN.
pub open spec fn f32_is_nan(b: u32) -> bool {
    (b & 0x7f80_0000u32) == 0x7f80_0000u32 && (b & 0x007f_ffffu32) != 0
}

/// `f32` equality on bit patterns: no NaN equals anything, and the two
/// zeros are equal.
pub open spec fn f32_eq(a: u32, b: u32) -> bool {
    !f32_is_nan(a) && !f32_is_nan(b) && (a == b || ((a & 0x7fff_ffffu32) == 0 && (b & 0x7fff_ffffu32) == 0))
}

pub open spec fn rgba_eq(a: Rgba, b: Rgba) -> bool {
    f32_eq(a[0], b[0]) && f32_eq(a[1], b[1]) && f32_eq(a[2], b[2]) && f32_eq(a[3], b[3])
}

pub open spec fn opt_rgba_eq(a: Option<Rgba>, b: Option<Rgba>) -> bool {
    match (a, b) {
        (Some(x), Some(y)) => rgba_eq(x, y),
        (None, None) => true,
        _ => false,
    }
}

pub fn f32_bits_eq(a: u32, b: u32) -> (r: bool)
    ensures
        r == f32_eq(a, b),
{
    let a_nan = (a & 0x7f80_0000u32) == 0x7f80_0000u32 && (a & 0x007f_ffffu32) != 0;
    let b_nan = (b & 0x7f80_0000u32) == 0x7f80_0000u32 && (b & 0x007f_ffffu32) != 0;
    !a_nan && !b_nan && (a == b || ((a & 0x7fff_ffffu32) == 0 && (b & 0x7fff_ffffu32) == 0))
}

pub fn opt_rgba_equal(a: Option<Rgba>, b: Option<Rgba>) -> (r: bool)
    ensures
        r == opt_rgba_eq(a, b),
{
    match (a, b) {
        (Some(x), Some(y)) => f32_bits_eq(x[0], y[0]) && f32_bits_eq(x[1], y[1]) && f32_bits_eq(x[2], y[2])
            && f32_bits_eq(x[3], y[3]),
        (None, None) => true,
        _ => false,
    }
}

/// The id registered for a name, if any.
pub open spec fn name_lookup(names: Seq<(Seq<u8>, u32)>, name: Seq<u8>) -> Option<u32>
    decreases names.len(),
{
    if names.len() == 0 {
        None
    } else if names.last().0 == name {
        Some(names.last().1)
    } else {
        name_lookup(names.drop_last(), name)
    }
}

/// The style held under an id, if any.
pub open spec fn style_lookup(styles: Seq<(u32, StyleDefinition)>, id: u32) -> Option<StyleDefinition>
    decreases styles.len(),
{
    if styles.len() == 0 {
        None
    } else if styles.last().0 == id {
        Some(styles.last().1)
    } else {
        style_lookup(styles.drop_last(), id)
    }
}

pub open spec fn style_matches(s: StyleDefinition, fg: Option<Rgba>, bg: Option<Rgba>, attributes: u32) -> bool {
    opt_rgba_eq(s.fg, fg) && opt_rgba_eq(s.bg, bg) && s.attributes == attributes
}

/// The first id, in registration order, whose style matches.
pub open spec fn first_match(styles: Seq<(u32, StyleDefinition)>, fg: Option<Rgba>, bg: Option<Rgba>, attributes: u32, i: int) -> Option<u32>
    decreases styles.len() - i,
{
    if i < 0 || i >= styles.len() {
        None
    } else if style_matches(styles[i].1, fg, bg, attributes) {
        Some(styles[i].0)
    } else {
        first_match(styles, fg, bg, attributes, i + 1)
    }
}

pub struct SyntaxStyleState {
    names: Vec<(Vec<u8>, u32)>,
    styles: Vec<(u32, StyleDefinition)>,
    next_id: u32,
}

impl SyntaxStyleState {
    /// (name, id) pairs in registration order.
    pub closed spec fn names_view(&self) -> Seq<(Seq<u8>, u32)> {
        self.names@.map_values(|p: (Vec<u8>, u32)| (p.0@, p.1))
    }

    /// (id, style) pairs in registration order.
    pub closed spec fn styles_view(&self) -> Seq<(u32, StyleDefinition)> {
        self.styles@
    }

    pub closed spec fn next_id_view(&self) -> u32 {
        self.next_id
    }

    /// Names and ids occur once each, ids are below the next id, and the
    /// registries pair up entry by entry.
    pub closed spec fn wf(&self) -> bool {
        &&& self.names@.len() == self.styles@.len()
        &&& forall|i: int| 0 <= i < self.names@.len() ==> #[trigger] self.names@[i].1 == self.styles@[i].0
        &&& forall|i: int| 0 <= i < self.styles@.len() ==> 1 <= #[trigger] self.styles@[i].0 < self.next_id
        &&& forall|i: int, j: int|
            0 <= i < j < self.styles@.len() ==> self.styles@[i].0 != self.styles@[j].0 && self.names@[i].0@
                != self.names@[j].0@
        &&& self.next_id >= 1
    }

    pub fn new() -> (s: Self)
        ensures
            s.wf(),
            s.names_view() == Seq::<(Seq<u8>, u32)>::empty(),
            s.styles_view() == Seq::<(u32, StyleDefinition)>::empty(),
            s.next_id_view() == 1,
    {
        let s = SyntaxStyleState { names: Vec::new(), styles: Vec::new(), next_id: 1 };
        proof {
            assert(s.names_view() =~= Seq::<(Seq<u8>, u32)>::empty());
        }
        s
    }

    fn find_name(&self, name: &[u8]) -> (r: Option<usize>)
        requires
            self.wf(),
        ensures
            match r {
                Some(i) => i < self.names@.len() && self.names@[i as int].0@ == name@ && name_lookup(self.names_view(), name@)
                    == Some(self.names@[i as int].1),
                None => name_lookup(self.names_view(), name@) is None,
            },
    {
        let ghost nv = self.names_view();
        proof {
            assert(nv.take(nv.len() as int) =~= nv);
        }
        let mut k: usize = self.names.len();
        while k > 0
            invariant
                k <= self.names@.len(),
                nv == self.names_view(),
                name_lookup(nv, name@) == name_lookup(nv.take(k as int), name@),
            decreases k,
        {
            let i = k - 1;
            proof {
                assert(nv.take(k as int).drop_last() =~= nv.take(i as int));
                assert(nv.take(k as int).last() == nv[i as int]);
            }
            if bytes_eq(self.names[i].0.as_slice(), name) {
                return Some(i);
            }
            k = i;
        }
        proof {
            assert(nv.take(0) =~= Seq::<(Seq<u8>, u32)>::empty());
        }
        None
    }

    /// The index holding `id`, if any.
    fn find_id(&self, id: u32) -> (r: Option<usize>)
        requires
            self.wf(),
        ensures
            match r {
                Some(i) => i < self.styles@.len() && self.styles@[i as int].0 == id,
                None => forall|i: int| 0 <= i < self.styles@.len() ==> self.styles@[i].0 != id,
            },
    {
        let mut i: usize = 0;
        while i < self.styles.len()
            invariant
                i <= self.styles@.len(),
                forall|j: int| 0 <= j < i ==> self.styles@[j].0 != id,
            decreases self.styles@.len() - i,
        {
            if self.styles[i].0 == id {
                return Some(i);
            }
            i = i + 1;
        }
        None
    }
}

/// A lookup finds the last entry with the key; with no such entry it finds
/// nothing.
pub proof fn lemma_style_lookup(styles: Seq<(u32, StyleDefinition)>, id: u32, j: int)
    requires
        forall|a: int, b: int| 0 <= a < b < styles.len() ==> styles[a].0 != styles[b].0,
    ensures
        0 <= j < styles.len() && styles[j].0 == id ==> style_lookup(styles, id) == Some(styles[j].1),
        (forall|k: int| 0 <= k < styles.len() ==> styles[k].0 != id) ==> style_lookup(styles, id) is None,
    decreases styles.len(),
{
    if styles.len() > 0 {
        lemma_style_lookup(styles.drop_last(), id, j);
    }
}

pub proof fn lemma_name_lookup(names: Seq<(Seq<u8>, u32)>, name: Seq<u8>)
    ensures
        name_lookup(names, name) is None <==> forall|k: int| 0 <= k < names.len() ==> names[k].0 != name,
    decreases names.len(),
{
    if names.len() > 0 {
        let d = names.drop_last();
        lemma_name_lookup(d, name);
        if name_lookup(names, name) is None {
            assert forall|k: int| 0 <= k < names.len() implies names[k].0 != name by {
                if k < names.len() - 1 {
                    assert(names[k] == d[k]);
                }
            }
        } else if names.last().0 != name {
            assert(name_lookup(d, name) is Some);
            let k = choose|k: int| 0 <= k < d.len() && !(d[k].0 != name);
            assert(names[k] == d[k]);
        }
    }
}

impl SyntaxStyleState {
    pub fn style_count(&self) -> (n: usize)
        ensures
            n == self.styles_view().len(),
    {
        self.styles.len()
    }

    /// The id registered for a name; names compare byte for byte.
    pub fn resolve_by_name(&self, name: &[u8]) -> (r: Option<u32>)
        requires
            self.wf(),
        ensures
            r == name_lookup(self.names_view(), name@),
    {
        match self.find_name(name) {
            Some(i) => Some(self.names[i].1),
            None => None,
        }
    }

    /// The style held under an id.
    pub fn resolve_by_id(&self, id: u32) -> (r: Option<StyleDefinition>)
        requires
            self.wf(),
        ensures
            r == style_lookup(self.styles_view(), id),
    {
        proof {
            lemma_style_lookup(self.styles@, id, 0);
        }
        match self.find_id(id) {
            Some(i) => {
                proof {
                    lemma_style_lookup(self.styles@, id, i as int);
                }
                Some(self.styles[i].1)
            },
            None => None,
        }
    }

    /// The first id, in registration order, whose style has these colors
    /// (compared as `f32`) and attributes.
    pub fn resolve_by_definition(&self, fg: Option<Rgba>, bg: Option<Rgba>, attributes: u32) -> (r: Option<u32>)
        ensures
            r == first_match(self.styles_view(), fg, bg, attributes, 0),
            r matches Some(id) ==> exists|i: int|
                0 <= i < self.styles_view().len() && self.styles_view()[i].0 == id && style_matches(
                    #[trigger] self.styles_view()[i].1,
                    fg,
                    bg,
                    attributes,
                ),
    {
        let mut i: usize = 0;
        while i < self.styles.len()
            invariant
                i <= self.styles@.len(),
                first_match(self.styles@, fg, bg, attributes, 0) == first_match(self.styles@, fg, bg, attributes, i as int),
            decreases self.styles@.len() - i,
        {
            let st = self.styles[i].1;
            if opt_rgba_equal(st.fg, fg) && opt_rgba_equal(st.bg, bg) && st.attributes == attributes {
                return Some(self.styles[i].0);
            }
            i = i + 1;
        }
        None
    }

    /// Registers a style under a name: a known name keeps its id and gets
    /// the new style, a new name gets the next id. Returns the id.
    pub fn register_style(&mut self, name: &[u8], fg: Option<Rgba>, bg: Option<Rgba>, attributes: u32) -> (r: u32)
        requires
            old(self).wf(),
            name_lookup(old(self).names_view(), name@) is Some || old(self).next_id_view() < u32::MAX,
        ensures
            final(self).wf(),
            name_lookup(final(self).names_view(), name@) == Some(r),
            style_lookup(final(self).styles_view(), r) == Some(StyleDefinition { fg, bg, attributes }),
            forall|id: u32| id != r ==> style_lookup(final(self).styles_view(), id) == style_lookup(old(self).styles_view(), id),
            match name_lookup(old(self).names_view(), name@) {
                Some(id) => {
                    &&& r == id
                    &&& final(self).names_view() == old(self).names_view()
                    &&& final(self).next_id_view() == old(self).next_id_view()
                    &&& final(self).styles_view().len() == old(self).styles_view().len()
                },
                None => {
                    &&& r == old(self).next_id_view()
                    &&& final(self).next_id_view() == old(self).next_id_view() + 1
                    &&& final(self).names_view() == old(self).names_view().push((name@, r))
                    &&& final(self).styles_view() == old(self).styles_view().push((r, StyleDefinition { fg, bg, attributes }))
                },
            },
    {
        let def = StyleDefinition { fg, bg, attributes };
        match self.find_name(name) {
            Some(i) => {
                let id = self.names[i].1;
                let ghost old_styles = self.styles@;
                self.styles.set(i, (id, def));
                proof {
                    assert forall|x: u32| #![trigger style_lookup(self.styles@, x)] true implies style_lookup(self.styles@, x) == if x == id {
                        Some(def)
                    } else {
                        style_lookup(old_styles, x)
                    } by {
                        lemma_style_lookup(self.styles@, x, i as int);
                        lemma_style_lookup(old_styles, x, i as int);
                        if x != id {
                            if exists|k: int| 0 <= k < old_styles.len() && old_styles[k].0 == x {
                                let k = choose|k: int| 0 <= k < old_styles.len() && old_styles[k].0 == x;
                                lemma_style_lookup(self.styles@, x, k);
                                lemma_style_lookup(old_styles, x, k);
                            } else {
                                assert forall|k: int| 0 <= k < self.styles@.len() implies self.styles@[k].0 != x by {
                                    if k != i {
                                        assert(old_styles[k].0 != x);
                                    }
                                }
                                lemma_style_lookup(self.styles@, x, 0);
                                lemma_style_lookup(old_styles, x, 0);
                            }
                        }
                    }
                }
                id
            },
            None => {
                proof {
                    lemma_name_lookup(self.names_view(), name@);
                    assert forall|k: int| 0 <= k < self.names@.len() implies self.names@[k].0@ != name@ by {
                        assert(self.names_view()[k].0 == self.names@[k].0@);
                    }
                }
                let id = self.next_id;
                self.next_id = self.next_id + 1;
                let ghost old_names = self.names@;
                let ghost old_styles = self.styles@;
                let ghost old_nv = self.names_view();
                let owned = bytes_to_vec(name);
                self.names.push((owned, id));
                self.styles.push((id, def));
                proof {
                    assert(self.names_view() =~= old_nv.push((name@, id)));
                    assert forall|x: u32| x != id implies #[trigger] style_lookup(self.styles@, x) == style_lookup(old_styles, x) by {
                        assert(self.styles@.drop_last() =~= old_styles);
                    }
                    assert(self.styles@.last() == (id, def));
                }
                id
            },
        }
    }
}

impl Default for SyntaxStyleState {
    fn default() -> (s: Self)
        ensures
            s.wf(),
            s.names_view() == Seq::<(Seq<u8>, u32)>::empty(),
            s.styles_view() == Seq::<(u32, StyleDefinition)>::empty(),
            s.next_id_view() == 1,
    {
        SyntaxStyleState::new()
    }
}

fn bytes_eq(a: &[u8], b: &[u8]) -> (r: bool)
    ensures
        r == (a@ == b@),
{
    if a.len() != b.len() {
        return false;
    }
    let mut i: usize = 0;
    while i < a.len()
        invariant
            i <= a@.len(),
            a@.len() == b@.len(),
            forall|j: int| 0 <= j < i ==> a@[j] == b@[j],
        decreases a@.len() - i,
    {
        if a[i] != b[i] {
            return false;
        }
        i = i + 1;
    }
    proof {
        assert(a@ =~= b@);
    }
    true
}

} // verus!
