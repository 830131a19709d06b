//! The AS-path graph: points and edges keyed by name, merged on insertion and
//! kept sorted by key, and serialised to the DOT graph language with every
//! token escaped. The document depends on the graph's contents alone.
use vstd::prelude::*;
use crate::route_text::{
    as_path, extract_as_path, extract_protocol, extract_via, lemma_pieces_nonempty, protocol_capture,
    route_pieces,
    split_routes, via_text,
};
use crate::sorted::{
    key_pos, lemma_key_pos, lemma_lower_bound, lemma_sorted_same_entries, lemma_update_sorted,
    lemma_upsert_sorted, lower_bound, sorted_by, strict_order, upsert,
};
use crate::text::{
    lemma_text_lt_irreflexive, lemma_text_lt_total, lemma_text_lt_transitive, text_less, text_lt,
    contains_char, has_char, owned, push_all, push_str, same_text, text_chars, text_from_chars, trim,
    trim_chars,
};

verus! {

/// Attribute names with their values, sorted by name.
pub type AttrModel = Seq<(Seq<char>, Seq<char>)>;

/// The order of names: lexicographic by character.
pub open spec fn text_order() -> spec_fn(Seq<char>, Seq<char>) -> bool {
    |x: Seq<char>, y: Seq<char>| text_lt(x, y)
}

/// The order of edge keys: by source, then by destination.
pub open spec fn edge_key_lt(x: (Seq<char>, Seq<char>), y: (Seq<char>, Seq<char>)) -> bool {
    text_lt(x.0, y.0) || (x.0 == y.0 && text_lt(x.1, y.1))
}

pub open spec fn edge_order() -> spec_fn((Seq<char>, Seq<char>), (Seq<char>, Seq<char>)) -> bool {
    |x: (Seq<char>, Seq<char>), y: (Seq<char>, Seq<char>)| edge_key_lt(x, y)
}

pub proof fn lemma_orders_strict()
    ensures
        strict_order(text_order()),
        strict_order(edge_order()),
{
    assert forall|x: Seq<char>| !#[trigger] text_order()(x, x) by {
        lemma_text_lt_irreflexive(x);
    }
    assert forall|x: Seq<char>, y: Seq<char>, z: Seq<char>|
        #[trigger] text_order()(x, y) && #[trigger] text_order()(y, z) implies text_order()(x, z) by {
        lemma_text_lt_transitive(x, y, z);
    }
    assert forall|x: Seq<char>, y: Seq<char>| x != y implies #[trigger] text_order()(x, y) || text_order()(y, x) by {
        lemma_text_lt_total(x, y);
    }
    assert forall|x: (Seq<char>, Seq<char>)| !#[trigger] edge_order()(x, x) by {
        lemma_text_lt_irreflexive(x.0);
        lemma_text_lt_irreflexive(x.1);
    }
    assert forall|x: (Seq<char>, Seq<char>), y: (Seq<char>, Seq<char>), z: (Seq<char>, Seq<char>)|
        #[trigger] edge_order()(x, y) && #[trigger] edge_order()(y, z) implies edge_order()(x, z) by {
        if text_lt(x.0, y.0) && text_lt(y.0, z.0) {
            lemma_text_lt_transitive(x.0, y.0, z.0);
        }
        if x.0 == y.0 && y.0 == z.0 && text_lt(x.1, y.1) && text_lt(y.1, z.1) {
            lemma_text_lt_transitive(x.1, y.1, z.1);
        }
    }
    assert forall|x: (Seq<char>, Seq<char>), y: (Seq<char>, Seq<char>)| x != y implies #[trigger] edge_order()(x, y)
        || edge_order()(y, x) by {
        if x.0 != y.0 {
            lemma_text_lt_total(x.0, y.0);
        } else {
            assert(x.1 != y.1);
            lemma_text_lt_total(x.1, y.1);
        }
    }
}

/// Names strictly increase: sorted, and none occurs twice.
pub open spec fn keys_sorted(a: AttrModel) -> bool {
    sorted_by(a, text_order())
}

/// The index of the entry named `k`, or -1.
pub open spec fn key_index(a: AttrModel, k: Seq<char>) -> int {
    key_pos(a, k, text_order())
}

/// Sets `k` to `v`: the entry named `k` is replaced, or a new one goes where
/// the order of names puts it.
pub open spec fn attr_insert(a: AttrModel, k: Seq<char>, v: Seq<char>) -> AttrModel {
    upsert(a, k, v, text_order())
}

/// Inserts every entry of `b` into `a`, in order: the last writer wins.
pub open spec fn attr_merge(a: AttrModel, b: AttrModel) -> AttrModel
    decreases b.len(),
{
    if b.len() == 0 {
        a
    } else {
        attr_insert(attr_merge(a, b.drop_last()), b.last().0, b.last().1)
    }
}

proof fn lemma_key_index(a: AttrModel, k: Seq<char>)
    requires
        keys_sorted(a),
    ensures
        -1 <= key_index(a, k) < a.len(),
        key_index(a, k) >= 0 ==> a[key_index(a, k)].0 == k,
        key_index(a, k) < 0 ==> forall|i: int| 0 <= i < a.len() ==> a[i].0 != k,
{
    lemma_orders_strict();
    lemma_key_pos(a, k, text_order());
}

proof fn lemma_insert_sorted(a: AttrModel, k: Seq<char>, v: Seq<char>)
    requires
        keys_sorted(a),
    ensures
        keys_sorted(attr_insert(a, k, v)),
{
    lemma_orders_strict();
    lemma_upsert_sorted(a, k, v, text_order());
}

proof fn lemma_merge_sorted(a: AttrModel, b: AttrModel)
    requires
        keys_sorted(a),
    ensures
        keys_sorted(attr_merge(a, b)),
    decreases b.len(),
{
    if b.len() > 0 {
        lemma_merge_sorted(a, b.drop_last());
        lemma_insert_sorted(attr_merge(a, b.drop_last()), b.last().0, b.last().1);
    }
}

/// A set of DOT attributes: a name maps to one value, setting it again
/// replaces the value, and entries are kept sorted by name.
#[derive(Debug)]
pub struct RouteAttrs {
    attrs: Vec<(String, String)>,
}

impl View for RouteAttrs {
    type V = AttrModel;

    closed spec fn view(&self) -> AttrModel {
        self.attrs@.map_values(|e: (String, String)| (e.0@, e.1@))
    }
}

impl RouteAttrs {
    pub closed spec fn wf(&self) -> bool {
        keys_sorted(self@)
    }

    pub fn new() -> (r: Self)
        ensures
            r@ == Seq::<(Seq<char>, Seq<char>)>::empty(),
            r.wf(),
    {
        let r = Self { attrs: Vec::new() };
        assert(r@ =~= Seq::<(Seq<char>, Seq<char>)>::empty());
        r
    }

    /// Where `key` is or would go, and whether it is there.
    fn locate(&self, key: &str) -> (r: (usize, bool))
        ensures
            r.0 as int == lower_bound(self@, key@, text_order()),
            r.0 <= self.attrs@.len(),
            r.1 == (key_index(self@, key@) >= 0),
    {
        let mut j: usize = self.attrs.len();
        assert(self@.take(j as int) =~= self@);
        while j > 0 && !text_less(self.attrs[j - 1].0.as_str(), key)
            invariant
                j <= self.attrs@.len(),
                lower_bound(self@.take(j as int), key@, text_order()) == lower_bound(self@, key@, text_order()),
            decreases j,
        {
            assert(self@.take(j as int).last() == self@[j - 1]);
            assert(self@.take(j as int).drop_last() =~= self@.take(j - 1));
            j = j - 1;
        }
        proof {
            if j > 0 {
                assert(self@.take(j as int).last() == self@[j - 1]);
            }
        }
        let found = j < self.attrs.len() && same_text(self.attrs[j].0.as_str(), key);
        proof {
            if j < self.attrs@.len() {
                assert(self@[j as int].0 == self.attrs@[j as int].0@);
            }
        }
        (j, found)
    }

    fn position(&self, key: &str) -> (r: Option<usize>)
        ensures
            r is None ==> key_index(self@, key@) < 0,
            r matches Some(i) ==> i as int == key_index(self@, key@) && i < self.attrs@.len(),
    {
        let (j, found) = self.locate(key);
        if found {
            Some(j)
        } else {
            None
        }
    }

    /// Sets `key` to `value`.
    pub fn insert(&mut self, key: String, value: String)
        requires
            old(self).wf(),
        ensures
            final(self).wf(),
            final(self)@ == attr_insert(old(self)@, key@, value@),
    {
        proof {
            lemma_insert_sorted(self@, key@, value@);
            lemma_key_index(self@, key@);
        }
        let (j, found) = self.locate(key.as_str());
        let ghost k = key@;
        let ghost v = value@;
        if found {
            self.attrs.set(j, (key, value));
            assert(self@ =~= attr_insert(old(self)@, k, v));
        } else {
            self.attrs.insert(j, (key, value));
            assert(self@ =~= attr_insert(old(self)@, k, v));
        }
    }

    /// The value set for `key`, if any.
    pub fn get(&self, key: &str) -> (r: Option<&String>)
        ensures
            r is None <==> key_index(self@, key@) < 0,
            r matches Some(v) ==> v@ == self@[key_index(self@, key@)].1,
    {
        match self.position(key) {
            Some(i) => Some(&self.attrs[i].1),
            None => None,
        }
    }

    pub fn len(&self) -> (r: usize)
        ensures
            r == self@.len(),
    {
        self.attrs.len()
    }

    pub fn is_empty(&self) -> (r: bool)
        ensures
            r == (self@.len() == 0),
    {
        self.attrs.len() == 0
    }

    /// The entries, sorted by name.
    pub fn iter(&self) -> (r: &[(String, String)])
        ensures
            r@.map_values(|e: (String, String)| (e.0@, e.1@)) == self@,
    {
        self.attrs.as_slice()
    }

    /// An equal copy.
    pub fn duplicate(&self) -> (r: RouteAttrs)
        ensures
            r@ == self@,
    {
        let mut out: Vec<(String, String)> = Vec::new();
        let mut i: usize = 0;
        while i < self.attrs.len()
            invariant
                i <= self.attrs@.len(),
                out@.map_values(|e: (String, String)| (e.0@, e.1@)) =~= self@.take(i as int),
            decreases self.attrs@.len() - i,
        {
            let k = self.attrs[i].0.clone();
            let v = self.attrs[i].1.clone();
            let ghost before = out@.map_values(|e: (String, String)| (e.0@, e.1@));
            out.push((k, v));
            assert(out@.map_values(|e: (String, String)| (e.0@, e.1@)) =~= before.push(self@[i as int]));
            assert(self@.take(i + 1) =~= self@.take(i as int).push(self@[i as int]));
            i = i + 1;
            assert(out@.map_values(|e: (String, String)| (e.0@, e.1@)) =~= self@.take(i as int));
        }
        assert(self@.take(i as int) =~= self@);
        RouteAttrs { attrs: out }
    }

    /// Sets every entry of `other` in turn.
    pub fn merge(&mut self, other: &RouteAttrs)
        requires
            old(self).wf(),
        ensures
            final(self).wf(),
            final(self)@ == attr_merge(old(self)@, other@),
    {
        let mut i: usize = 0;
        while i < other.attrs.len()
            invariant
                i <= other.attrs@.len(),
                self.wf(),
                self@ == attr_merge(old(self)@, other@.take(i as int)),
            decreases other.attrs@.len() - i,
        {
            let k = other.attrs[i].0.clone();
            let v = other.attrs[i].1.clone();
            self.insert(k, v);
            i = i + 1;
            assert(other@.take(i as int).drop_last() =~= other@.take(i - 1));
        }
        assert(other@.take(i as int) =~= other@);
    }
}


/// A point of the graph: whether its name is an AS number to be looked up,
/// and its attributes.
pub struct PointModel {
    pub lookup: bool,
    pub attrs: AttrModel,
}

/// An edge of the graph: its labels in order of arrival, and its attributes.
pub struct EdgeModel {
    pub labels: Seq<Seq<char>>,
    pub attrs: AttrModel,
}

/// Points by name and edges by (source, destination), each sorted by key.
pub struct GraphModel {
    pub points: Seq<(Seq<char>, PointModel)>,
    pub edges: Seq<((Seq<char>, Seq<char>), EdgeModel)>,
}

pub open spec fn point_index(ps: Seq<(Seq<char>, PointModel)>, n: Seq<char>) -> int {
    key_pos(ps, n, text_order())
}

pub open spec fn edge_index(es: Seq<((Seq<char>, Seq<char>), EdgeModel)>, k: (Seq<char>, Seq<char>)) -> int {
    key_pos(es, k, edge_order())
}

/// Points sorted by name, edges by key, and the attributes of each by name;
/// so no key occurs twice.
pub open spec fn graph_ok(g: GraphModel) -> bool {
    &&& sorted_by(g.points, text_order())
    &&& sorted_by(g.edges, edge_order())
    &&& forall|i: int| 0 <= i < g.points.len() ==> keys_sorted(#[trigger] g.points[i].1.attrs)
    &&& forall|i: int| 0 <= i < g.edges.len() ==> keys_sorted(#[trigger] g.edges[i].1.attrs)
}

/// Adds a point, or merges into the point of that name: the lookup flag is
/// replaced and the attributes are merged.
pub open spec fn model_add_point(g: GraphModel, name: Seq<char>, lookup: bool, attrs: AttrModel) -> GraphModel {
    let i = point_index(g.points, name);
    if i >= 0 {
        GraphModel {
            points: g.points.update(
                i,
                (name, PointModel { lookup, attrs: attr_merge(g.points[i].1.attrs, attrs) }),
            ),
            edges: g.edges,
        }
    } else {
        GraphModel {
            points: g.points.insert(
                lower_bound(g.points, name, text_order()),
                (name, PointModel { lookup, attrs: attr_merge(Seq::empty(), attrs) }),
            ),
            edges: g.edges,
        }
    }
}

/// `labels` with `label` appended unless it is empty.
pub open spec fn add_label(labels: Seq<Seq<char>>, label: Seq<char>) -> Seq<Seq<char>> {
    if label.len() > 0 {
        labels.push(label)
    } else {
        labels
    }
}

/// Adds an edge, or merges into the edge with these ends: a non-empty label
/// is appended and the attributes are merged.
pub open spec fn model_add_edge(
    g: GraphModel,
    src: Seq<char>,
    dest: Seq<char>,
    label: Seq<char>,
    attrs: AttrModel,
) -> GraphModel {
    let i = edge_index(g.edges, (src, dest));
    if i >= 0 {
        GraphModel {
            points: g.points,
            edges: g.edges.update(
                i,
                (
                    (src, dest),
                    EdgeModel {
                        labels: add_label(g.edges[i].1.labels, label),
                        attrs: attr_merge(g.edges[i].1.attrs, attrs),
                    },
                ),
            ),
        }
    } else {
        GraphModel {
            points: g.points,
            edges: g.edges.insert(
                lower_bound(g.edges, (src, dest), edge_order()),
                (
                    (src, dest),
                    EdgeModel {
                        labels: add_label(Seq::empty(), label),
                        attrs: attr_merge(Seq::empty(), attrs),
                    },
                ),
            ),
        }
    }
}

proof fn lemma_point_index(ps: Seq<(Seq<char>, PointModel)>, n: Seq<char>)
    requires
        sorted_by(ps, text_order()),
    ensures
        -1 <= point_index(ps, n) < ps.len(),
        point_index(ps, n) >= 0 ==> ps[point_index(ps, n)].0 == n,
        point_index(ps, n) < 0 ==> forall|i: int| 0 <= i < ps.len() ==> ps[i].0 != n,
{
    lemma_orders_strict();
    lemma_key_pos(ps, n, text_order());
}

proof fn lemma_edge_index(es: Seq<((Seq<char>, Seq<char>), EdgeModel)>, k: (Seq<char>, Seq<char>))
    requires
        sorted_by(es, edge_order()),
    ensures
        -1 <= edge_index(es, k) < es.len(),
        edge_index(es, k) >= 0 ==> es[edge_index(es, k)].0 == k,
        edge_index(es, k) < 0 ==> forall|i: int| 0 <= i < es.len() ==> es[i].0 != k,
{
    lemma_orders_strict();
    lemma_key_pos(es, k, edge_order());
}

proof fn lemma_add_point_ok(g: GraphModel, name: Seq<char>, lookup: bool, attrs: AttrModel)
    requires
        graph_ok(g),
    ensures
        graph_ok(model_add_point(g, name, lookup, attrs)),
{
    lemma_orders_strict();
    lemma_point_index(g.points, name);
    let i = point_index(g.points, name);
    let h = model_add_point(g, name, lookup, attrs);
    if i >= 0 {
        let pm = PointModel { lookup, attrs: attr_merge(g.points[i].1.attrs, attrs) };
        lemma_merge_sorted(g.points[i].1.attrs, attrs);
        lemma_update_sorted(g.points, i, pm, text_order());
        assert forall|j: int| 0 <= j < h.points.len() implies keys_sorted(#[trigger] h.points[j].1.attrs) by {
            if j != i {
                assert(h.points[j] == g.points[j]);
            }
        }
    } else {
        let pm = PointModel { lookup, attrs: attr_merge(Seq::empty(), attrs) };
        assert(keys_sorted(Seq::<(Seq<char>, Seq<char>)>::empty()));
        lemma_merge_sorted(Seq::empty(), attrs);
        lemma_upsert_sorted(g.points, name, pm, text_order());
        assert(h.points == upsert(g.points, name, pm, text_order()));
        let p = lower_bound(g.points, name, text_order());
        lemma_lower_bound(g.points, name, text_order());
        assert forall|j: int| 0 <= j < h.points.len() implies keys_sorted(#[trigger] h.points[j].1.attrs) by {
            if j < p {
                assert(h.points[j] == g.points[j]);
            } else if j > p {
                assert(h.points[j] == g.points[j - 1]);
            }
        }
    }
}

proof fn lemma_add_edge_ok(g: GraphModel, src: Seq<char>, dest: Seq<char>, label: Seq<char>, attrs: AttrModel)
    requires
        graph_ok(g),
    ensures
        graph_ok(model_add_edge(g, src, dest, label, attrs)),
{
    lemma_orders_strict();
    let k = (src, dest);
    lemma_edge_index(g.edges, k);
    let i = edge_index(g.edges, k);
    let h = model_add_edge(g, src, dest, label, attrs);
    if i >= 0 {
        let em = EdgeModel {
            labels: add_label(g.edges[i].1.labels, label),
            attrs: attr_merge(g.edges[i].1.attrs, attrs),
        };
        lemma_merge_sorted(g.edges[i].1.attrs, attrs);
        lemma_update_sorted(g.edges, i, em, edge_order());
        assert forall|j: int| 0 <= j < h.edges.len() implies keys_sorted(#[trigger] h.edges[j].1.attrs) by {
            if j != i {
                assert(h.edges[j] == g.edges[j]);
            }
        }
    } else {
        let em = EdgeModel { labels: add_label(Seq::empty(), label), attrs: attr_merge(Seq::empty(), attrs) };
        assert(keys_sorted(Seq::<(Seq<char>, Seq<char>)>::empty()));
        lemma_merge_sorted(Seq::empty(), attrs);
        lemma_upsert_sorted(g.edges, k, em, edge_order());
        assert(h.edges == upsert(g.edges, k, em, edge_order()));
        let p = lower_bound(g.edges, k, edge_order());
        lemma_lower_bound(g.edges, k, edge_order());
        assert forall|j: int| 0 <= j < h.edges.len() implies keys_sorted(#[trigger] h.edges[j].1.attrs) by {
            if j < p {
                assert(h.edges[j] == g.edges[j]);
            } else if j > p {
                assert(h.edges[j] == g.edges[j - 1]);
            }
        }
    }
}

/// A point of the graph.
#[derive(Debug)]
pub struct RoutePoint {
    pub perform_lookup: bool,
    pub attrs: RouteAttrs,
}

impl View for RoutePoint {
    type V = PointModel;

    open spec fn view(&self) -> PointModel {
        PointModel { lookup: self.perform_lookup, attrs: self.attrs@ }
    }
}

impl RoutePoint {
    pub fn new() -> (r: Self)
        ensures
            !r.perform_lookup,
            r.attrs@.len() == 0,
            r.attrs.wf(),
    {
        Self { perform_lookup: false, attrs: RouteAttrs::new() }
    }
}

/// The ends of an edge.
#[derive(Debug, Clone, Hash, Eq, PartialEq)]
pub struct RouteEdgeKey {
    pub src: String,
    pub dest: String,
}

/// An edge of the graph.
#[derive(Debug)]
pub struct RouteEdgeValue {
    pub label: Vec<String>,
    pub attrs: RouteAttrs,
}

impl View for RouteEdgeValue {
    type V = EdgeModel;

    open spec fn view(&self) -> EdgeModel {
        EdgeModel { labels: self.label@.map_values(|l: String| l@), attrs: self.attrs@ }
    }
}

impl RouteEdgeValue {
    pub fn new() -> (r: Self)
        ensures
            r.label@.len() == 0,
            r.attrs@.len() == 0,
            r.attrs.wf(),
    {
        Self { label: Vec::new(), attrs: RouteAttrs::new() }
    }
}

/// A directed graph of network elements: the destination, the servers that
/// answered, and the AS numbers on their paths.
#[derive(Debug)]
pub struct RouteGraph {
    points: Vec<(String, RoutePoint)>,
    edges: Vec<(RouteEdgeKey, RouteEdgeValue)>,
}

impl View for RouteGraph {
    type V = GraphModel;

    closed spec fn view(&self) -> GraphModel {
        GraphModel {
            points: self.points@.map_values(|e: (String, RoutePoint)| (e.0@, e.1@)),
            edges: self.edges@.map_values(
                |e: (RouteEdgeKey, RouteEdgeValue)| ((e.0.src@, e.0.dest@), e.1@),
            ),
        }
    }
}

impl RouteGraph {
    pub open spec fn wf(&self) -> bool {
        graph_ok(self@)
    }

    pub fn new() -> (r: Self)
        ensures
            r@.points.len() == 0,
            r@.edges.len() == 0,
            r.wf(),
    {
        let r = Self { points: Vec::new(), edges: Vec::new() };
        assert(r@.points =~= Seq::<(Seq<char>, PointModel)>::empty());
        assert(r@.edges =~= Seq::<((Seq<char>, Seq<char>), EdgeModel)>::empty());
        r
    }

    fn point_locate(&self, name: &str) -> (r: (usize, bool))
        ensures
            r.0 as int == lower_bound(self@.points, name@, text_order()),
            r.0 <= self.points@.len(),
            r.1 == (point_index(self@.points, name@) >= 0),
    {
        let ghost ps = self@.points;
        let mut j: usize = self.points.len();
        assert(ps.take(j as int) =~= ps);
        while j > 0 && !text_less(self.points[j - 1].0.as_str(), name)
            invariant
                j <= self.points@.len(),
                ps == self@.points,
                lower_bound(ps.take(j as int), name@, text_order()) == lower_bound(ps, name@, text_order()),
            decreases j,
        {
            assert(ps.take(j as int).last() == ps[j - 1]);
            assert(ps.take(j as int).drop_last() =~= ps.take(j - 1));
            j = j - 1;
        }
        proof {
            if j > 0 {
                assert(ps.take(j as int).last() == ps[j - 1]);
            }
        }
        let found = j < self.points.len() && same_text(self.points[j].0.as_str(), name);
        proof {
            if j < ps.len() {
                assert(ps[j as int].0 == self.points@[j as int].0@);
            }
        }
        (j, found)
    }

    fn edge_before(a: &RouteEdgeKey, src: &str, dest: &str) -> (r: bool)
        ensures
            r == edge_key_lt((a.src@, a.dest@), (src@, dest@)),
    {
        text_less(a.src.as_str(), src) || (same_text(a.src.as_str(), src) && text_less(a.dest.as_str(), dest))
    }

    fn edge_locate(&self, src: &str, dest: &str) -> (r: (usize, bool))
        ensures
            r.0 as int == lower_bound(self@.edges, (src@, dest@), edge_order()),
            r.0 <= self.edges@.len(),
            r.1 == (edge_index(self@.edges, (src@, dest@)) >= 0),
    {
        let ghost es = self@.edges;
        let ghost k = (src@, dest@);
        let mut j: usize = self.edges.len();
        assert(es.take(j as int) =~= es);
        while j > 0 && !Self::edge_before(&self.edges[j - 1].0, src, dest)
            invariant
                j <= self.edges@.len(),
                es == self@.edges,
                k == (src@, dest@),
                lower_bound(es.take(j as int), k, edge_order()) == lower_bound(es, k, edge_order()),
            decreases j,
        {
            assert(es.take(j as int).last() == es[j - 1]);
            assert(es.take(j as int).drop_last() =~= es.take(j - 1));
            j = j - 1;
        }
        proof {
            if j > 0 {
                assert(es.take(j as int).last() == es[j - 1]);
            }
        }
        let found = j < self.edges.len() && same_text(self.edges[j].0.src.as_str(), src) && same_text(
            self.edges[j].0.dest.as_str(),
            dest,
        );
        proof {
            if j < es.len() {
                assert(es[j as int].0 == (self.edges@[j as int].0.src@, self.edges@[j as int].0.dest@));
            }
        }
        (j, found)
    }

    fn point_position(&self, name: &str) -> (r: Option<usize>)
        ensures
            r is None ==> point_index(self@.points, name@) < 0,
            r matches Some(i) ==> i as int == point_index(self@.points, name@) && i < self.points@.len(),
    {
        let (j, found) = self.point_locate(name);
        if found {
            Some(j)
        } else {
            None
        }
    }

    fn edge_position(&self, src: &str, dest: &str) -> (r: Option<usize>)
        ensures
            r is None ==> edge_index(self@.edges, (src@, dest@)) < 0,
            r matches Some(i) ==> i as int == edge_index(self@.edges, (src@, dest@)) && i
                < self.edges@.len(),
    {
        let (j, found) = self.edge_locate(src, dest);
        if found {
            Some(j)
        } else {
            None
        }
    }

    /// Adds the point `name`, or merges into it.
    pub fn add_point(&mut self, name: String, perform_lookup: bool, attrs: RouteAttrs)
        requires
            old(self).wf(),
        ensures
            final(self).wf(),
            final(self)@ == model_add_point(old(self)@, name@, perform_lookup, attrs@),
    {
        let ghost g = self@;
        proof {
            lemma_point_index(g.points, name@);
            lemma_add_point_ok(g, name@, perform_lookup, attrs@);
        }
        let (i, found) = self.point_locate(name.as_str());
        if found {
            let (nm, mut pt) = self.points.remove(i);
            assert(pt@ == g.points[i as int].1);
            assert(keys_sorted(g.points[i as int].1.attrs));
            assert(pt.attrs.wf());
            pt.perform_lookup = perform_lookup;
            pt.attrs.merge(&attrs);
            self.points.insert(i, (nm, pt));
            assert(self@.points =~= model_add_point(g, name@, perform_lookup, attrs@).points);
            assert(self@.edges =~= g.edges);
        } else {
            let mut a = RouteAttrs::new();
            a.merge(&attrs);
            let ghost nv = name@;
            self.points.insert(i, (name, RoutePoint { perform_lookup, attrs: a }));
            assert(self@.points =~= model_add_point(g, nv, perform_lookup, attrs@).points);
            assert(self@.edges =~= g.edges);
        }
    }

    /// Adds the edge `src -> dest`, or merges into it.
    pub fn add_edge(&mut self, src: String, dest: String, label: String, attrs: RouteAttrs)
        requires
            old(self).wf(),
        ensures
            final(self).wf(),
            final(self)@ == model_add_edge(old(self)@, src@, dest@, label@, attrs@),
    {
        let ghost g = self@;
        let ghost k = (src@, dest@);
        proof {
            lemma_edge_index(g.edges, k);
            lemma_add_edge_ok(g, k.0, k.1, label@, attrs@);
        }
        let nonempty = !label.as_str().is_empty();
        proof {
            if !nonempty {
                assert(label@.len() == 0);
            }
        }
        let (i, found) = self.edge_locate(src.as_str(), dest.as_str());
        if found {
            let (key, mut ev) = self.edges.remove(i);
            assert(ev@ == g.edges[i as int].1);
            assert(keys_sorted(g.edges[i as int].1.attrs));
            assert(ev.attrs.wf());
            if nonempty {
                ev.label.push(label);
            }
            ev.attrs.merge(&attrs);
            self.edges.insert(i, (key, ev));
            assert(self@.edges[i as int].1.labels =~= model_add_edge(g, k.0, k.1, label@, attrs@).edges[i as int].1.labels);
            assert(self@.edges =~= model_add_edge(g, k.0, k.1, label@, attrs@).edges);
            assert(self@.points =~= g.points);
        } else {
            let ghost lv = label@;
            let mut ev = RouteEdgeValue::new();
            assert(ev.attrs@ =~= Seq::<(Seq<char>, Seq<char>)>::empty());
            if nonempty {
                ev.label.push(label);
            }
            ev.attrs.merge(&attrs);
            self.edges.insert(i, (RouteEdgeKey { src, dest }, ev));
            assert(self@.edges[i as int].1.labels =~= add_label(Seq::empty(), lv));
            assert(self@.edges =~= model_add_edge(g, k.0, k.1, lv, attrs@).edges);
            assert(self@.points =~= g.points);
        }
    }

    /// The point named `name`, if there is one.
    pub fn get_point(&self, name: &str) -> (r: Option<&RoutePoint>)
        ensures
            r is None <==> point_index(self@.points, name@) < 0,
            r matches Some(p) ==> p@ == self@.points[point_index(self@.points, name@)].1,
    {
        match self.point_position(name) {
            Some(i) => Some(&self.points[i].1),
            None => None,
        }
    }

    /// The edge `src -> dest`, if there is one.
    pub fn get_edge(&self, src: &str, dest: &str) -> (r: Option<&RouteEdgeValue>)
        ensures
            r is None <==> edge_index(self@.edges, (src@, dest@)) < 0,
            r matches Some(e) ==> e@ == self@.edges[edge_index(self@.edges, (src@, dest@))].1,
    {
        match self.edge_position(src, dest) {
            Some(i) => Some(&self.edges[i].1),
            None => None,
        }
    }
}


/// How one character stands inside a quoted DOT token.
pub open spec fn escape_char(c: char) -> Seq<char> {
    if c == '\\' {
        seq!['\\', '\\']
    } else if c == '"' {
        seq!['\\', '"']
    } else if c == '\n' {
        seq!['\\', 'n']
    } else if c == '\r' {
        seq!['\\', 'r']
    } else if c == '\t' {
        seq!['\\', 't']
    } else {
        seq![c]
    }
}

pub open spec fn escape_body(s: Seq<char>) -> Seq<char>
    decreases s.len(),
{
    if s.len() == 0 {
        Seq::empty()
    } else {
        escape_body(s.drop_last()) + escape_char(s.last())
    }
}

/// `s` as one quoted DOT token.
pub open spec fn quoted(s: Seq<char>) -> Seq<char> {
    seq!['"'] + escape_body(s) + seq!['"']
}

pub open spec fn attr_item(e: (Seq<char>, Seq<char>)) -> Seq<char> {
    quoted(e.0) + seq!['='] + quoted(e.1)
}

pub open spec fn attr_items(a: AttrModel) -> Seq<char>
    decreases a.len(),
{
    if a.len() == 0 {
        Seq::empty()
    } else if a.len() == 1 {
        attr_item(a[0])
    } else {
        attr_items(a.drop_last()) + seq![','] + attr_item(a.last())
    }
}

/// An attribute list `[k="v",...]`, or nothing for no attributes.
pub open spec fn attrs_text(a: AttrModel) -> Seq<char> {
    if a.len() == 0 {
        Seq::empty()
    } else {
        seq!['['] + attr_items(a) + seq![']']
    }
}

/// An attribute list after a space, or nothing for no attributes.
pub open spec fn attrs_part(a: AttrModel) -> Seq<char> {
    if a.len() == 0 {
        Seq::empty()
    } else {
        seq![' '] + attrs_text(a)
    }
}

/// The labels of an edge, one per line.
pub open spec fn join_lines(ls: Seq<Seq<char>>) -> Seq<char>
    decreases ls.len(),
{
    if ls.len() == 0 {
        Seq::empty()
    } else if ls.len() == 1 {
        ls[0]
    } else {
        join_lines(ls.drop_last()) + seq!['\n'] + ls.last()
    }
}

/// The text shown for an AS number.
pub open spec fn asn_label(asn: Seq<char>) -> Seq<char> {
    "AS"@ + asn
}

/// What a point shows: its AS label when it is looked up, else its name.
pub open spec fn point_repr(name: Seq<char>, p: PointModel) -> Seq<char> {
    if p.lookup {
        asn_label(name)
    } else {
        name
    }
}

pub open spec fn point_line(e: (Seq<char>, PointModel)) -> Seq<char> {
    "  "@ + quoted(e.0) + attrs_part(attr_insert(e.1.attrs, "label"@, point_repr(e.0, e.1))) + ";\n"@
}

pub open spec fn edge_attrs(e: EdgeModel) -> AttrModel {
    if e.labels.len() > 0 {
        attr_insert(e.attrs, "label"@, join_lines(e.labels))
    } else {
        e.attrs
    }
}

pub open spec fn edge_line(e: ((Seq<char>, Seq<char>), EdgeModel)) -> Seq<char> {
    "  "@ + quoted(e.0.0) + " -> "@ + quoted(e.0.1) + attrs_part(edge_attrs(e.1)) + ";\n"@
}

pub open spec fn points_text(ps: Seq<(Seq<char>, PointModel)>) -> Seq<char>
    decreases ps.len(),
{
    if ps.len() == 0 {
        Seq::empty()
    } else {
        points_text(ps.drop_last()) + point_line(ps.last())
    }
}

pub open spec fn edges_text(es: Seq<((Seq<char>, Seq<char>), EdgeModel)>) -> Seq<char>
    decreases es.len(),
{
    if es.len() == 0 {
        Seq::empty()
    } else {
        edges_text(es.drop_last()) + edge_line(es.last())
    }
}

/// The DOT document of a graph: a header, one line per point, one per edge.
pub open spec fn graph_text(g: GraphModel) -> Seq<char> {
    "digraph {\n"@ + "  rankdir=LR;\n"@ + "  node [shape=box];\n"@ + points_text(g.points)
        + edges_text(g.edges) + "}\n"@
}

/// The inside of a quoted token that cannot end early: every backslash starts
/// a two-character escape, and no bare quote, line break or carriage return
/// occurs.
pub open spec fn token_body_closed(e: Seq<char>) -> bool
    decreases e.len(),
{
    if e.len() == 0 {
        true
    } else if e[0] == '\\' {
        e.len() >= 2 && (e[1] == '\\' || e[1] == '"' || e[1] == 'n' || e[1] == 'r' || e[1] == 't')
            && token_body_closed(e.subrange(2, e.len() as int))
    } else if e[0] == '"' || e[0] == '\n' || e[0] == '\r' {
        false
    } else {
        token_body_closed(e.subrange(1, e.len() as int))
    }
}

proof fn lemma_closed_concat(a: Seq<char>, b: Seq<char>)
    requires
        token_body_closed(a),
        token_body_closed(b),
    ensures
        token_body_closed(a + b),
    decreases a.len(),
{
    if a.len() == 0 {
        assert(a + b =~= b);
    } else if a[0] == '\\' {
        lemma_closed_concat(a.subrange(2, a.len() as int), b);
        assert((a + b).subrange(2, (a + b).len() as int) =~= a.subrange(2, a.len() as int) + b);
    } else {
        lemma_closed_concat(a.subrange(1, a.len() as int), b);
        assert((a + b).subrange(1, (a + b).len() as int) =~= a.subrange(1, a.len() as int) + b);
    }
}

/// Escaping is injection-safe: whatever `s` holds (quotes, backslashes, line
/// breaks, markup), its quoted token closes only at its final quote, so text
/// taken from a daemon can never break out of its token in the document.
pub proof fn lemma_escaped_token_is_closed(s: Seq<char>)
    ensures
        token_body_closed(escape_body(s)),
        quoted(s)[0] == '"',
        quoted(s).last() == '"',
        quoted(s).subrange(1, quoted(s).len() - 1) == escape_body(s),
    decreases s.len(),
{
    if s.len() > 0 {
        lemma_escaped_token_is_closed(s.drop_last());
        let c = s.last();
        let e = escape_char(c);
        let empty = Seq::<char>::empty();
        assert(token_body_closed(empty));
        if c == '\\' || c == '"' || c == '\n' || c == '\r' || c == '\t' {
            assert(e.subrange(2, e.len() as int) =~= empty);
        } else {
            assert(e.subrange(1, e.len() as int) =~= empty);
        }
        assert(token_body_closed(e));
        lemma_closed_concat(escape_body(s.drop_last()), e);
    }
    assert(quoted(s).subrange(1, quoted(s).len() - 1) =~= escape_body(s));
}

/// Attribute lists are canonical: two lists sorted by name with the same
/// entries (the same name-to-value map) are the same list.
pub proof fn lemma_attrs_canonical(a: AttrModel, b: AttrModel)
    requires
        keys_sorted(a),
        keys_sorted(b),
        forall|e: (Seq<char>, Seq<char>)| a.contains(e) <==> b.contains(e),
    ensures
        a == b,
{
    lemma_orders_strict();
    lemma_sorted_same_entries(a, b, text_order());
}

/// The document depends on what a graph holds, not on the order it was built
/// in: two graphs with the same points and the same edges (each with the same
/// lookup flag, labels and attributes) give the same document.
pub proof fn lemma_document_ignores_insertion_order(g1: GraphModel, g2: GraphModel)
    requires
        graph_ok(g1),
        graph_ok(g2),
        forall|e: (Seq<char>, PointModel)| g1.points.contains(e) <==> g2.points.contains(e),
        forall|e: ((Seq<char>, Seq<char>), EdgeModel)| g1.edges.contains(e) <==> g2.edges.contains(e),
    ensures
        graph_text(g1) == graph_text(g2),
{
    lemma_orders_strict();
    lemma_sorted_same_entries(g1.points, g2.points, text_order());
    lemma_sorted_same_entries(g1.edges, g2.edges, edge_order());
    assert(g1 == g2);
}

/// How many line breaks `s` holds.
pub open spec fn line_breaks(s: Seq<char>) -> nat
    decreases s.len(),
{
    if s.len() == 0 {
        0
    } else {
        line_breaks(s.drop_last()) + if s.last() == '\n' {
            1nat
        } else {
            0nat
        }
    }
}

proof fn lemma_breaks_concat(a: Seq<char>, b: Seq<char>)
    ensures
        line_breaks(a + b) == line_breaks(a) + line_breaks(b),
    decreases b.len(),
{
    if b.len() == 0 {
        assert(a + b =~= a);
    } else {
        assert((a + b).drop_last() =~= a + b.drop_last());
        lemma_breaks_concat(a, b.drop_last());
    }
}

proof fn lemma_no_breaks(s: Seq<char>)
    requires
        forall|i: int| 0 <= i < s.len() ==> s[i] != '\n',
    ensures
        line_breaks(s) == 0,
    decreases s.len(),
{
    if s.len() > 0 {
        lemma_no_breaks(s.drop_last());
    }
}

proof fn lemma_one_break(s: Seq<char>)
    requires
        s.len() > 0,
        s.last() == '\n',
        forall|i: int| 0 <= i < s.len() - 1 ==> s[i] != '\n',
    ensures
        line_breaks(s) == 1,
{
    lemma_no_breaks(s.drop_last());
}

proof fn lemma_escape_no_breaks(s: Seq<char>)
    ensures
        line_breaks(escape_body(s)) == 0,
        line_breaks(quoted(s)) == 0,
    decreases s.len(),
{
    if s.len() > 0 {
        lemma_escape_no_breaks(s.drop_last());
        let e = escape_char(s.last());
        lemma_no_breaks(e);
        lemma_breaks_concat(escape_body(s.drop_last()), e);
    }
    lemma_no_breaks(seq!['"']);
    lemma_breaks_concat(seq!['"'], escape_body(s));
    lemma_breaks_concat(seq!['"'] + escape_body(s), seq!['"']);
}

proof fn lemma_attrs_no_breaks(a: AttrModel)
    ensures
        line_breaks(attr_items(a)) == 0,
        line_breaks(attrs_part(a)) == 0,
    decreases a.len(),
{
    if a.len() > 0 {
        let it = a.last();
        lemma_escape_no_breaks(it.0);
        lemma_escape_no_breaks(it.1);
        lemma_no_breaks(seq!['=']);
        lemma_breaks_concat(quoted(it.0), seq!['=']);
        lemma_breaks_concat(quoted(it.0) + seq!['='], quoted(it.1));
        assert(line_breaks(attr_item(it)) == 0);
        if a.len() == 1 {
            assert(a[0] == it);
        } else {
            lemma_attrs_no_breaks(a.drop_last());
            lemma_no_breaks(seq![',']);
            lemma_breaks_concat(attr_items(a.drop_last()), seq![',']);
            lemma_breaks_concat(attr_items(a.drop_last()) + seq![','], attr_item(it));
        }
        lemma_no_breaks(seq![' ', '[']);
        lemma_no_breaks(seq![']']);
        assert(seq![' '] + (seq!['['] + attr_items(a) + seq![']']) =~= seq![' ', '['] + attr_items(a) + seq![']']);
        lemma_breaks_concat(seq![' ', '['], attr_items(a));
        lemma_breaks_concat(seq![' ', '['] + attr_items(a), seq![']']);
    } else {
        lemma_no_breaks(attrs_part(a));
    }
}

proof fn lemma_literal_breaks()
    ensures
        line_breaks("  "@) == 0,
        line_breaks(" -> "@) == 0,
        line_breaks(";\n"@) == 1,
        line_breaks("digraph {\n"@) == 1,
        line_breaks("  rankdir=LR;\n"@) == 1,
        line_breaks("  node [shape=box];\n"@) == 1,
        line_breaks("}\n"@) == 1,
{
    reveal_strlit("  ");
    reveal_strlit(" -> ");
    reveal_strlit(";\n");
    reveal_strlit("digraph {\n");
    reveal_strlit("  rankdir=LR;\n");
    reveal_strlit("  node [shape=box];\n");
    reveal_strlit("}\n");
    lemma_no_breaks("  "@);
    lemma_no_breaks(" -> "@);
    lemma_one_break(";\n"@);
    lemma_one_break("digraph {\n"@);
    lemma_one_break("  rankdir=LR;\n"@);
    lemma_one_break("  node [shape=box];\n"@);
    lemma_one_break("}\n"@);
}

proof fn lemma_point_line_breaks(e: (Seq<char>, PointModel))
    ensures
        line_breaks(point_line(e)) == 1,
{
    lemma_literal_breaks();
    let a = attrs_part(attr_insert(e.1.attrs, "label"@, point_repr(e.0, e.1)));
    lemma_escape_no_breaks(e.0);
    lemma_attrs_no_breaks(attr_insert(e.1.attrs, "label"@, point_repr(e.0, e.1)));
    lemma_breaks_concat("  "@, quoted(e.0));
    lemma_breaks_concat("  "@ + quoted(e.0), a);
    lemma_breaks_concat("  "@ + quoted(e.0) + a, ";\n"@);
}

proof fn lemma_edge_line_breaks(e: ((Seq<char>, Seq<char>), EdgeModel))
    ensures
        line_breaks(edge_line(e)) == 1,
{
    lemma_literal_breaks();
    let a = attrs_part(edge_attrs(e.1));
    lemma_escape_no_breaks(e.0.0);
    lemma_escape_no_breaks(e.0.1);
    lemma_attrs_no_breaks(edge_attrs(e.1));
    lemma_breaks_concat("  "@, quoted(e.0.0));
    lemma_breaks_concat("  "@ + quoted(e.0.0), " -> "@);
    lemma_breaks_concat("  "@ + quoted(e.0.0) + " -> "@, quoted(e.0.1));
    lemma_breaks_concat("  "@ + quoted(e.0.0) + " -> "@ + quoted(e.0.1), a);
    lemma_breaks_concat("  "@ + quoted(e.0.0) + " -> "@ + quoted(e.0.1) + a, ";\n"@);
}

proof fn lemma_points_text_breaks(ps: Seq<(Seq<char>, PointModel)>)
    ensures
        line_breaks(points_text(ps)) == ps.len(),
    decreases ps.len(),
{
    if ps.len() > 0 {
        lemma_points_text_breaks(ps.drop_last());
        lemma_point_line_breaks(ps.last());
        lemma_breaks_concat(points_text(ps.drop_last()), point_line(ps.last()));
    } else {
        lemma_no_breaks(points_text(ps));
    }
}

proof fn lemma_edges_text_breaks(es: Seq<((Seq<char>, Seq<char>), EdgeModel)>)
    ensures
        line_breaks(edges_text(es)) == es.len(),
    decreases es.len(),
{
    if es.len() > 0 {
        lemma_edges_text_breaks(es.drop_last());
        lemma_edge_line_breaks(es.last());
        lemma_breaks_concat(edges_text(es.drop_last()), edge_line(es.last()));
    } else {
        lemma_no_breaks(edges_text(es));
    }
}

/// No input adds a statement to the document: whatever the names, labels
/// and attribute values hold (line breaks included), the document has one
/// line per point, one per edge, and four more (three of header, the closing
/// brace), each ended by a line break.
pub proof fn lemma_document_lines(g: GraphModel)
    ensures
        line_breaks(graph_text(g)) == 4 + g.points.len() + g.edges.len(),
        graph_text(g).last() == '\n',
{
    lemma_literal_breaks();
    lemma_points_text_breaks(g.points);
    lemma_edges_text_breaks(g.edges);
    let h1 = "digraph {\n"@;
    let h2 = "  rankdir=LR;\n"@;
    let h3 = "  node [shape=box];\n"@;
    let p = points_text(g.points);
    let e = edges_text(g.edges);
    lemma_breaks_concat(h1, h2);
    lemma_breaks_concat(h1 + h2, h3);
    lemma_breaks_concat(h1 + h2 + h3, p);
    lemma_breaks_concat(h1 + h2 + h3 + p, e);
    lemma_breaks_concat(h1 + h2 + h3 + p + e, "}\n"@);
    reveal_strlit("}\n");
}

/// Appends the escaped form of `s`.
fn escape_into(out: &mut Vec<char>, s: &[char])
    ensures
        final(out)@ == old(out)@ + escape_body(s@),
{
    let mut i: usize = 0;
    while i < s.len()
        invariant
            i <= s@.len(),
            out@ == old(out)@ + escape_body(s@.take(i as int)),
        decreases s@.len() - i,
    {
        let c = s[i];
        if c == '\\' {
            out.push('\\');
            out.push('\\');
        } else if c == '"' {
            out.push('\\');
            out.push('"');
        } else if c == '\n' {
            out.push('\\');
            out.push('n');
        } else if c == '\r' {
            out.push('\\');
            out.push('r');
        } else if c == '\t' {
            out.push('\\');
            out.push('t');
        } else {
            out.push(c);
        }
        assert(s@.take(i + 1).drop_last() =~= s@.take(i as int));
        i = i + 1;
        assert(out@ =~= old(out)@ + escape_body(s@.take(i as int)));
    }
    assert(s@.take(i as int) =~= s@);
}

fn quote_into(out: &mut Vec<char>, s: &str)
    ensures
        final(out)@ == old(out)@ + quoted(s@),
{
    let cs = text_chars(s);
    out.push('"');
    escape_into(out, cs.as_slice());
    out.push('"');
    assert(out@ =~= old(out)@ + quoted(s@));
}

fn attr_items_into(out: &mut Vec<char>, a: &RouteAttrs)
    ensures
        final(out)@ == old(out)@ + attr_items(a@),
{
    let n = a.attrs.len();
    let mut i: usize = 0;
    while i < n
        invariant
            i <= n == a@.len(),
            out@ == old(out)@ + attr_items(a@.take(i as int)),
        decreases n - i,
    {
        let ghost before = out@;
        if i > 0 {
            out.push(',');
        }
        quote_into(out, a.attrs[i].0.as_str());
        out.push('=');
        quote_into(out, a.attrs[i].1.as_str());
        assert(a@[i as int] == (a.attrs@[i as int].0@, a.attrs@[i as int].1@));
        assert(a@.take(i + 1).drop_last() =~= a@.take(i as int));
        assert(a@.take(i + 1).last() == a@[i as int]);
        i = i + 1;
        assert(out@ =~= old(out)@ + attr_items(a@.take(i as int)));
    }
    assert(a@.take(i as int) =~= a@);
}

fn attrs_part_into(out: &mut Vec<char>, a: &RouteAttrs)
    ensures
        final(out)@ == old(out)@ + attrs_part(a@),
{
    if a.attrs.len() > 0 {
        out.push(' ');
        out.push('[');
        attr_items_into(out, a);
        out.push(']');
        assert(out@ =~= old(out)@ + attrs_part(a@));
    } else {
        assert(out@ =~= old(out)@ + attrs_part(a@));
    }
}

fn join_labels(ls: &Vec<String>) -> (r: String)
    ensures
        r@ == join_lines(ls@.map_values(|l: String| l@)),
{
    let ghost m = ls@.map_values(|l: String| l@);
    let mut out: Vec<char> = Vec::new();
    let mut i: usize = 0;
    while i < ls.len()
        invariant
            i <= ls@.len(),
            m == ls@.map_values(|l: String| l@),
            out@ == join_lines(m.take(i as int)),
        decreases ls@.len() - i,
    {
        if i > 0 {
            out.push('\n');
        }
        push_str(&mut out, ls[i].as_str());
        assert(m.take(i + 1).drop_last() =~= m.take(i as int));
        assert(m.take(i + 1).last() == ls@[i as int]@);
        i = i + 1;
        assert(i == 1 ==> m.take(i as int)[0] == ls@[0]@);
        assert(out@ =~= join_lines(m.take(i as int)));
    }
    assert(m.take(i as int) =~= m);
    text_from_chars(out.as_slice())
}

impl RouteGraph {
    /// `s` as one quoted DOT token, with backslash, quote, newline, carriage
    /// return and tab escaped.
    pub fn escape(&self, s: &str) -> (r: String)
        ensures
            r@ == quoted(s@),
    {
        let mut out: Vec<char> = Vec::new();
        quote_into(&mut out, s);
        assert(out@ =~= quoted(s@));
        text_from_chars(out.as_slice())
    }

    /// An attribute list `[k="v",...]` with every name and value quoted and
    /// escaped, or the empty string.
    pub fn attrs_to_string(&self, attrs: &RouteAttrs) -> (r: String)
        ensures
            r@ == attrs_text(attrs@),
    {
        let mut out: Vec<char> = Vec::new();
        if attrs.attrs.len() > 0 {
            out.push('[');
            attr_items_into(&mut out, attrs);
            out.push(']');
        }
        assert(out@ =~= attrs_text(attrs@));
        text_from_chars(out.as_slice())
    }

    /// The graph as a DOT document.
    #[verifier::rlimit(60)]
    pub fn to_graphviz(&self) -> (r: String)
        requires
            self.wf(),
        ensures
            r@ == graph_text(self@),
    {
        let ghost g = self@;
        let mut asn_cache = ASNCache::new();
        let mut out: Vec<char> = Vec::new();
        push_str(&mut out, "digraph {\n");
        push_str(&mut out, "  rankdir=LR;\n");
        push_str(&mut out, "  node [shape=box];\n");
        let ghost head = out@;
        let mut i: usize = 0;
        while i < self.points.len()
            invariant
                i <= self.points@.len(),
                g == self@,
                graph_ok(g),
                asn_cache.wf(),
                out@ == head + points_text(g.points.take(i as int)),
            decreases self.points@.len() - i,
        {
            let name = &self.points[i].0;
            let point = &self.points[i].1;
            assert(g.points[i as int] == (name@, point@));
            let representation = if point.perform_lookup {
                asn_cache.lookup(name.as_str())
            } else {
                name.clone()
            };
            let mut attrs_copy = point.attrs.duplicate();
            assert(keys_sorted(g.points[i as int].1.attrs));
            let label_key = owned("label");
            attrs_copy.insert(label_key, representation);
            push_str(&mut out, "  ");
            quote_into(&mut out, name.as_str());
            attrs_part_into(&mut out, &attrs_copy);
            push_str(&mut out, ";\n");
            assert(g.points.take(i + 1).drop_last() =~= g.points.take(i as int));
            i = i + 1;
            assert(out@ =~= head + points_text(g.points.take(i as int)));
        }
        assert(g.points.take(i as int) =~= g.points);
        let ghost mid = out@;
        let mut j: usize = 0;
        while j < self.edges.len()
            invariant
                j <= self.edges@.len(),
                g == self@,
                graph_ok(g),
                out@ == mid + edges_text(g.edges.take(j as int)),
            decreases self.edges@.len() - j,
        {
            let key = &self.edges[j].0;
            let edge = &self.edges[j].1;
            assert(g.edges[j as int] == ((key.src@, key.dest@), edge@));
            let mut attrs_copy = edge.attrs.duplicate();
            assert(keys_sorted(g.edges[j as int].1.attrs));
            if edge.label.len() > 0 {
                let joined = join_labels(&edge.label);
                let label_key = owned("label");
                attrs_copy.insert(label_key, joined);
            }
            push_str(&mut out, "  ");
            quote_into(&mut out, key.src.as_str());
            push_str(&mut out, " -> ");
            quote_into(&mut out, key.dest.as_str());
            attrs_part_into(&mut out, &attrs_copy);
            push_str(&mut out, ";\n");
            assert(g.edges.take(j + 1).drop_last() =~= g.edges.take(j as int));
            j = j + 1;
            assert(out@ =~= mid + edges_text(g.edges.take(j as int)));
        }
        assert(g.edges.take(j as int) =~= g.edges);
        push_str(&mut out, "}\n");
        assert(out@ =~= graph_text(g));
        text_from_chars(out.as_slice())
    }
}

/// Labels for AS numbers, each computed once per serialisation.
#[derive(Debug)]
pub struct ASNCache {
    cache: Vec<(String, String)>,
}

impl ASNCache {
    /// The labels computed so far, as (AS number, label).
    pub closed spec fn entries(&self) -> Seq<(Seq<char>, Seq<char>)> {
        self.cache@.map_values(|e: (String, String)| (e.0@, e.1@))
    }

    /// Every cached label is the label of its AS number.
    pub open spec fn wf(&self) -> bool {
        forall|i: int| 0 <= i < self.entries().len() ==> #[trigger] self.entries()[i].1 == asn_label(
            self.entries()[i].0,
        )
    }

    pub fn new() -> (r: Self)
        ensures
            r.wf(),
            r.entries().len() == 0,
    {
        let r = Self { cache: Vec::new() };
        assert(r.entries() =~= Seq::<(Seq<char>, Seq<char>)>::empty());
        r
    }

    /// The label of `asn`, computed once: a repeated lookup is answered from
    /// the cache and leaves it unchanged.
    pub fn lookup(&mut self, asn: &str) -> (r: String)
        requires
            old(self).wf(),
        ensures
            final(self).wf(),
            r@ == asn_label(asn@),
            final(self).entries().contains((asn@, asn_label(asn@))),
            old(self).entries().contains((asn@, asn_label(asn@))) ==> final(self).entries() == old(
                self,
            ).entries(),
            !old(self).entries().contains((asn@, asn_label(asn@))) ==> final(self).entries() == old(
                self,
            ).entries().push((asn@, asn_label(asn@))),
    {
        let ghost e0 = self.entries();
        let mut i: usize = 0;
        while i < self.cache.len()
            invariant
                i <= self.cache@.len(),
                self.wf(),
                e0 == self.entries(),
                forall|k: int| 0 <= k < i ==> #[trigger] e0[k].0 != asn@,
            decreases self.cache@.len() - i,
        {
            assert(e0[i as int] == (self.cache@[i as int].0@, self.cache@[i as int].1@));
            if same_text(self.cache[i].0.as_str(), asn) {
                assert(e0[i as int].1 == asn_label(e0[i as int].0));
                assert(e0[i as int] == (asn@, asn_label(asn@)));
                return self.cache[i].1.clone();
            }
            i = i + 1;
        }
        assert(!e0.contains((asn@, asn_label(asn@)))) by {
            if e0.contains((asn@, asn_label(asn@))) {
                let k = choose|k: int| 0 <= k < e0.len() && e0[k] == (asn@, asn_label(asn@));
                assert(e0[k].0 != asn@);
            }
        }
        let mut out: Vec<char> = Vec::new();
        push_str(&mut out, "AS");
        push_str(&mut out, asn);
        let result = text_from_chars(out.as_slice());
        self.cache.push((owned(asn), result.clone()));
        assert(self.entries() =~= e0.push((asn@, asn_label(asn@))));
        assert(self.entries().last() == (asn@, asn_label(asn@)));
        assert(self.entries().contains((asn@, asn_label(asn@))));
        assert forall|k: int| 0 <= k < self.entries().len() implies #[trigger] self.entries()[k].1 == asn_label(
            self.entries()[k].0,
        ) by {
            if k < e0.len() {
                assert(self.entries()[k] == e0[k]);
            }
        }
        result
    }
}

/// The attributes of an edge drawn for a route: highlighted when preferred.
pub open spec fn edge_style(preferred: bool) -> AttrModel {
    if preferred {
        seq![("color"@, "red"@), ("fontsize"@, "12.0"@)]
    } else {
        seq![("fontsize"@, "12.0"@)]
    }
}

/// The attributes of an AS point on a route: highlighted when preferred.
pub open spec fn point_style(preferred: bool) -> AttrModel {
    if preferred {
        seq![("color"@, "red"@)]
    } else {
        Seq::empty()
    }
}

pub open spec fn target_style() -> AttrModel {
    seq![("color"@, "red"@), ("shape"@, "diamond"@)]
}

pub open spec fn server_style() -> AttrModel {
    seq![("color"@, "blue"@), ("shape"@, "box"@)]
}

/// A route entry is the daemon's preferred one when it holds a `*`.
pub open spec fn route_preferred(r: Seq<char>) -> bool {
    has_char(r, '*')
}

/// The trimmed protocol name, with `*` after it on a preferred route.
pub open spec fn protocol_label(r: Seq<char>) -> Seq<char> {
    match protocol_capture(r) {
        Some(c) => if route_preferred(r) {
            trim(c) + "*"@
        } else {
            trim(c)
        },
        None => Seq::empty(),
    }
}

/// The label of the first edge of a route: protocol and next hop on two lines, trimmed.
pub open spec fn route_label(r: Seq<char>) -> Seq<char> {
    trim(protocol_label(r) + seq!['\n'] + via_text(r))
}

pub open spec fn empty_graph() -> GraphModel {
    GraphModel { points: Seq::empty(), edges: Seq::empty() }
}

/// The first `n` hops of a path: each an edge from the previous hop (the server
/// for the first, which carries the label) and a point to be looked up.
pub open spec fn add_path_edges(
    g: GraphModel,
    server: Seq<char>,
    path: Seq<Seq<char>>,
    label: Seq<char>,
    preferred: bool,
    n: int,
) -> GraphModel
    decreases n,
{
    if n <= 0 {
        g
    } else {
        let g1 = add_path_edges(g, server, path, label, preferred, n - 1);
        let i = n - 1;
        let src = if i == 0 {
            server
        } else {
            path[i - 1]
        };
        let lab = if i == 0 {
            label
        } else {
            Seq::empty()
        };
        model_add_point(
            model_add_edge(g1, src, path[i], lab, edge_style(preferred)),
            path[i],
            true,
            point_style(preferred),
        )
    }
}

/// One route entry: a direct edge to the target when it has no AS path, else
/// the path's hops and an edge from the last hop to the target.
pub open spec fn add_route(g: GraphModel, server: Seq<char>, target: Seq<char>, r: Seq<char>) -> GraphModel {
    let preferred = route_preferred(r);
    let path = as_path(r);
    if path.len() == 0 {
        model_add_edge(g, server, target, route_label(r), edge_style(preferred))
    } else {
        model_add_edge(
            add_path_edges(g, server, path, route_label(r), preferred, path.len() as int),
            path.last(),
            target,
            Seq::empty(),
            edge_style(preferred),
        )
    }
}

pub open spec fn add_routes(g: GraphModel, server: Seq<char>, target: Seq<char>, rs: Seq<Seq<char>>) -> GraphModel
    decreases rs.len(),
{
    if rs.len() == 0 {
        g
    } else {
        add_route(add_routes(g, server, target, rs.drop_last()), server, target, rs.last())
    }
}

/// One server's answer: nothing when empty, else the server's point and every
/// route entry after the table header.
pub open spec fn add_server(g: GraphModel, server: Seq<char>, response: Seq<char>, target: Seq<char>) -> GraphModel {
    if response.len() == 0 {
        g
    } else {
        add_routes(
            model_add_point(g, server, false, server_style()),
            server,
            target,
            route_pieces(response).drop_first(),
        )
    }
}

/// The first `n` servers, each with the response at its index, if any.
pub open spec fn add_servers(
    g: GraphModel,
    servers: Seq<Seq<char>>,
    responses: Seq<Seq<char>>,
    target: Seq<char>,
    n: int,
) -> GraphModel
    decreases n,
{
    if n <= 0 {
        g
    } else {
        let g1 = add_servers(g, servers, responses, target, n - 1);
        if n - 1 < responses.len() {
            add_server(g1, servers[n - 1], responses[n - 1], target)
        } else {
            g1
        }
    }
}

/// The graph built from the servers' route dumps for `target`.
pub open spec fn route_graph(servers: Seq<Seq<char>>, responses: Seq<Seq<char>>, target: Seq<char>) -> GraphModel {
    add_servers(
        model_add_point(empty_graph(), target, false, target_style()),
        servers,
        responses,
        target,
        servers.len() as int,
    )
}

fn make_edge_attrs(preferred: bool) -> (r: RouteAttrs)
    ensures
        r.wf(),
        r@ == edge_style(preferred),
{
    if preferred {
        proof {
            reveal_strlit("color");
            reveal_strlit("fontsize");
            assert(text_lt("color"@, "fontsize"@));
        }
        make_pair_attrs("color", "red", "fontsize", "12.0")
    } else {
        let mut attrs = RouteAttrs::new();
        attrs.insert(owned("fontsize"), owned("12.0"));
        assert(attrs@ =~= seq![("fontsize"@, "12.0"@)]);
        attrs
    }
}

fn make_point_attrs(preferred: bool) -> (r: RouteAttrs)
    ensures
        r.wf(),
        r@ == point_style(preferred),
{
    let mut attrs = RouteAttrs::new();
    if preferred {
        attrs.insert(owned("color"), owned("red"));
        assert(attrs@ =~= point_style(preferred));
    }
    assert(attrs@ =~= point_style(preferred));
    attrs
}

fn make_pair_attrs(k1: &str, v1: &str, k2: &str, v2: &str) -> (r: RouteAttrs)
    requires
        text_lt(k1@, k2@),
    ensures
        r.wf(),
        r@ == seq![(k1@, v1@), (k2@, v2@)],
{
    let mut attrs = RouteAttrs::new();
    attrs.insert(owned(k1), owned(v1));
    assert(attrs@ =~= seq![(k1@, v1@)]);
    assert(attrs@.drop_last() =~= Seq::<(Seq<char>, Seq<char>)>::empty());
    assert(attrs@.last().0 == k1@);
    assert(lower_bound(attrs@, k2@, text_order()) == 1);
    assert(key_index(attrs@, k2@) == -1);
    attrs.insert(owned(k2), owned(v2));
    assert(attrs@ =~= seq![(k1@, v1@), (k2@, v2@)]);
    attrs
}

fn strings_of(v: &Vec<Vec<char>>) -> (r: Vec<String>)
    ensures
        r@.map_values(|s: String| s@) == v@.map_values(|w: Vec<char>| w@),
{
    let mut r: Vec<String> = Vec::new();
    let mut i: usize = 0;
    while i < v.len()
        invariant
            i <= v@.len(),
            r@.map_values(|s: String| s@) =~= v@.map_values(|w: Vec<char>| w@).take(i as int),
        decreases v@.len() - i,
    {
        let ghost before = r@.map_values(|s: String| s@);
        r.push(text_from_chars(v[i].as_slice()));
        assert(r@.map_values(|s: String| s@) =~= before.push(v@[i as int]@));
        i = i + 1;
        assert(r@.map_values(|s: String| s@) =~= v@.map_values(|w: Vec<char>| w@).take(i as int));
    }
    assert(v@.map_values(|w: Vec<char>| w@).take(i as int) =~= v@.map_values(|w: Vec<char>| w@));
    r
}

fn route_label_of(route: &[char]) -> (r: String)
    ensures
        r@ == route_label(route@),
{
    let preferred = contains_char(route, '*');
    let mut label: Vec<char> = Vec::new();
    match extract_protocol(route) {
        Some(c) => {
            label = trim_chars(c.as_slice());
            if preferred {
                label.push('*');
                proof {
                    reveal_strlit("*");
                }
            }
        },
        None => {},
    }
    assert(label@ =~= protocol_label(route@));
    label.push('\n');
    let via = extract_via(route);
    push_all(&mut label, via.as_slice());
    assert(label@ =~= protocol_label(route@) + seq!['\n'] + via_text(route@));
    let t = trim_chars(label.as_slice());
    text_from_chars(t.as_slice())
}

fn add_route_to(graph: &mut RouteGraph, server: &String, target: &str, route: &[char])
    requires
        old(graph).wf(),
    ensures
        final(graph).wf(),
        final(graph)@ == add_route(old(graph)@, server@, target@, route@),
{
    let preferred = contains_char(route, '*');
    let label = route_label_of(route);
    let path_chars = extract_as_path(route);
    let paths = strings_of(&path_chars);
    let ghost path = as_path(route@);
    assert(paths@.map_values(|s: String| s@) == path);
    if paths.len() == 0 {
        graph.add_edge(server.clone(), owned(target), label, make_edge_attrs(preferred));
        return;
    }
    let ghost g0 = graph@;
    let mut i: usize = 0;
    while i < paths.len()
        invariant
            i <= paths@.len(),
            paths@.len() == path.len(),
            forall|k: int| 0 <= k < paths@.len() ==> #[trigger] paths@[k]@ == path[k],
            graph.wf(),
            graph@ == add_path_edges(g0, server@, path, label@, preferred, i as int),
        decreases paths@.len() - i,
    {
        let src = if i == 0 {
            server.clone()
        } else {
            paths[i - 1].clone()
        };
        let lab = if i == 0 {
            label.clone()
        } else {
            String::new()
        };
        assert(i > 0 ==> paths@[i - 1]@ == path[i - 1]);
        assert(paths@[i as int]@ == path[i as int]);
        graph.add_edge(src, paths[i].clone(), lab, make_edge_attrs(preferred));
        graph.add_point(paths[i].clone(), true, make_point_attrs(preferred));
        i = i + 1;
    }
    let last = paths.len() - 1;
    assert(paths@[last as int]@ == path.last());
    graph.add_edge(paths[last].clone(), owned(target), String::new(), make_edge_attrs(preferred));
}

/// Builds the AS-path graph of the servers' route dumps for `target`: the
/// response at index `i` belongs to the server at index `i`.
pub fn bird_route_to_graph(servers: &[String], responses: &[String], target: &str) -> (r: RouteGraph)
    ensures
        r.wf(),
        r@ == route_graph(
            servers@.map_values(|s: String| s@),
            responses@.map_values(|s: String| s@),
            target@,
        ),
{
    let ghost sv = servers@.map_values(|s: String| s@);
    let ghost rv = responses@.map_values(|s: String| s@);
    let mut graph = RouteGraph::new();
    proof {
        reveal_strlit("color");
        reveal_strlit("shape");
        assert(text_lt("color"@, "shape"@));
    }
    graph.add_point(owned(target), false, make_pair_attrs("color", "red", "shape", "diamond"));
    assert(graph@.points =~= model_add_point(empty_graph(), target@, false, target_style()).points);
    assert(graph@.edges =~= model_add_point(empty_graph(), target@, false, target_style()).edges);
    let ghost g0 = graph@;
    let mut server_id: usize = 0;
    while server_id < servers.len()
        invariant
            server_id <= servers@.len(),
            sv == servers@.map_values(|s: String| s@),
            rv == responses@.map_values(|s: String| s@),
            graph.wf(),
            graph@ == add_servers(g0, sv, rv, target@, server_id as int),
        decreases servers@.len() - server_id,
    {
        let ghost before = graph@;
        if server_id < responses.len() {
            let response = &responses[server_id];
            let server = &servers[server_id];
            assert(sv[server_id as int] == server@);
            assert(rv[server_id as int] == response@);
            if !response.as_str().is_empty() {
                proof {
                    reveal_strlit("color");
                    reveal_strlit("shape");
                    assert(text_lt("color"@, "shape"@));
                }
                graph.add_point(server.clone(), false, make_pair_attrs("color", "blue", "shape", "box"));
                let ghost g1 = graph@;
                let chars = text_chars(response.as_str());
                let routes = split_routes(chars.as_slice());
                let ghost rs = route_pieces(response@);
                assert(routes@.map_values(|w: Vec<char>| w@) == rs);
                proof {
                    lemma_pieces_nonempty(response@, 0, 0);
                }
                let mut route_index: usize = 1;
                assert(rs.subrange(1, 1) =~= Seq::<Seq<char>>::empty());
                while route_index < routes.len()
                    invariant
                        1 <= route_index <= routes@.len(),
                        rs == routes@.map_values(|w: Vec<char>| w@),
                        graph.wf(),
                        graph@ == add_routes(g1, server@, target@, rs.subrange(1, route_index as int)),
                    decreases routes@.len() - route_index,
                {
                    assert(rs[route_index as int] == routes@[route_index as int]@);
                    add_route_to(&mut graph, server, target, routes[route_index].as_slice());
                    assert(rs.subrange(1, route_index + 1).drop_last() =~= rs.subrange(
                        1,
                        route_index as int,
                    ));
                    route_index = route_index + 1;
                }
                assert(rs.subrange(1, rs.len() as int) =~= rs.drop_first());
            }
        }
        server_id = server_id + 1;
    }
    graph
}

/// The DOT document of the graph built from the servers' route dumps.
pub fn bird_route_to_graphviz(servers: &[String], responses: &[String], target: &str) -> (r: String)
    ensures
        r@ == graph_text(
            route_graph(
                servers@.map_values(|s: String| s@),
                responses@.map_values(|s: String| s@),
                target@,
            ),
        ),
{
    let graph = bird_route_to_graph(servers, responses, target);
    graph.to_graphviz()
}

} // verus!
