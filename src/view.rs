use vstd::prelude::*;

use crate::entities::EdgeStore;
use crate::layer_ids::LayerIds;
use crate::prop::Prop;
use crate::persistent::{edge_active, include_edge_window, is_edge_active, persistent_includes};
use crate::persistent::next_t_exec;
use crate::storage::{edge_idx, layer_named, lemma_edge_unique, lemma_node_unique, node_of, GraphError, GraphStorage};
use crate::edge_view::EdgeView;
use crate::node_view::NodeView;
use crate::persistent::{clamp, count_in_layers, edge_exploded_count, edge_exploded_count_window, exploded_count_upto, exploded_count_window_upto, edge_additions_count};
use crate::time_index::{any_in, first_of, hi_of, last_of, lo_of, TimeIndexEntry};

verus! {

/// Whether some selected layer of `e` holds an update: an addition, or for a
/// persistent graph a deletion.
pub open spec fn has_update(e: &EdgeStore, layers: &LayerIds, persistent: bool) -> bool {
    exists|l: usize| layers.selects(l) && #[trigger] layer_has_update(e, l as int, persistent)
}

/// Whether layer `l` of `e` holds an addition, or for a persistent graph a deletion.
pub open spec fn layer_has_update(e: &EdgeStore, l: int, persistent: bool) -> bool {
    e.adds(l).len() > 0 || (persistent && e.dels(l).len() > 0)
}

/// Whether edge `e` belongs in a view with the given semantics, window and layers.
pub open spec fn edge_in_view(e: &EdgeStore, persistent: bool, w: Option<(i64, i64)>, layers: &LayerIds) -> bool {
    match w {
        None => has_update(e, layers, persistent),
        Some((lo, hi)) => lo < hi && if persistent {
            persistent_includes(e, lo, hi, layers)
        } else {
            is_edge_active(e, layers, lo as int, hi as int)
        },
    }
}

/// Whether node `v` belongs in a view: in a window, an event graph holds the
/// nodes with an event in it, a persistent graph those that exist by its end.
pub open spec fn node_in_view(g: &GraphStorage, v: int, persistent: bool, w: Option<(i64, i64)>) -> bool {
    match w {
        None => true,
        Some((lo, hi)) => lo < hi && if persistent {
            g.nodes@[v].timestamps@.len() > 0 && g.nodes@[v].timestamps@[0].t <= hi
        } else {
            any_in(g.nodes@[v].timestamps@, lo as int, hi as int)
        },
    }
}

/// The number of edges below `n` in the view.
pub open spec fn count_in_view(g: &GraphStorage, persistent: bool, w: Option<(i64, i64)>, layers: &LayerIds, n: int) -> nat
    decreases n,
{
    if n <= 0 {
        0
    } else {
        count_in_view(g, persistent, w, layers, n - 1) + if edge_in_view(&g.edges@[n - 1], persistent, w, layers) {
            1nat
        } else {
            0nat
        }
    }
}

/// The ids of the edges below `n` in the view, in order.
pub open spec fn edges_in_view(g: &GraphStorage, persistent: bool, w: Option<(i64, i64)>, layers: &LayerIds, n: int) -> Seq<usize>
    decreases n,
{
    if n <= 0 {
        Seq::empty()
    } else if edge_in_view(&g.edges@[n - 1], persistent, w, layers) {
        edges_in_view(g, persistent, w, layers, n - 1).push((n - 1) as usize)
    } else {
        edges_in_view(g, persistent, w, layers, n - 1)
    }
}

/// The ids of the nodes below `n` in the view, in order.
pub open spec fn nodes_in_view(g: &GraphStorage, persistent: bool, w: Option<(i64, i64)>, n: int) -> Seq<usize>
    decreases n,
{
    if n <= 0 {
        Seq::empty()
    } else if node_in_view(g, n - 1, persistent, w) {
        nodes_in_view(g, persistent, w, n - 1).push((n - 1) as usize)
    } else {
        nodes_in_view(g, persistent, w, n - 1)
    }
}

/// The intersection of an optional window with `[lo, hi)`.
pub open spec fn narrow(w: Option<(i64, i64)>, lo: i64, hi: i64) -> Option<(i64, i64)> {
    match w {
        None => Some((lo, hi)),
        Some((a, b)) => Some((if a > lo { a } else { lo }, if b < hi { b } else { hi })),
    }
}

/// A view of a graph: its semantics, an optional time window `[lo, hi)` and a
/// selection of layers.
pub struct GraphView<'a> {
    pub graph: &'a GraphStorage,
    pub persistent: bool,
    pub window: Option<(i64, i64)>,
    pub layers: LayerIds,
}

impl<'a> GraphView<'a> {
    pub open spec fn wf(&self) -> bool {
        self.graph.wf() && self.layers.wf()
    }

    /// The whole graph, every layer, with the given semantics.
    pub fn new(graph: &'a GraphStorage, persistent: bool) -> (r: GraphView<'a>)
        ensures
            r.graph == graph,
            r.persistent == persistent,
            r.window.is_none(),
            r.layers is All,
    {
        GraphView { graph, persistent, window: None, layers: LayerIds::All }
    }

    /// This view restricted to `[lo, hi)`.
    pub fn window(&self, lo: i64, hi: i64) -> (r: GraphView<'a>)
        requires
            self.wf(),
        ensures
            r.wf(),
            r.graph == self.graph,
            r.persistent == self.persistent,
            r.window == narrow(self.window, lo, hi),
            r.layers.same_as(&self.layers),
    {
        let window = match self.window {
            None => Some((lo, hi)),
            Some((a, b)) => Some((if a > lo {
                a
            } else {
                lo
            }, if b < hi {
                b
            } else {
                hi
            })),
        };
        GraphView { graph: self.graph, persistent: self.persistent, window, layers: self.layers.duplicate() }
    }

    /// This view at the single time `t`, that is the window `[t, t + 1)`.
    pub fn at(&self, t: i64) -> (r: GraphView<'a>)
        requires
            self.wf(),
        ensures
            r.wf(),
            r.graph == self.graph,
            r.persistent == self.persistent,
            r.window == narrow(self.window, t, if t == i64::MAX { t } else { (t + 1) as i64 }),
            r.layers.same_as(&self.layers),
    {
        let end = if t == i64::MAX {
            t
        } else {
            t + 1
        };
        self.window(t, end)
    }

    /// This view before `t`.
    pub fn before(&self, t: i64) -> (r: GraphView<'a>)
        requires
            self.wf(),
        ensures
            r.wf(),
            r.graph == self.graph,
            r.persistent == self.persistent,
            r.window == narrow(self.window, i64::MIN, t),
            r.layers.same_as(&self.layers),
    {
        self.window(i64::MIN, t)
    }

    /// This view after `t`.
    pub fn after(&self, t: i64) -> (r: GraphView<'a>)
        requires
            self.wf(),
        ensures
            r.wf(),
            r.graph == self.graph,
            r.persistent == self.persistent,
            r.window == narrow(self.window, if t == i64::MAX { t } else { (t + 1) as i64 }, i64::MAX),
            r.layers.same_as(&self.layers),
    {
        let start = if t == i64::MAX {
            t
        } else {
            t + 1
        };
        self.window(start, i64::MAX)
    }

    /// This view restricted to the layers `names`; `UnknownLayer` where one of
    /// them is not a layer of the graph.
    pub fn layers(&self, names: &Vec<&str>) -> (r: Result<GraphView<'a>, GraphError>)
        requires
            self.wf(),
        ensures
            r is Err <==> exists|i: int| 0 <= i < names@.len() && !self.graph.layers.has((#[trigger] names@[i])@),
            r is Err ==> r == Err::<GraphView<'a>, GraphError>(GraphError::UnknownLayer),
            match r {
                Ok(v) => v.wf() && v.graph == self.graph && v.persistent == self.persistent && v.window == self.window
                    && forall|l: usize| #[trigger] v.layers.selects(l) <==> self.layers.selects(l)
                        && exists|i: int| 0 <= i < names@.len() && layer_named(self.graph, Some(names@[i]), l as int),
                Err(_) => true,
            },
    {
        let mut ids: Vec<usize> = Vec::new();
        let mut i: usize = 0;
        while i < names.len()
            invariant
                self.wf(),
                i <= names@.len(),
                forall|j: int| 0 <= j < i ==> self.graph.layers.has((#[trigger] names@[j])@),
                forall|l: usize| ids@.contains(l) <==> exists|j: int| 0 <= j < i && layer_named(self.graph, Some(names@[j]), l as int),
            decreases names@.len() - i,
        {
            match self.graph.layer_id(Some(names[i])) {
                Some(l) => {
                    let ghost before = ids@;
                    ids.push(l);
                    proof {
                        assert forall|x: usize| ids@.contains(x) <==> exists|j: int| 0 <= j < i + 1 && layer_named(self.graph, Some(names@[j]), x as int) by {
                            crate::layer_ids::lemma_contains_push(before, l, x);
                            if exists|j: int| 0 <= j < i + 1 && layer_named(self.graph, Some(names@[j]), x as int) {
                                let j = choose|j: int| 0 <= j < i + 1 && layer_named(self.graph, Some(names@[j]), x as int);
                                if j == i {
                                    crate::storage::lemma_layer_unique(self.graph, names@[j]@, x as int);
                                    crate::storage::lemma_layer_unique(self.graph, names@[j]@, l as int);
                                }
                            }
                        }
                        assert(self.graph.layers.has(names@[i as int]@)) by {
                            assert(self.graph.layers.names@[l as int]@ == names@[i as int]@);
                        }
                    }
                },
                None => {
                    return Err(GraphError::UnknownLayer);
                },
            }
            i += 1;
        }
        let chosen = LayerIds::from_ids(&ids);
        let layers = self.layers.intersect(&chosen);
        Ok(GraphView { graph: self.graph, persistent: self.persistent, window: self.window, layers })
    }

    /// This view restricted to the default layer.
    pub fn default_layer(&self) -> (r: GraphView<'a>)
        requires
            self.wf(),
        ensures
            r.wf(),
            r.graph == self.graph,
            r.persistent == self.persistent,
            r.window == self.window,
            forall|l: usize| r.layers.selects(l) <==> self.layers.selects(l) && l == 0,
    {
        let layers = self.layers.intersect(&LayerIds::One(0));
        GraphView { graph: self.graph, persistent: self.persistent, window: self.window, layers }
    }

    /// Whether edge `e` belongs in this view.
    pub fn includes_edge(&self, e: usize) -> (r: bool)
        requires
            self.wf(),
            e < self.graph.edges@.len(),
        ensures
            r == edge_in_view(&self.graph.edges@[e as int], self.persistent, self.window, &self.layers),
    {
        let edge = &self.graph.edges[e];
        match self.window {
            None => {
                let n = edge.span_exec();
                let mut l: usize = 0;
                while l < n
                    invariant
                        self.wf(),
                        self.window.is_none(),
                        e < self.graph.edges@.len(),
                        *edge == self.graph.edges@[e as int],
                        edge.wf(),
                        n == edge.span(),
                        l <= n,
                        forall|k: usize| k < l ==> !(self.layers.selects(k) && #[trigger] layer_has_update(edge, k as int, self.persistent)),
                    decreases n - l,
                {
                    if self.layers.contains(l) {
                        let a = match edge.additions_of(l) {
                            Some(a) => a.len() > 0,
                            None => false,
                        };
                        let d = match edge.deletions_of(l) {
                            Some(d) => d.len() > 0,
                            None => false,
                        };
                        if a || (self.persistent && d) {
                            assert(self.layers.selects(l) && layer_has_update(edge, l as int, self.persistent));
                            assert(has_update(&self.graph.edges@[e as int], &self.layers, self.persistent));
                            return true;
                        }
                    }
                    l += 1;
                }
                proof {
                    assert forall|k: usize| !(self.layers.selects(k) && #[trigger] layer_has_update(edge, k as int, self.persistent)) by {
                        if k >= n {
                            assert(!edge.has_adds(k as int) && !edge.has_dels(k as int));
                        }
                    }
                }
                false
            },
            Some((lo, hi)) => {
                if lo >= hi {
                    false
                } else if self.persistent {
                    include_edge_window(edge, lo, hi, &self.layers)
                } else {
                    edge_active(edge, &self.layers, lo, hi)
                }
            },
        }
    }

    /// Whether node `v` belongs in this view.
    pub fn includes_node(&self, v: usize) -> (r: bool)
        requires
            self.wf(),
            v < self.graph.nodes@.len(),
        ensures
            r == node_in_view(self.graph, v as int, self.persistent, self.window),
    {
        match self.window {
            None => true,
            Some((lo, hi)) => {
                if lo >= hi {
                    false
                } else if self.persistent {
                    match self.graph.nodes[v].timestamps.first_t() {
                        Some(t) => t <= hi,
                        None => false,
                    }
                } else {
                    self.graph.nodes[v].timestamps.active(lo, hi)
                }
            },
        }
    }

    /// The number of edges in this view.
    pub fn count_edges(&self) -> (r: usize)
        requires
            self.wf(),
        ensures
            r == count_in_view(self.graph, self.persistent, self.window, &self.layers, self.graph.edges@.len() as int),
    {
        let n = self.graph.edges.len();
        let mut i: usize = 0;
        let mut c: usize = 0;
        while i < n
            invariant
                self.wf(),
                n == self.graph.edges@.len(),
                i <= n,
                c == count_in_view(self.graph, self.persistent, self.window, &self.layers, i as int),
                c <= i,
            decreases n - i,
        {
            if self.includes_edge(i) {
                c += 1;
            }
            i += 1;
        }
        c
    }

    /// The ids of the edges in this view, in order.
    pub fn edge_ids(&self) -> (r: Vec<usize>)
        requires
            self.wf(),
        ensures
            r@ == edges_in_view(self.graph, self.persistent, self.window, &self.layers, self.graph.edges@.len() as int),
    {
        let n = self.graph.edges.len();
        let mut i: usize = 0;
        let mut out: Vec<usize> = Vec::new();
        while i < n
            invariant
                self.wf(),
                n == self.graph.edges@.len(),
                i <= n,
                out@ == edges_in_view(self.graph, self.persistent, self.window, &self.layers, i as int),
            decreases n - i,
        {
            if self.includes_edge(i) {
                out.push(i);
            }
            i += 1;
        }
        out
    }

    /// The `(src, dst)` external ids of the edges in this view, in order.
    pub fn edges(&self) -> (r: Vec<(u64, u64)>)
        requires
            self.wf(),
        ensures
            r@.len() == edges_in_view(self.graph, self.persistent, self.window, &self.layers, self.graph.edges@.len() as int).len(),
            forall|i: int| 0 <= i < r@.len() ==> {
                let e = self.graph.edges@[edges_in_view(self.graph, self.persistent, self.window, &self.layers, self.graph.edges@.len() as int)[i] as int];
                #[trigger] r@[i] == (self.graph.nodes@[e.src as int].gid, self.graph.nodes@[e.dst as int].gid)
            },
    {
        let ids = self.edge_ids();
        let ghost s = edges_in_view(self.graph, self.persistent, self.window, &self.layers, self.graph.edges@.len() as int);
        proof {
            lemma_edges_in_view_bound(self.graph, self.persistent, self.window, &self.layers, self.graph.edges@.len() as int);
        }
        let mut out: Vec<(u64, u64)> = Vec::new();
        let mut i: usize = 0;
        while i < ids.len()
            invariant
                self.wf(),
                ids@ == s,
                forall|j: int| 0 <= j < s.len() ==> #[trigger] s[j] < self.graph.edges@.len(),
                i <= s.len(),
                out@.len() == i,
                forall|j: int| 0 <= j < i ==> {
                    let e = self.graph.edges@[s[j] as int];
                    #[trigger] out@[j] == (self.graph.nodes@[e.src as int].gid, self.graph.nodes@[e.dst as int].gid)
                },
            decreases s.len() - i,
        {
            let e = &self.graph.edges[ids[i]];
            out.push((self.graph.nodes[e.src].gid, self.graph.nodes[e.dst].gid));
            i += 1;
        }
        out
    }

    /// The external ids of the nodes in this view, in order.
    pub fn nodes(&self) -> (r: Vec<u64>)
        requires
            self.wf(),
        ensures
            r@.len() == nodes_in_view(self.graph, self.persistent, self.window, self.graph.nodes@.len() as int).len(),
            forall|i: int| 0 <= i < r@.len() ==> #[trigger] r@[i]
                == self.graph.nodes@[nodes_in_view(self.graph, self.persistent, self.window, self.graph.nodes@.len() as int)[i] as int].gid,
    {
        let n = self.graph.nodes.len();
        let mut i: usize = 0;
        let mut out: Vec<u64> = Vec::new();
        let ghost ids: Seq<usize> = Seq::empty();
        while i < n
            invariant
                self.wf(),
                n == self.graph.nodes@.len(),
                i <= n,
                ids == nodes_in_view(self.graph, self.persistent, self.window, i as int),
                out@.len() == ids.len(),
                forall|j: int| 0 <= j < ids.len() ==> (#[trigger] ids[j]) < i,
                forall|j: int| 0 <= j < out@.len() ==> #[trigger] out@[j] == self.graph.nodes@[ids[j] as int].gid,
            decreases n - i,
        {
            if self.includes_node(i) {
                out.push(self.graph.nodes[i].gid);
                proof {
                    ids = ids.push(i);
                }
            }
            i += 1;
        }
        out
    }

    /// The edge between the nodes with external ids `src` and `dst`, where it
    /// belongs in this view.
    pub fn edge(&self, src: u64, dst: u64) -> (r: Option<EdgeView<'a>>)
        requires
            self.wf(),
        ensures
            r.is_some() == self.has_edge_spec(src, dst),
            match r {
                Some(v) => v.wf() && v.view.graph == self.graph && v.view.persistent == self.persistent
                    && v.view.window == self.window && v.view.layers.same_as(&self.layers)
                    && v.time.is_none() && v.layer.is_none()
                    && Some(v.eid) == self.edge_index_spec(src, dst),
                None => true,
            },
    {
        match self.edge_index(src, dst) {
            Some(e) => if self.includes_edge(e) {
                let v = GraphView { graph: self.graph, persistent: self.persistent, window: self.window, layers: self.layers.duplicate() };
                Some(EdgeView { view: v, eid: e, time: None, layer: None })
            } else {
                None
            },
            None => None,
        }
    }

    /// The node with external id `gid`, where it belongs in this view.
    pub fn node(&self, gid: u64) -> (r: Option<NodeView<'a>>)
        requires
            self.wf(),
        ensures
            r.is_some() == match node_of(self.graph, gid) {
                Some(v) => node_in_view(self.graph, v, self.persistent, self.window),
                None => false,
            },
            match r {
                Some(n) => n.wf() && n.view.graph == self.graph && n.view.persistent == self.persistent
                    && n.view.window == self.window && n.view.layers.same_as(&self.layers)
                    && node_of(self.graph, gid) == Some(n.vid as int),
                None => true,
            },
    {
        match self.graph.node_id(gid) {
            Some(v) => {
                proof {
                    lemma_node_unique(self.graph, gid, v as int);
                }
                if self.includes_node(v) {
                    let view = GraphView { graph: self.graph, persistent: self.persistent, window: self.window, layers: self.layers.duplicate() };
                    Some(NodeView { view, vid: v })
                } else {
                    None
                }
            },
            None => None,
        }
    }

    /// The number of exploded edges in this view; a count beyond `usize` is
    /// held at its largest value.
    pub fn count_temporal_edges(&self) -> (r: usize)
        requires
            self.wf(),
        ensures
            r == clamp(temporal_count_upto(self.graph, self.persistent, self.window, &self.layers, self.graph.edges@.len() as int)),
    {
        let n = self.graph.edges.len();
        let mut i: usize = 0;
        let mut total: usize = 0;
        while i < n
            invariant
                self.wf(),
                n == self.graph.edges@.len(),
                i <= n,
                total == clamp(temporal_count_upto(self.graph, self.persistent, self.window, &self.layers, i as int)),
            decreases n - i,
        {
            if self.includes_edge(i) {
                let e = &self.graph.edges[i];
                let c = if self.persistent {
                    match self.window {
                        None => edge_exploded_count(e, &self.layers),
                        Some((lo, hi)) => edge_exploded_count_window(e, &self.layers, lo, hi),
                    }
                } else {
                    edge_additions_count(e, &self.layers, self.window)
                };
                total = total.saturating_add(c);
            }
            i += 1;
        }
        total
    }

    /// The start of this view's window.
    pub fn start(&self) -> (r: Option<i64>)
        ensures
            r == match self.window {
                Some((lo, _)) => Some(lo),
                None => None::<i64>,
            },
    {
        match self.window {
            Some((lo, _)) => Some(lo),
            None => None,
        }
    }

    /// The end of this view's window.
    pub fn end(&self) -> (r: Option<i64>)
        ensures
            r == match self.window {
                Some((_, hi)) => Some(hi),
                None => None::<i64>,
            },
    {
        match self.window {
            Some((_, hi)) => Some(hi),
            None => None,
        }
    }

    /// The start of the view's window, or else the earliest event of the graph.
    pub fn timeline_start(&self) -> (r: Option<i64>)
        requires
            self.wf(),
        ensures
            r == match self.window {
                Some((lo, _)) => Some(lo),
                None => earliest_upto(self.graph, self.graph.nodes@.len() as int),
            },
    {
        match self.window {
            Some((lo, _)) => Some(lo),
            None => earliest_time_global(self.graph),
        }
    }

    /// The end of the view's window, or else just after the latest event of
    /// the graph (held at the largest time).
    pub fn timeline_end(&self) -> (r: Option<i64>)
        requires
            self.wf(),
        ensures
            r == match self.window {
                Some((_, hi)) => Some(hi),
                None => match latest_upto(self.graph, self.graph.nodes@.len() as int) {
                    Some(t) => Some(if t == i64::MAX { t } else { (t + 1) as i64 }),
                    None => None,
                },
            },
    {
        match self.window {
            Some((_, hi)) => Some(hi),
            None => match latest_time_global(self.graph) {
                Some(t) => Some(next_t_exec(t)),
                None => None,
            },
        }
    }

    /// The dense id of the edge between the nodes with external ids `src` and `dst`.
    pub open spec fn edge_index_spec(&self, src: u64, dst: u64) -> Option<usize> {
        match node_of(self.graph, src) {
            Some(s) => match node_of(self.graph, dst) {
                Some(d) => match edge_idx(self.graph, s, d) {
                    Some(e) => Some(e as usize),
                    None => None,
                },
                None => None,
            },
            None => None,
        }
    }

    /// Whether the edge between `src` and `dst` belongs in this view.
    pub open spec fn has_edge_spec(&self, src: u64, dst: u64) -> bool {
        match self.edge_index_spec(src, dst) {
            Some(e) => edge_in_view(&self.graph.edges@[e as int], self.persistent, self.window, &self.layers),
            None => false,
        }
    }

    /// A new graph of the same semantics holding what this view shows: each
    /// node event and property write in the window, each exploded edge as an
    /// addition at its time with the property values written then, and for a
    /// persistent view each deletion in the window.
    pub fn materialize(&self) -> (r: Result<GraphStorage, GraphError>)
        requires
            self.wf(),
        ensures
            r is Ok ==> r.unwrap().wf(),
            r is Ok ==> forall|v: int| 0 <= v < self.graph.nodes@.len() && node_in_view(self.graph, v, self.persistent, self.window)
                && crate::node_view::node_earliest(self.graph.nodes@[v].timestamps@, self.persistent, self.window).is_some()
                ==> #[trigger] gid_present(&r.unwrap(), self.graph.nodes@[v].gid),
    {
        let mut out = GraphStorage::new();
        let n = self.graph.nodes.len();
        let mut v: usize = 0;
        while v < n
            invariant
                self.wf(),
                out.wf(),
                n == self.graph.nodes@.len(),
                v <= n,
                forall|u: int| 0 <= u < v && node_in_view(self.graph, u, self.persistent, self.window)
                    && crate::node_view::node_earliest(self.graph.nodes@[u].timestamps@, self.persistent, self.window).is_some()
                    ==> #[trigger] gid_present(&out, self.graph.nodes@[u].gid),
            decreases n - v,
        {
            if self.includes_node(v) {
                let gid = self.graph.nodes[v].gid;
                let nv = NodeView {
                    view: GraphView { graph: self.graph, persistent: self.persistent, window: self.window, layers: self.layers.duplicate() },
                    vid: v,
                };
                let times = nv.history();
                let mut j: usize = 0;
                while j < times.len()
                    invariant
                        out.wf(),
                        self.wf(),
                        n == self.graph.nodes@.len(),
                        v < n,
                        forall|u: int| 0 <= u < v && node_in_view(self.graph, u, self.persistent, self.window)
                            && crate::node_view::node_earliest(self.graph.nodes@[u].timestamps@, self.persistent, self.window).is_some()
                            ==> #[trigger] gid_present(&out, self.graph.nodes@[u].gid),
                    decreases times@.len() - j,
                {
                    let ghost before = out;
                    match out.add_node(times[j], gid, Vec::new()) {
                        Ok(_) => {},
                        Err(e) => {
                            return Err(e);
                        },
                    }
                    proof {
                        lemma_present_kept(&before, &out);
                    }
                    j += 1;
                }
                match nv.earliest_time() {
                    Some(t) => {
                        let ghost before = out;
                        match out.add_node(t, gid, Vec::new()) {
                            Ok(w) => {
                                proof {
                                    assert(out.nodes@[w as int].gid == gid);
                                    assert(gid_present(&out, gid));
                                }
                            },
                            Err(e) => {
                                return Err(e);
                            },
                        }
                        proof {
                            lemma_present_kept(&before, &out);
                        }
                    },
                    None => {},
                }
                let keys = &self.graph.node_temporal_keys.names;
                let mut k: usize = 0;
                while k < keys.len()
                    invariant
                        out.wf(),
                        nv.wf(),
                        self.wf(),
                        n == self.graph.nodes@.len(),
                        v < n,
                        forall|u: int| 0 <= u < v + 1 && node_in_view(self.graph, u, self.persistent, self.window)
                            && crate::node_view::node_earliest(self.graph.nodes@[u].timestamps@, self.persistent, self.window).is_some()
                            ==> #[trigger] gid_present(&out, self.graph.nodes@[u].gid),
                    decreases keys@.len() - k,
                {
                    let values = nv.temporal_values(keys[k].as_str());
                    let mut values = values;
                    while values.len() > 0
                        invariant
                            out.wf(),
                            self.wf(),
                            n == self.graph.nodes@.len(),
                            v < n,
                            k < keys@.len(),
                            forall|u: int| 0 <= u < v + 1 && node_in_view(self.graph, u, self.persistent, self.window)
                                && crate::node_view::node_earliest(self.graph.nodes@[u].timestamps@, self.persistent, self.window).is_some()
                                ==> #[trigger] gid_present(&out, self.graph.nodes@[u].gid),
                        decreases values@.len(),
                    {
                        let (t, val) = values.remove(0);
                        let mut props: Vec<(String, Prop)> = Vec::new();
                        props.push((keys[k].clone(), val));
                        let ghost before = out;
                        match out.add_node(t, gid, props) {
                            Ok(_) => {},
                            Err(e) => {
                                return Err(e);
                            },
                        }
                        proof {
                            lemma_present_kept(&before, &out);
                        }
                    }
                    k += 1;
                }
            }
            v += 1;
        }
        let ids = self.edge_ids();
        proof {
            lemma_edges_in_view_bound(self.graph, self.persistent, self.window, &self.layers, self.graph.edges@.len() as int);
        }
        let mut i: usize = 0;
        while i < ids.len()
            invariant
                self.wf(),
                out.wf(),
                forall|j: int| 0 <= j < ids@.len() ==> #[trigger] ids@[j] < self.graph.edges@.len(),
                forall|u: int| 0 <= u < self.graph.nodes@.len() && node_in_view(self.graph, u, self.persistent, self.window)
                    && crate::node_view::node_earliest(self.graph.nodes@[u].timestamps@, self.persistent, self.window).is_some()
                    ==> #[trigger] gid_present(&out, self.graph.nodes@[u].gid),
            decreases ids@.len() - i,
        {
            let ev = EdgeView { view: GraphView { graph: self.graph, persistent: self.persistent, window: self.window, layers: self.layers.duplicate() }, eid: ids[i], time: None, layer: None };
            let (src, dst) = ev.id();
            let exploded = ev.explode();
            let mut j: usize = 0;
            while j < exploded.len()
                invariant
                    self.wf(),
                    out.wf(),
                    forall|x: int| 0 <= x < exploded@.len() ==> (#[trigger] exploded@[x]).wf() && exploded@[x].view.graph == self.graph,
                    forall|u: int| 0 <= u < self.graph.nodes@.len() && node_in_view(self.graph, u, self.persistent, self.window)
                        && crate::node_view::node_earliest(self.graph.nodes@[u].timestamps@, self.persistent, self.window).is_some()
                        ==> #[trigger] gid_present(&out, self.graph.nodes@[u].gid),
                decreases exploded@.len() - j,
            {
                let x = &exploded[j];
                match (x.time, x.layer) {
                    (Some(at), Some(l)) => {
                        if l < self.graph.layers.names.len() {
                            let name = self.graph.layers.names[l].as_str();
                            let mut props: Vec<(String, Prop)> = Vec::new();
                            let keys = &self.graph.edge_temporal_keys.names;
                            let mut k: usize = 0;
                            while k < keys.len()
                                invariant
                                    x.wf(),
                                decreases keys@.len() - k,
                            {
                                let values = x.temporal_values(keys[k].as_str());
                                if values.len() > 0 {
                                    props.push((keys[k].clone(), values[values.len() - 1].1.duplicate()));
                                }
                                k += 1;
                            }
                            let ghost before = out;
                            match out.add_edge(at.t, src, dst, props, Some(name)) {
                                Ok(_) => {},
                                Err(e) => {
                                    return Err(e);
                                },
                            }
                            proof {
                                lemma_present_kept(&before, &out);
                            }
                        }
                    },
                    _ => {},
                }
                j += 1;
            }
            if self.persistent {
                let e = &self.graph.edges[ids[i]];
                let dels = crate::layered::merge_deletions(e, &self.layers, self.window);
                let mut j: usize = 0;
                while j < dels.len()
                    invariant
                        self.wf(),
                        out.wf(),
                        forall|u: int| 0 <= u < self.graph.nodes@.len() && node_in_view(self.graph, u, self.persistent, self.window)
                            && crate::node_view::node_earliest(self.graph.nodes@[u].timestamps@, self.persistent, self.window).is_some()
                            ==> #[trigger] gid_present(&out, self.graph.nodes@[u].gid),
                    decreases dels@.len() - j,
                {
                    let ((at, l), _) = dels[j];
                    if l < self.graph.layers.names.len() {
                        let name = self.graph.layers.names[l].as_str();
                        let ghost before = out;
                        match out.delete_edge(at.t, src, dst, Some(name)) {
                            Ok(_) => {},
                            Err(e) => {
                                return Err(e);
                            },
                        }
                        proof {
                            lemma_present_kept(&before, &out);
                        }
                    }
                    j += 1;
                }
            }
            i += 1;
        }
        Ok(out)
    }

    /// The number of edges in this view that leave node `v`.
    pub fn out_degree(&self, v: usize) -> (r: usize)
        requires
            self.wf(),
        ensures
            r == out_count(self.graph, self.persistent, self.window, &self.layers, v, self.graph.edges@.len() as int),
    {
        let n = self.graph.edges.len();
        let mut i: usize = 0;
        let mut c: usize = 0;
        while i < n
            invariant
                self.wf(),
                n == self.graph.edges@.len(),
                i <= n,
                c == out_count(self.graph, self.persistent, self.window, &self.layers, v, i as int),
                c <= i,
            decreases n - i,
        {
            if self.graph.edges[i].src == v && self.includes_edge(i) {
                c += 1;
            }
            i += 1;
        }
        c
    }

    /// Whether the edge between the nodes with external ids `src` and `dst`
    /// belongs in this view.
    pub fn has_edge(&self, src: u64, dst: u64) -> (r: bool)
        requires
            self.wf(),
        ensures
            r == self.has_edge_spec(src, dst),
            r == match node_of(self.graph, src) {
                Some(s) => match node_of(self.graph, dst) {
                    Some(d) => match edge_idx(self.graph, s, d) {
                        Some(e) => edge_in_view(&self.graph.edges@[e], self.persistent, self.window, &self.layers),
                        None => false,
                    },
                    None => false,
                },
                None => false,
            },
    {
        // Reading the length bounds the edge ids by `usize`.
        let _edge_count = self.graph.edges.len();
        match self.edge_index(src, dst) {
            Some(e) => {
                let r = self.includes_edge(e);
                proof {
                    let s = node_of(self.graph, src).unwrap();
                    let d = node_of(self.graph, dst).unwrap();
                    let x = edge_idx(self.graph, s, d).unwrap();
                    assert(0 <= x < self.graph.edges@.len());
                    assert(x == e as int);
                }
                r
            },
            None => false,
        }
    }

    /// The dense id of the edge between the nodes with external ids `src` and `dst`.
    pub fn edge_index(&self, src: u64, dst: u64) -> (r: Option<usize>)
        requires
            self.wf(),
        ensures
            r == self.edge_index_spec(src, dst),
            r == match node_of(self.graph, src) {
                Some(s) => match node_of(self.graph, dst) {
                    Some(d) => match edge_idx(self.graph, s, d) {
                        Some(e) => Some(e as usize),
                        None => None,
                    },
                    None => None,
                },
                None => None,
            },
            r.is_some() ==> r.unwrap() < self.graph.edges@.len(),
    {
        let s = match self.graph.node_id(src) {
            Some(s) => s,
            None => {
                return None;
            },
        };
        let d = match self.graph.node_id(dst) {
            Some(d) => d,
            None => {
                proof {
                    lemma_node_unique(self.graph, src, s as int);
                }
                return None;
            },
        };
        proof {
            lemma_node_unique(self.graph, src, s as int);
            lemma_node_unique(self.graph, dst, d as int);
        }
        match self.graph.edge_id(s, d) {
            Some(e) => {
                proof {
                    lemma_edge_unique(self.graph, s as int, d as int, e as int);
                }
                Some(e)
            },
            None => None,
        }
    }
}

pub proof fn lemma_edges_in_view_bound(g: &GraphStorage, persistent: bool, w: Option<(i64, i64)>, layers: &LayerIds, n: int)
    ensures
        forall|j: int| 0 <= j < edges_in_view(g, persistent, w, layers, n).len() ==> #[trigger] edges_in_view(g, persistent, w, layers, n)[j] < n,
    decreases n,
{
    if n > 0 {
        lemma_edges_in_view_bound(g, persistent, w, layers, n - 1);
        let s = edges_in_view(g, persistent, w, layers, n - 1);
        if edge_in_view(&g.edges@[n - 1], persistent, w, layers) {
            assert forall|j: int| 0 <= j < s.push((n - 1) as usize).len() implies #[trigger] s.push((n - 1) as usize)[j] < n by {
                if j < s.len() {
                    assert(s.push((n - 1) as usize)[j] == s[j]);
                }
            }
        }
    }
}

/// The number of exploded edges of edge `e` in a view.
pub open spec fn temporal_count(e: &EdgeStore, persistent: bool, w: Option<(i64, i64)>, layers: &LayerIds) -> nat {
    if persistent {
        match w {
            None => clamp(exploded_count_upto(e, layers, e.span() as int)),
            Some((lo, hi)) => clamp(exploded_count_window_upto(e, layers, lo, hi, e.span() as int)),
        }
    } else {
        clamp(count_in_layers(e, layers, lo_of(w), hi_of(w), e.span() as int))
    }
}

/// The number of exploded edges of the edges below `n` in a view.
pub open spec fn temporal_count_upto(g: &GraphStorage, persistent: bool, w: Option<(i64, i64)>, layers: &LayerIds, n: int) -> nat
    decreases n,
{
    if n <= 0 {
        0
    } else {
        temporal_count_upto(g, persistent, w, layers, n - 1) + if edge_in_view(&g.edges@[n - 1], persistent, w, layers) {
            temporal_count(&g.edges@[n - 1], persistent, w, layers)
        } else {
            0nat
        }
    }
}

/// The earliest event time among the nodes below `n`.
pub open spec fn earliest_upto(g: &GraphStorage, n: int) -> Option<i64>
    decreases n,
{
    if n <= 0 {
        None
    } else {
        let rest = earliest_upto(g, n - 1);
        match first_of(g.nodes@[n - 1].timestamps@) {
            Some(x) => match rest {
                Some(r) => Some(if x.t < r { x.t } else { r }),
                None => Some(x.t),
            },
            None => rest,
        }
    }
}

/// The latest event time among the nodes below `n`.
pub open spec fn latest_upto(g: &GraphStorage, n: int) -> Option<i64>
    decreases n,
{
    if n <= 0 {
        None
    } else {
        let rest = latest_upto(g, n - 1);
        match last_of(g.nodes@[n - 1].timestamps@) {
            Some(x) => match rest {
                Some(r) => Some(if x.t > r { x.t } else { r }),
                None => Some(x.t),
            },
            None => rest,
        }
    }
}

/// The earliest event of the graph.  Every edge event is also an event of
/// its endpoints, so the nodes' histories hold every event.
pub fn earliest_time_global(g: &GraphStorage) -> (r: Option<i64>)
    requires
        g.wf(),
    ensures
        r == earliest_upto(g, g.nodes@.len() as int),
{
    let n = g.nodes.len();
    let mut i: usize = 0;
    let mut acc: Option<i64> = None;
    while i < n
        invariant
            g.wf(),
            n == g.nodes@.len(),
            i <= n,
            acc == earliest_upto(g, i as int),
        decreases n - i,
    {
        acc = match g.nodes[i].timestamps.first() {
            Some(x) => match acc {
                Some(r) => Some(if x.t < r {
                    x.t
                } else {
                    r
                }),
                None => Some(x.t),
            },
            None => acc,
        };
        i += 1;
    }
    acc
}

/// The latest event of the graph.
pub fn latest_time_global(g: &GraphStorage) -> (r: Option<i64>)
    requires
        g.wf(),
    ensures
        r == latest_upto(g, g.nodes@.len() as int),
{
    let n = g.nodes.len();
    let mut i: usize = 0;
    let mut acc: Option<i64> = None;
    while i < n
        invariant
            g.wf(),
            n == g.nodes@.len(),
            i <= n,
            acc == latest_upto(g, i as int),
        decreases n - i,
    {
        acc = match g.nodes[i].timestamps.last() {
            Some(x) => match acc {
                Some(r) => Some(if x.t > r {
                    x.t
                } else {
                    r
                }),
                None => Some(x.t),
            },
            None => acc,
        };
        i += 1;
    }
    acc
}

/// The number of edges below `n` in a view that leave node `v`.
pub open spec fn out_count(g: &GraphStorage, persistent: bool, w: Option<(i64, i64)>, layers: &LayerIds, v: usize, n: int) -> nat
    decreases n,
{
    if n <= 0 {
        0
    } else {
        out_count(g, persistent, w, layers, v, n - 1) + if g.edges@[n - 1].src == v && edge_in_view(&g.edges@[n - 1], persistent, w, layers) {
            1nat
        } else {
            0nat
        }
    }
}

/// Whether `g` has a node with external id `gid`.
pub open spec fn gid_present(g: &GraphStorage, gid: u64) -> bool {
    exists|k: int| 0 <= k < g.nodes@.len() && (#[trigger] g.nodes@[k]).gid == gid
}

/// Nodes that keep their ids keep every external id present.
proof fn lemma_present_kept(before: &GraphStorage, after: &GraphStorage)
    requires
        after.nodes@.len() >= before.nodes@.len(),
        forall|i: int| 0 <= i < before.nodes@.len() ==> (#[trigger] after.nodes@[i]).gid == before.nodes@[i].gid,
    ensures
        forall|gid: u64| gid_present(before, gid) ==> #[trigger] gid_present(after, gid),
{
    assert forall|gid: u64| gid_present(before, gid) implies #[trigger] gid_present(after, gid) by {
        let k = choose|k: int| 0 <= k < before.nodes@.len() && (#[trigger] before.nodes@[k]).gid == gid;
        assert(after.nodes@[k].gid == gid);
    }
}

} // verus!
