use vstd::prelude::*;

use crate::entities::EdgeStore;
use crate::layer_ids::LayerIds;
use crate::layered::{
    first_over, first_over_layers, last_over, last_over_layers, merge_additions, merge_writes,
    merged_additions, merged_writes,
};
use crate::persistent::{
    alive_at, edge_alive_at_end, edge_alive_at_start, is_alive_at, is_edge_alive_at_end,
    is_edge_alive_at_start, next_t, next_t_exec,
};
use crate::prop::{Prop, PropValue};
use crate::time_index::{
    entry_lt, first_of, hi_of, last_in, last_of, lo_of, opt_entry_lt, opt_lt, t_of, TimeIndex,
    TimeIndexEntry,
};
use crate::view::GraphView;

verus! {

/// The smaller of an optional time and a default.
pub open spec fn t_or(e: Option<TimeIndexEntry>, d: int) -> int {
    match e {
        Some(x) => x.t as int,
        None => d,
    }
}

pub open spec fn min_int(a: int, b: int) -> int {
    if a < b {
        a
    } else {
        b
    }
}

/// The first time of an edge in a view.  A persistent edge alive when the
/// view opens starts with it.
pub open spec fn edge_earliest(e: &EdgeStore, persistent: bool, w: Option<(i64, i64)>, layers: &LayerIds, time: Option<TimeIndexEntry>) -> Option<i64> {
    match time {
        Some(x) => if lo_of(w) <= x.t < hi_of(w) { Some(x.t) } else { None },
        None => if lo_of(w) >= hi_of(w) {
            None
        } else if persistent && is_edge_alive_at_start(e, lo_of(w) as i64, layers) {
            Some(lo_of(w) as i64)
        } else {
            t_of(first_over(e, layers, false, lo_of(w), hi_of(w), e.span() as int))
        },
    }
}

/// The largest time at which layer `l` has a deletion in `[lo, hi)` that
/// ends an interval seen in the window.
pub open spec fn kept_deletion(e: &EdgeStore, l: int, lo: i64, hi: i64) -> Option<i64> {
    match last_in(e.dels(l), lo as int, hi as int) {
        Some(d) => if d.t > lo || crate::time_index::any_in(e.adds(l), lo as int, hi as int) {
            Some(d.t)
        } else {
            None
        },
        None => None,
    }
}

pub open spec fn opt_max_t(a: Option<i64>, b: Option<i64>) -> Option<i64> {
    match (a, b) {
        (None, y) => y,
        (x, None) => x,
        (Some(x), Some(y)) => if x < y {
            Some(y)
        } else {
            Some(x)
        },
    }
}

/// The largest `kept_deletion` over the selected layers below `n`.
pub open spec fn kept_deletion_over(e: &EdgeStore, layers: &LayerIds, lo: i64, hi: i64, n: int) -> Option<i64>
    decreases n,
{
    if n <= 0 {
        None
    } else if layers.selects((n - 1) as usize) {
        opt_max_t(kept_deletion_over(e, layers, lo, hi, n - 1), kept_deletion(e, n - 1, lo, hi))
    } else {
        kept_deletion_over(e, layers, lo, hi, n - 1)
    }
}

/// The last time of an edge in a view.  A persistent edge still alive when
/// the view closes lasts to its end; an exploded one lasts until the next
/// update of the edge.
pub open spec fn edge_latest(e: &EdgeStore, persistent: bool, w: Option<(i64, i64)>, layers: &LayerIds, time: Option<TimeIndexEntry>) -> Option<i64> {
    if lo_of(w) >= hi_of(w) {
        None
    } else {
        match time {
            Some(x) => if !persistent {
                if lo_of(w) <= x.t < hi_of(w) { Some(x.t) } else { None }
            } else {
                let end: int = match w {
                    Some((_, hi)) => hi as int,
                    None => i64::MAX as int,
                };
                let dflt: int = match w {
                    Some((_, hi)) => hi - 1,
                    None => i64::MAX as int,
                };
                Some(min_int(
                    t_or(first_over(e, layers, false, next_t(x.t), end, e.span() as int), dflt),
                    t_or(first_over(e, layers, true, next_t(x.t), end, e.span() as int), dflt),
                ) as i64)
            },
            None => if !persistent {
                t_of(last_over(e, layers, false, lo_of(w), hi_of(w), e.span() as int))
            } else {
                match w {
                    None => if is_edge_alive_at_end(e, i64::MAX, layers) {
                        Some(i64::MAX)
                    } else {
                        t_of(last_over(e, layers, true, lo_of(w), hi_of(w), e.span() as int))
                    },
                    Some((lo, hi)) => if is_edge_alive_at_end(e, hi, layers) {
                        Some((hi - 1) as i64)
                    } else {
                        kept_deletion_over(e, layers, lo, hi, e.span() as int)
                    },
                }
            },
        }
    }
}

/// Whether layer `l` was deleted before it was ever added.
pub open spec fn pre_existing(e: &EdgeStore, l: int) -> bool {
    match (first_of(e.adds(l)), first_of(e.dels(l))) {
        (Some(a), Some(d)) => entry_lt(d, a),
        (None, Some(_)) => true,
        _ => false,
    }
}

/// Whether layer `l` opens an interval at the start of the view: before any
/// addition without a window, alive when it opens with one.
pub open spec fn opens_interval(e: &EdgeStore, l: int, w: Option<(i64, i64)>) -> bool {
    match w {
        None => pre_existing(e, l),
        Some((lo, _)) => is_alive_at(e.adds(l), e.dels(l), lo),
    }
}

/// The selected layers below `n` that open an interval at the start of the view.
pub open spec fn open_layers(e: &EdgeStore, layers: &LayerIds, w: Option<(i64, i64)>, n: int) -> Seq<usize>
    decreases n,
{
    if n <= 0 {
        Seq::empty()
    } else if layers.selects((n - 1) as usize) && opens_interval(e, n - 1, w) {
        open_layers(e, layers, w, n - 1).push((n - 1) as usize)
    } else {
        open_layers(e, layers, w, n - 1)
    }
}

/// The entry at which the intervals that open a view start.
pub open spec fn open_entry(w: Option<(i64, i64)>) -> TimeIndexEntry {
    TimeIndexEntry { t: lo_of(w) as i64, seq: 0 }
}

/// The `(t, value)` pairs of merged writes.
pub open spec fn timed(s: Seq<((TimeIndexEntry, usize), PropValue)>) -> Seq<(i64, PropValue)> {
    Seq::new(s.len(), |i: int| (s[i].0.0.t, s[i].1))
}

/// The values of temporal property `k` of an edge in a view.  A persistent
/// edge alive when the window opens shows the value then in force at its start.
pub open spec fn edge_prop_values(e: &EdgeStore, persistent: bool, w: Option<(i64, i64)>, layers: &LayerIds, time: Option<TimeIndexEntry>, k: usize) -> Seq<(i64, PropValue)> {
    let n = e.props@.len() as int;
    match time {
        Some(x) => if lo_of(w) <= x.t < hi_of(w) { timed(merged_writes(e, layers, k, x.t as int, next_t(x.t), n)) } else { Seq::empty() },
        None => if lo_of(w) >= hi_of(w) {
            Seq::empty()
        } else if persistent && w.is_some() && is_edge_alive_at_start(e, lo_of(w) as i64, layers) {
            let lo = lo_of(w) as i64;
            let before = merged_writes(e, layers, k, i64::MIN as int, next_t(lo), n);
            let start: Seq<(i64, PropValue)> = if before.len() > 0 {
                seq![(lo, before.last().1)]
            } else {
                Seq::empty()
            };
            start + timed(merged_writes(e, layers, k, next_t(lo), hi_of(w), n))
        } else {
            timed(merged_writes(e, layers, k, lo_of(w), hi_of(w), n))
        },
    }
}

/// A view of one edge, possibly pinned to one time-index entry and one layer
/// (an exploded edge).
pub struct EdgeView<'a> {
    pub view: GraphView<'a>,
    pub eid: usize,
    pub time: Option<TimeIndexEntry>,
    pub layer: Option<usize>,
}

impl<'a> EdgeView<'a> {
    pub open spec fn wf(&self) -> bool {
        self.view.wf() && self.eid < self.view.graph.edges@.len()
    }

    pub open spec fn store(&self) -> &EdgeStore {
        &self.view.graph.edges@[self.eid as int]
    }

    /// The additions in the view, keyed by `(entry, layer)` in key order.
    pub open spec fn merged(&self) -> Seq<((TimeIndexEntry, usize), ())> {
        merged_additions(self.store(), &self.view.layers, lo_of(self.view.window), hi_of(self.view.window), self.store().span() as int)
    }

    /// For a persistent edge, the layers with an interval open at the start of the view.
    pub open spec fn opening(&self) -> Seq<usize> {
        if self.view.persistent {
            open_layers(self.store(), &self.view.layers, self.view.window, self.store().span() as int)
        } else {
            Seq::empty()
        }
    }

    /// The external ids of the edge's endpoints.
    pub fn id(&self) -> (r: (u64, u64))
        requires
            self.wf(),
        ensures
            r == (self.view.graph.nodes@[self.store().src as int].gid, self.view.graph.nodes@[self.store().dst as int].gid),
    {
        let e = &self.view.graph.edges[self.eid];
        (self.view.graph.nodes[e.src].gid, self.view.graph.nodes[e.dst].gid)
    }

    /// The time the edge is pinned to, for an exploded edge.
    pub fn time(&self) -> (r: Option<i64>)
        ensures
            r == t_of(self.time),
    {
        match self.time {
            Some(x) => Some(x.t),
            None => None,
        }
    }

    /// The layer the edge is pinned to, for an exploded edge.
    pub fn layer(&self) -> (r: Option<usize>)
        ensures
            r == self.layer,
    {
        self.layer
    }

    /// The same edge in another view of the graph.
    fn with_view(&self, view: GraphView<'a>) -> (r: EdgeView<'a>)
        ensures
            r.view == view,
            r.eid == self.eid,
            r.time == self.time,
            r.layer == self.layer,
    {
        EdgeView { view, eid: self.eid, time: self.time, layer: self.layer }
    }

    /// The view this edge was taken from.
    pub fn graph(&self) -> (r: GraphView<'a>)
        requires
            self.wf(),
        ensures
            r.wf(),
            r.graph == self.view.graph,
            r.persistent == self.view.persistent,
            r.window == self.view.window,
            r.layers.same_as(&self.view.layers),
    {
        GraphView { graph: self.view.graph, persistent: self.view.persistent, window: self.view.window, layers: self.view.layers.duplicate() }
    }

    pub fn window(&self, lo: i64, hi: i64) -> (r: EdgeView<'a>)
        requires
            self.wf(),
        ensures
            r.wf(),
            r.eid == self.eid && r.time == self.time && r.layer == self.layer,
            r.view.graph == self.view.graph && r.view.persistent == self.view.persistent,
            r.view.window == crate::view::narrow(self.view.window, lo, hi),
            r.view.layers.same_as(&self.view.layers),
    {
        self.with_view(self.view.window(lo, hi))
    }

    pub fn at(&self, t: i64) -> (r: EdgeView<'a>)
        requires
            self.wf(),
        ensures
            r.wf(),
            r.eid == self.eid && r.time == self.time && r.layer == self.layer,
            r.view.graph == self.view.graph && r.view.persistent == self.view.persistent,
            r.view.window == crate::view::narrow(self.view.window, t, if t == i64::MAX { t } else { (t + 1) as i64 }),
            r.view.layers.same_as(&self.view.layers),
    {
        self.with_view(self.view.at(t))
    }

    pub fn before(&self, t: i64) -> (r: EdgeView<'a>)
        requires
            self.wf(),
        ensures
            r.wf(),
            r.eid == self.eid && r.time == self.time && r.layer == self.layer,
            r.view.graph == self.view.graph && r.view.persistent == self.view.persistent,
            r.view.window == crate::view::narrow(self.view.window, i64::MIN, t),
            r.view.layers.same_as(&self.view.layers),
    {
        self.with_view(self.view.before(t))
    }

    pub fn after(&self, t: i64) -> (r: EdgeView<'a>)
        requires
            self.wf(),
        ensures
            r.wf(),
            r.eid == self.eid && r.time == self.time && r.layer == self.layer,
            r.view.graph == self.view.graph && r.view.persistent == self.view.persistent,
            r.view.window == crate::view::narrow(self.view.window, if t == i64::MAX { t } else { (t + 1) as i64 }, i64::MAX),
            r.view.layers.same_as(&self.view.layers),
    {
        self.with_view(self.view.after(t))
    }

    /// The edge restricted to the layers `names`.
    pub fn layers(&self, names: &Vec<&str>) -> (r: Result<EdgeView<'a>, crate::storage::GraphError>)
        requires
            self.wf(),
        ensures
            r is Err <==> exists|i: int| 0 <= i < names@.len() && !self.view.graph.layers.has((#[trigger] names@[i])@),
            match r {
                Ok(v) => v.wf() && v.eid == self.eid && v.time == self.time && v.layer == self.layer
                    && v.view.graph == self.view.graph && v.view.persistent == self.view.persistent
                    && v.view.window == self.view.window
                    && forall|l: usize| #[trigger] v.view.layers.selects(l) <==> self.view.layers.selects(l)
                        && exists|i: int| 0 <= i < names@.len() && crate::storage::layer_named(self.view.graph, Some(names@[i]), l as int),
                Err(e) => e == crate::storage::GraphError::UnknownLayer,
            },
    {
        match self.view.layers(names) {
            Ok(v) => Ok(self.with_view(v)),
            Err(e) => Err(e),
        }
    }

    /// The edge restricted to the default layer.
    pub fn default_layer(&self) -> (r: EdgeView<'a>)
        requires
            self.wf(),
        ensures
            r.wf(),
            r.eid == self.eid && r.time == self.time && r.layer == self.layer,
            r.view.graph == self.view.graph && r.view.persistent == self.view.persistent,
            r.view.window == self.view.window,
            forall|l: usize| r.view.layers.selects(l) <==> self.view.layers.selects(l) && l == 0,
    {
        self.with_view(self.view.default_layer())
    }

    /// The first time of the edge in its view.
    pub fn earliest_time(&self) -> (r: Option<i64>)
        requires
            self.wf(),
        ensures
            r == edge_earliest(self.store(), self.view.persistent, self.view.window, &self.view.layers, self.time),
    {
        let layers = &self.view.layers;
        let e = &self.view.graph.edges[self.eid];
        let r = match self.time {
            Some(x) => if crate::time_index::in_opt_window(x.t, self.view.window) { Some(x.t) } else { None },
            None => {
                let (lo, empty) = match self.view.window {
                    Some((lo, hi)) => (lo, lo >= hi),
                    None => (i64::MIN, false),
                };
                if empty {
                    None
                } else if self.view.persistent && edge_alive_at_start(e, lo, layers) {
                    Some(lo)
                } else {
                    match first_over_layers(e, layers, false, self.view.window) {
                        Some(x) => Some(x.t),
                        None => None,
                    }
                }
            },
        };
        r
    }

    /// The largest `kept_deletion` over the selected layers.
    fn kept_deletion_exec(e: &EdgeStore, layers: &LayerIds, lo: i64, hi: i64) -> (r: Option<i64>)
        requires
            e.wf(),
        ensures
            r == kept_deletion_over(e, layers, lo, hi, e.span() as int),
    {
        let n = e.span_exec();
        let mut l: usize = 0;
        let mut acc: Option<i64> = None;
        while l < n
            invariant
                e.wf(),
                n == e.span(),
                l <= n,
                acc == kept_deletion_over(e, layers, lo, hi, l as int),
            decreases n - l,
        {
            if layers.contains(l) {
                let kept = match e.deletions_of(l) {
                    Some(d) => match d.last_in(lo, hi) {
                        Some(x) => {
                            let added = match e.additions_of(l) {
                                Some(a) => a.active(lo, hi),
                                None => false,
                            };
                            if x.t > lo || added {
                                Some(x.t)
                            } else {
                                None
                            }
                        },
                        None => None,
                    },
                    None => None,
                };
                acc = match (acc, kept) {
                    (None, y) => y,
                    (x, None) => x,
                    (Some(x), Some(y)) => if x < y {
                        Some(y)
                    } else {
                        Some(x)
                    },
                };
            }
            l += 1;
        }
        acc
    }

    /// The last time of the edge in its view.
    pub fn latest_time(&self) -> (r: Option<i64>)
        requires
            self.wf(),
        ensures
            r == edge_latest(self.store(), self.view.persistent, self.view.window, &self.view.layers, self.time),
    {
        let layers = &self.view.layers;
        let e = &self.view.graph.edges[self.eid];
        let (lo, hi, empty) = match self.view.window {
            Some((lo, hi)) => (lo, hi, lo >= hi),
            None => (i64::MIN, i64::MAX, false),
        };
        let r = if empty {
            None
        } else {
            match self.time {
                Some(x) => if !self.view.persistent {
                    if crate::time_index::in_opt_window(x.t, self.view.window) { Some(x.t) } else { None }
                } else {
                    let dflt: i64 = match self.view.window {
                        Some((_, hi)) => hi - 1,
                        None => i64::MAX,
                    };
                    let w = Some((next_t_exec(x.t), hi));
                    let a = match first_over_layers(e, layers, false, w) {
                        Some(y) => y.t,
                        None => dflt,
                    };
                    let d = match first_over_layers(e, layers, true, w) {
                        Some(y) => y.t,
                        None => dflt,
                    };
                    Some(if a < d {
                        a
                    } else {
                        d
                    })
                },
                None => if !self.view.persistent {
                    match last_over_layers(e, layers, false, self.view.window) {
                        Some(y) => Some(y.t),
                        None => None,
                    }
                } else {
                    match self.view.window {
                        None => if edge_alive_at_end(e, i64::MAX, layers) {
                            Some(i64::MAX)
                        } else {
                            match last_over_layers(e, layers, true, None) {
                                Some(y) => Some(y.t),
                                None => None,
                            }
                        },
                        Some((lo, hi)) => if edge_alive_at_end(e, hi, layers) {
                            Some(hi - 1)
                        } else {
                            EdgeView::kept_deletion_exec(e, layers, lo, hi)
                        },
                    }
                },
            }
        };
        r
    }

    /// The times of the edge's additions in its view, ordered by entry.
    pub fn history(&self) -> (r: Vec<i64>)
        requires
            self.wf(),
        ensures
            r@.len() == self.merged().len(),
            forall|i: int| 0 <= i < r@.len() ==> #[trigger] r@[i] == self.merged()[i].0.0.t,
    {
        let layers = &self.view.layers;
        let e = &self.view.graph.edges[self.eid];
        let m = merge_additions(e, layers, self.view.window);
        let mut out: Vec<i64> = Vec::new();
        let mut i: usize = 0;
        while i < m.len()
            invariant
                i <= m@.len(),
                out@.len() == i,
                forall|j: int| 0 <= j < i ==> #[trigger] out@[j] == m@[j].0.0.t,
            decreases m@.len() - i,
        {
            out.push(m[i].0.0.t);
            i += 1;
        }
        out
    }

    /// The deletion times of the edge in its view, ordered by entry and then
    /// by layer; an event edge has none.
    pub fn deletions(&self) -> (r: Vec<i64>)
        requires
            self.wf(),
        ensures
            !self.view.persistent ==> r@.len() == 0,
            self.view.persistent ==> r@.len() == crate::persistent::deletions_count(self.store(), &self.view.layers, self.view.window),
            self.view.persistent ==> forall|i: int| 0 <= i < r@.len() ==> #[trigger] r@[i]
                == crate::layered::merged_deletions(self.store(), &self.view.layers, lo_of(self.view.window), hi_of(self.view.window), self.store().span() as int)[i].0.0.t,
    {
        if self.view.persistent {
            let e = &self.view.graph.edges[self.eid];
            crate::persistent::deletion_history(e, &self.view.layers, self.view.window)
        } else {
            Vec::new()
        }
    }

    /// Whether the edge is in force at the end of its view: for a persistent
    /// edge, its last update on some selected layer is an addition; an event
    /// edge is always valid.
    pub fn is_valid(&self) -> (r: bool)
        requires
            self.wf(),
        ensures
            r == edge_valid(self.store(), self.view.persistent, self.view.window, &self.view.layers),
    {
        let layers = &self.view.layers;
        let e = &self.view.graph.edges[self.eid];
        let r = if !self.view.persistent {
            true
        } else {
            match self.view.window {
                Some((_, hi)) => edge_alive_at_end(e, hi, layers),
                None => last_addition_wins(e, layers),
            }
        };
        r
    }

    /// Whether the edge is deleted at the end of its view: the negation of `is_valid`.
    pub fn is_deleted(&self) -> (r: bool)
        requires
            self.wf(),
        ensures
            r == !edge_valid(self.store(), self.view.persistent, self.view.window, &self.view.layers),
    {
        !self.is_valid()
    }

    /// The selected layers that open an interval at the start of the view.
    fn open_layers_exec(e: &EdgeStore, layers: &LayerIds, w: Option<(i64, i64)>) -> (r: Vec<usize>)
        requires
            e.wf(),
        ensures
            r@ == open_layers(e, layers, w, e.span() as int),
    {
        let n = e.span_exec();
        let empty = TimeIndex::new();
        let mut out: Vec<usize> = Vec::new();
        let mut l: usize = 0;
        while l < n
            invariant
                e.wf(),
                n == e.span(),
                l <= n,
                empty@.len() == 0,
                out@ == open_layers(e, layers, w, l as int),
            decreases n - l,
        {
            if layers.contains(l) {
                let additions = match e.additions_of(l) {
                    Some(a) => a,
                    None => &empty,
                };
                let deletions = match e.deletions_of(l) {
                    Some(d) => d,
                    None => &empty,
                };
                assert(additions@ == e.adds(l as int) && deletions@ == e.dels(l as int));
                let opens = match w {
                    None => match (additions.first(), deletions.first()) {
                        (Some(a), Some(d)) => d.lt(&a),
                        (None, Some(_)) => true,
                        _ => false,
                    },
                    Some((lo, _)) => alive_at(additions, deletions, lo),
                };
                if opens {
                    out.push(l);
                }
            }
            l += 1;
        }
        out
    }

    /// The exploded edges of this edge in its view: for a persistent edge,
    /// first one per selected layer with an interval open at the start of the
    /// view (pinned to that start), then one per addition in the view, ordered
    /// by entry and then by layer.  An exploded edge explodes to itself.
    pub fn explode(&self) -> (r: Vec<EdgeView<'a>>)
        requires
            self.wf(),
        ensures
            forall|i: int| 0 <= i < r@.len() ==> (#[trigger] r@[i]).wf() && r@[i].eid == self.eid
                && r@[i].view.graph == self.view.graph && r@[i].view.persistent == self.view.persistent
                && r@[i].view.window == self.view.window,
            self.time.is_some() ==> r@.len() == 1 && r@[0].time == self.time && r@[0].layer == self.layer
                && r@[0].view.layers.same_as(&self.view.layers),
            self.time.is_none() && lo_of(self.view.window) >= hi_of(self.view.window) ==> r@.len() == 0,
            self.time.is_none() && lo_of(self.view.window) < hi_of(self.view.window) ==> r@.len() == self.opening().len() + self.merged().len(),
            self.time.is_none() ==> forall|i: int| 0 <= i < self.opening().len() && i < r@.len() ==> (#[trigger] r@[i]).time == Some(open_entry(self.view.window))
                && r@[i].layer == Some(self.opening()[i]) && r@[i].view.layers == LayerIds::One(self.opening()[i]),
            self.time.is_none() ==> forall|i: int| 0 <= i < self.merged().len() && self.opening().len() + i < r@.len() ==> (#[trigger] r@[self.opening().len() + i]).time == Some(self.merged()[i].0.0)
                && r@[self.opening().len() + i].layer == Some(self.merged()[i].0.1)
                && r@[self.opening().len() + i].view.layers == LayerIds::One(self.merged()[i].0.1),
    {
        let mut out: Vec<EdgeView<'a>> = Vec::new();
        if self.time.is_some() {
            out.push(self.with_view(self.graph()));
            return out;
        }
        let (lo, empty) = match self.view.window {
            Some((lo, hi)) => (lo, lo >= hi),
            None => (i64::MIN, false),
        };
        if empty {
            return out;
        }
        let layers = &self.view.layers;
        let e = &self.view.graph.edges[self.eid];
        let pre = if self.view.persistent {
            EdgeView::open_layers_exec(e, layers, self.view.window)
        } else {
            Vec::new()
        };
        let start = TimeIndexEntry { t: lo, seq: 0 };
        let mut i: usize = 0;
        while i < pre.len()
            invariant
                self.wf(),
                i <= pre@.len(),
                out@.len() == i,
                start == open_entry(self.view.window),
                forall|j: int| 0 <= j < out@.len() ==> (#[trigger] out@[j]).wf() && out@[j].eid == self.eid
                    && out@[j].view.graph == self.view.graph && out@[j].view.persistent == self.view.persistent
                    && out@[j].view.window == self.view.window,
                forall|j: int| 0 <= j < i ==> (#[trigger] out@[j]).time == Some(start) && out@[j].layer == Some(pre@[j]) && out@[j].view.layers == LayerIds::One(pre@[j]),
            decreases pre@.len() - i,
        {
            let v = GraphView { graph: self.view.graph, persistent: self.view.persistent, window: self.view.window, layers: LayerIds::One(pre[i]) };
            out.push(EdgeView { view: v, eid: self.eid, time: Some(start), layer: Some(pre[i]) });
            i += 1;
        }
        let m = merge_additions(e, layers, self.view.window);
        let base = out.len();
        let mut j: usize = 0;
        while j < m.len()
            invariant
                self.wf(),
                j <= m@.len(),
                base == pre@.len(),
                out@.len() == base + j,
                forall|k: int| 0 <= k < out@.len() ==> (#[trigger] out@[k]).wf() && out@[k].eid == self.eid
                    && out@[k].view.graph == self.view.graph && out@[k].view.persistent == self.view.persistent
                    && out@[k].view.window == self.view.window,
                forall|k: int| 0 <= k < base ==> (#[trigger] out@[k]).time == Some(start) && out@[k].layer == Some(pre@[k]) && out@[k].view.layers == LayerIds::One(pre@[k]),
                forall|k: int| 0 <= k < j ==> (#[trigger] out@[base + k]).time == Some(m@[k].0.0) && out@[base + k].layer == Some(m@[k].0.1)
                    && out@[base + k].view.layers == LayerIds::One(m@[k].0.1),
            decreases m@.len() - j,
        {
            let v = GraphView { graph: self.view.graph, persistent: self.view.persistent, window: self.view.window, layers: LayerIds::One(m[j].0.1) };
            out.push(EdgeView { view: v, eid: self.eid, time: Some(m[j].0.0), layer: Some(m[j].0.1) });
            j += 1;
        }
        out
    }

    /// The values of temporal property `name` in this view, as `(t, value)`.
    pub fn temporal_values(&self, name: &str) -> (r: Vec<(i64, Prop)>)
        requires
            self.wf(),
        ensures
            match self.view.graph.edge_temporal_keys.find_spec(name@) {
                Some(k) => crate::prop::writes_match(r@, edge_prop_values(self.store(), self.view.persistent, self.view.window, &self.view.layers, self.time, k)),
                None => r@.len() == 0,
            },
    {
        let k = match self.view.graph.edge_temporal_keys.find(name) {
            Some(k) => k,
            None => {
                return Vec::new();
            },
        };
        let layers = &self.view.layers;
        let e = &self.view.graph.edges[self.eid];
        let mut out: Vec<(i64, Prop)> = Vec::new();
        let (lo, hi, empty) = match self.view.window {
            Some((lo, hi)) => (lo, hi, lo >= hi),
            None => (i64::MIN, i64::MAX, false),
        };
        let rest = match self.time {
            Some(x) => if crate::time_index::in_opt_window(x.t, self.view.window) { merge_writes(e, layers, k, Some((x.t, next_t_exec(x.t)))) } else { Vec::new() },
            None => if empty {
                Vec::new()
            } else if self.view.persistent && self.view.window.is_some() && edge_alive_at_start(e, lo, layers) {
                let before = merge_writes(e, layers, k, Some((i64::MIN, next_t_exec(lo))));
                if before.len() > 0 {
                    out.push((lo, before[before.len() - 1].1.duplicate()));
                    proof {
                        let kb = crate::layered::keyed_view(before@);
                        assert(kb.last().1 == before@.last().1@);
                    }
                }
                merge_writes(e, layers, k, Some((next_t_exec(lo), hi)))
            } else {
                merge_writes(e, layers, k, self.view.window)
            },
        };
        let base = out.len();
        let ghost head = out@;
        let mut i: usize = 0;
        while i < rest.len()
            invariant
                i <= rest@.len(),
                out@.len() == base + i,
                out@.subrange(0, base as int) == head,
                forall|j: int| 0 <= j < i ==> (#[trigger] out@[base + j]).0 == rest@[j].0.0.t && out@[base + j].1@ == rest@[j].1@,
            decreases rest@.len() - i,
        {
            out.push((rest[i].0.0.t, rest[i].1.duplicate()));
            proof {
                assert(out@.subrange(0, base as int) =~= head);
            }
            i += 1;
        }
        proof {
            let v = edge_prop_values(self.store(), self.view.persistent, self.view.window, &self.view.layers, self.time, k);
            let tm = timed(crate::layered::keyed_view(rest@));
            let hv: Seq<(i64, PropValue)> = Seq::new(head.len(), |j: int| (head[j].0, head[j].1@));
            assert(v == hv + tm);
            assert forall|j: int| 0 <= j < out@.len() implies (#[trigger] out@[j]).0 == v[j].0 && out@[j].1@ == v[j].1 by {
                if j < base {
                    assert(out@[j] == head[j]);
                } else {
                    assert(out@[base + (j - base)] == out@[j]);
                }
            }
        }
        out
    }

    /// Whether temporal property `name` has a value in this view: a write in
    /// the window, or for a persistent edge alive when it opens, a value then
    /// in force.
    pub fn has_temporal_prop(&self, name: &str) -> (r: bool)
        requires
            self.wf(),
        ensures
            r == match self.view.graph.edge_temporal_keys.find_spec(name@) {
                Some(k) => edge_prop_values(self.store(), self.view.persistent, self.view.window, &self.view.layers, self.time, k).len() > 0,
                None => false,
            },
    {
        self.temporal_values(name).len() > 0
    }

    /// The value of property `name` in this view: the last temporal value, or
    /// else the constant value on the first selected layer that has one.
    pub fn property(&self, name: &str) -> (r: Option<Prop>)
        requires
            self.wf(),
        ensures
            opt_value(r) == edge_property(
                self.store(), self.view.persistent, self.view.window, &self.view.layers, self.time,
                self.view.graph.edge_temporal_keys.find_spec(name@),
                self.view.graph.edge_const_keys.find_spec(name@),
            ),
    {
        let values = self.temporal_values(name);
        let layers = &self.view.layers;
        if values.len() > 0 {
            return Some(values[values.len() - 1].1.duplicate());
        }
        let r = match self.view.graph.edge_const_keys.find(name) {
            Some(kc) => {
                let e = &self.view.graph.edges[self.eid];
                edge_constant(e, layers, kc)
            },
            None => None,
        };
        r
    }
}

/// Whether layer `l` ends with an addition rather than a deletion.
pub open spec fn layer_ends_added(e: &EdgeStore, l: int) -> bool {
    opt_entry_lt(last_of(e.dels(l)), last_of(e.adds(l)))
}

/// Whether an edge is valid in a view: for a persistent edge, in force at its
/// end (with no window, last updated by an addition on some selected layer).
pub open spec fn edge_valid(e: &EdgeStore, persistent: bool, w: Option<(i64, i64)>, layers: &LayerIds) -> bool {
    if !persistent {
        true
    } else {
        match w {
            Some((_, hi)) => is_edge_alive_at_end(e, hi, layers),
            None => exists|l: usize| layers.selects(l) && #[trigger] layer_ends_added(e, l as int),
        }
    }
}

/// Whether some selected layer ends with an addition.
pub fn last_addition_wins(e: &EdgeStore, layers: &LayerIds) -> (r: bool)
    requires
        e.wf(),
    ensures
        r == exists|l: usize| layers.selects(l) && #[trigger] layer_ends_added(e, l as int),
{
    let n = e.span_exec();
    let mut l: usize = 0;
    while l < n
        invariant
            e.wf(),
            n == e.span(),
            l <= n,
            forall|k: usize| k < l ==> !(layers.selects(k) && #[trigger] layer_ends_added(e, k as int)),
        decreases n - l,
    {
        if layers.contains(l) {
            let a = match e.additions_of(l) {
                Some(a) => a.last(),
                None => None,
            };
            let d = match e.deletions_of(l) {
                Some(d) => d.last(),
                None => None,
            };
            if opt_lt(d, a) {
                assert(layers.selects(l) && layer_ends_added(e, l as int));
                return true;
            }
        }
        l += 1;
    }
    proof {
        assert forall|k: usize| !(layers.selects(k) && #[trigger] layer_ends_added(e, k as int)) by {
            if k >= n {
                assert(e.adds(k as int).len() == 0 && e.dels(k as int).len() == 0);
            }
        }
    }
    false
}

/// What an optional property value holds.
pub open spec fn opt_value(p: Option<Prop>) -> Option<PropValue> {
    match p {
        Some(v) => Some(v@),
        None => None,
    }
}

/// The constant value of property `k` on the first selected layer below `n` that has one.
pub open spec fn constant_over(e: &EdgeStore, layers: &LayerIds, k: usize, n: int) -> Option<PropValue>
    decreases n,
{
    if n <= 0 {
        None
    } else {
        match constant_over(e, layers, k, n - 1) {
            Some(v) => Some(v),
            None => if layers.selects((n - 1) as usize) && n - 1 < e.props@.len() {
                e.props@[n - 1].constant_value(k)
            } else {
                None
            },
        }
    }
}

/// The value of a property of an edge in a view: its last temporal value
/// (temporal key `kt`), or else its constant value (constant key `kc`).
pub open spec fn edge_property(
    e: &EdgeStore,
    persistent: bool,
    w: Option<(i64, i64)>,
    layers: &LayerIds,
    time: Option<TimeIndexEntry>,
    kt: Option<usize>,
    kc: Option<usize>,
) -> Option<PropValue> {
    let values = match kt {
        Some(k) => edge_prop_values(e, persistent, w, layers, time, k),
        None => Seq::empty(),
    };
    if values.len() > 0 {
        Some(values.last().1)
    } else {
        match kc {
            Some(k) => constant_over(e, layers, k, e.props@.len() as int),
            None => None,
        }
    }
}

/// The constant value of property `k` on the first selected layer that has one.
pub fn edge_constant(e: &EdgeStore, layers: &LayerIds, k: usize) -> (r: Option<Prop>)
    requires
        e.wf(),
    ensures
        opt_value(r) == constant_over(e, layers, k, e.props@.len() as int),
{
    let n = e.props.len();
    let mut l: usize = 0;
    while l < n
        invariant
            e.wf(),
            n == e.props@.len(),
            l <= n,
            constant_over(e, layers, k, l as int).is_none(),
        decreases n - l,
    {
        if layers.contains(l) {
            match e.props[l].constant(k) {
                Some(p) => {
                    proof {
                        lemma_constant_over_found(e, layers, k, l as int, n as int);
                    }
                    return Some(p.duplicate());
                },
                None => {},
            }
        }
        l += 1;
    }
    None
}

/// Once a layer below `n` has the value, `constant_over` keeps it.
pub proof fn lemma_constant_over_found(e: &EdgeStore, layers: &LayerIds, k: usize, l: int, n: int)
    requires
        0 <= l < n,
        constant_over(e, layers, k, l).is_none(),
        layers.selects(l as usize),
        l < e.props@.len(),
        e.props@[l].constant_value(k).is_some(),
    ensures
        constant_over(e, layers, k, n) == e.props@[l].constant_value(k),
    decreases n - l,
{
    if n > l + 1 {
        lemma_constant_over_found(e, layers, k, l, n - 1);
    }
}

} // verus!
