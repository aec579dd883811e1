use vstd::prelude::*;

use crate::entities::{reach_layer, reach_prop_layer, EdgeStore, NodeStore, PropStore};
use crate::prop::{same_kind, Prop, PropValue};
use crate::time_index::{TimeIndex, TimeIndexEntry};

verus! {

/// What a mutation or a snapshot load reports.
#[derive(Debug, Clone, Copy, PartialEq, Eq, Structural)]
pub enum GraphError {
    UnknownNode,
    UnknownEdge,
    UnknownLayer,
    PropertyTypeMismatch,
    ConstantPropertyConflict,
    SnapshotIOError,
    SnapshotFormatError,
    VariantMismatch,
    /// Every sequence number has been handed out.
    SequenceExhausted,
}

/// Names mapped to dense ids, in order of first use.
pub struct KeyRegistry {
    pub names: Vec<String>,
}

/// Where `name` stands in `names`.
pub open spec fn name_pos(names: Seq<String>, name: Seq<char>) -> Option<int> {
    if exists|i: int| 0 <= i < names.len() && (#[trigger] names[i])@ == name {
        Some(choose|i: int| 0 <= i < names.len() && (#[trigger] names[i])@ == name)
    } else {
        None
    }
}

impl KeyRegistry {
    pub open spec fn wf(&self) -> bool {
        forall|i: int, j: int| 0 <= i < j < self.names@.len() ==> (#[trigger] self.names@[i])@ != (#[trigger] self.names@[j])@
    }

    pub open spec fn has(&self, name: Seq<char>) -> bool {
        exists|i: int| 0 <= i < self.names@.len() && (#[trigger] self.names@[i])@ == name
    }

    /// The id of `name`.
    pub open spec fn find_spec(&self, name: Seq<char>) -> Option<usize> {
        match name_pos(self.names@, name) {
            Some(i) => Some(i as usize),
            None => None,
        }
    }

    pub fn new() -> (r: KeyRegistry)
        ensures
            r.wf(),
            r.names@.len() == 0,
    {
        KeyRegistry { names: Vec::new() }
    }

    /// The id of `name`, where it is registered.
    pub fn find(&self, name: &str) -> (r: Option<usize>)
        requires
            self.wf(),
        ensures
            match r {
                Some(i) => i < self.names@.len() && self.names@[i as int]@ == name@,
                None => !self.has(name@),
            },
            r == self.find_spec(name@),
    {
        let mut i: usize = 0;
        while i < self.names.len()
            invariant
                self.wf(),
                i <= self.names@.len(),
                forall|j: int| 0 <= j < i ==> (#[trigger] self.names@[j])@ != name@,
            decreases self.names@.len() - i,
        {
            let candidate: &str = self.names[i].as_str();
            if str_eq(candidate, name) {
                proof {
                    let c = choose|c: int| 0 <= c < self.names@.len() && (#[trigger] self.names@[c])@ == name@;
                    if c != i as int {
                        if c < i {
                            assert(self.names@[c]@ != self.names@[i as int]@);
                        } else {
                            assert(self.names@[i as int]@ != self.names@[c]@);
                        }
                    }
                }
                return Some(i);
            }
            i += 1;
        }
        None
    }

    /// The id of `name`, registering it where it is new.
    pub fn resolve(&mut self, name: &str) -> (r: usize)
        requires
            old(self).wf(),
        ensures
            final(self).wf(),
            r < final(self).names@.len(),
            final(self).names@[r as int]@ == name@,
            old(self).has(name@) ==> final(self).names@ == old(self).names@,
            !old(self).has(name@) ==> final(self).names@.len() == old(self).names@.len() + 1
                && final(self).names@.subrange(0, old(self).names@.len() as int) == old(self).names@
                && r == old(self).names@.len(),
    {
        match self.find(name) {
            Some(i) => i,
            None => {
                let ghost before = self.names@;
                self.names.push(name.to_owned());
                proof {
                    assert(self.names@.subrange(0, before.len() as int) =~= before);
                    assert forall|i: int, j: int| 0 <= i < j < self.names@.len() implies (#[trigger] self.names@[i])@ != (#[trigger] self.names@[j])@ by {
                        if j == before.len() {
                            assert(self.names@[i] == before[i]);
                        } else {
                            assert(self.names@[i] == before[i] && self.names@[j] == before[j]);
                        }
                    }
                }
                self.names.len() - 1
            },
        }
    }
}

/// Whether two strings hold the same characters.
pub fn str_eq(a: &str, b: &str) -> (r: bool)
    ensures
        r == (a@ == b@),
{
    let x = a.to_owned();
    let y = b.to_owned();
    x == y
}

/// The entity records and registries of a temporal graph.
pub struct GraphStorage {
    pub nodes: Vec<NodeStore>,
    pub edges: Vec<EdgeStore>,
    /// Layer names; id 0 is the default layer.
    pub layers: KeyRegistry,
    pub node_const_keys: KeyRegistry,
    pub node_temporal_keys: KeyRegistry,
    pub edge_const_keys: KeyRegistry,
    pub edge_temporal_keys: KeyRegistry,
    pub graph_const_keys: KeyRegistry,
    pub graph_temporal_keys: KeyRegistry,
    pub graph_props: PropStore,
    /// The sequence number the next event receives.
    pub seq: u64,
}

/// The name of the default layer.
pub open spec fn default_layer_name() -> Seq<char> {
    seq!['_', 'd', 'e', 'f', 'a', 'u', 'l', 't']
}

impl GraphStorage {
    pub open spec fn wf(&self) -> bool {
        &&& forall|i: int| 0 <= i < self.nodes@.len() ==> (#[trigger] self.nodes@[i]).wf()
        &&& forall|i: int| 0 <= i < self.edges@.len() ==> (#[trigger] self.edges@[i]).wf()
            && self.edges@[i].src < self.nodes@.len() && self.edges@[i].dst < self.nodes@.len()
            && self.edges@[i].additions@.len() <= self.layers.names@.len()
            && self.edges@[i].deletions@.len() <= self.layers.names@.len()
            && self.edges@[i].props@.len() <= self.layers.names@.len()
        &&& forall|i: int, j: int| 0 <= i < j < self.nodes@.len() ==> (#[trigger] self.nodes@[i]).gid != (#[trigger] self.nodes@[j]).gid
        &&& forall|i: int, j: int| 0 <= i < j < self.edges@.len() ==> !((#[trigger] self.edges@[i]).src == (#[trigger] self.edges@[j]).src
            && self.edges@[i].dst == self.edges@[j].dst)
        &&& self.layers.names@.len() >= 1
        &&& self.layers.wf()
        &&& self.node_const_keys.wf()
        &&& self.node_temporal_keys.wf()
        &&& self.edge_const_keys.wf()
        &&& self.edge_temporal_keys.wf()
        &&& self.graph_const_keys.wf()
        &&& self.graph_temporal_keys.wf()
        &&& self.graph_props.wf()
    }

    /// An empty graph with the default layer registered.
    pub fn new() -> (r: GraphStorage)
        ensures
            r.wf(),
            r.nodes@.len() == 0,
            r.edges@.len() == 0,
            r.layers.names@.len() == 1,
            r.layers.names@[0]@ == default_layer_name(),
            r.seq == 0,
    {
        let mut layers = KeyRegistry::new();
        let l = layers.resolve("_default");
        proof {
            reveal_strlit("_default");
        }
        GraphStorage {
            nodes: Vec::new(),
            edges: Vec::new(),
            layers,
            node_const_keys: KeyRegistry::new(),
            node_temporal_keys: KeyRegistry::new(),
            edge_const_keys: KeyRegistry::new(),
            edge_temporal_keys: KeyRegistry::new(),
            graph_const_keys: KeyRegistry::new(),
            graph_temporal_keys: KeyRegistry::new(),
            graph_props: PropStore::new(),
            seq: 0,
        }
    }

    /// The dense id of the node with external id `gid`.
    pub fn node_id(&self, gid: u64) -> (r: Option<usize>)
        ensures
            match r {
                Some(v) => v < self.nodes@.len() && self.nodes@[v as int].gid == gid,
                None => forall|i: int| 0 <= i < self.nodes@.len() ==> (#[trigger] self.nodes@[i]).gid != gid,
            },
    {
        let mut i: usize = 0;
        while i < self.nodes.len()
            invariant
                i <= self.nodes@.len(),
                forall|j: int| 0 <= j < i ==> (#[trigger] self.nodes@[j]).gid != gid,
            decreases self.nodes@.len() - i,
        {
            if self.nodes[i].gid == gid {
                return Some(i);
            }
            i += 1;
        }
        None
    }

    /// The dense id of the edge from node `src` to node `dst`.
    pub fn edge_id(&self, src: usize, dst: usize) -> (r: Option<usize>)
        ensures
            match r {
                Some(e) => e < self.edges@.len() && self.edges@[e as int].src == src && self.edges@[e as int].dst == dst,
                None => forall|i: int| 0 <= i < self.edges@.len() ==> !((#[trigger] self.edges@[i]).src == src && self.edges@[i].dst == dst),
            },
    {
        let mut i: usize = 0;
        while i < self.edges.len()
            invariant
                i <= self.edges@.len(),
                forall|j: int| 0 <= j < i ==> !((#[trigger] self.edges@[j]).src == src && self.edges@[j].dst == dst),
            decreases self.edges@.len() - i,
        {
            if self.edges[i].src == src && self.edges[i].dst == dst {
                return Some(i);
            }
            i += 1;
        }
        None
    }

    /// The id of the layer named `name`; no name means the default layer.
    pub fn layer_id(&self, name: Option<&str>) -> (r: Option<usize>)
        requires
            self.wf(),
        ensures
            match name {
                None => r == Some(0usize),
                Some(n) => match r {
                    Some(l) => l < self.layers.names@.len() && self.layers.names@[l as int]@ == n@,
                    None => !self.layers.has(n@),
                },
            },
    {
        match name {
            None => Some(0),
            Some(n) => self.layers.find(n),
        }
    }

    /// Hands out the next time-index entry at time `t`.
    fn next_entry(&mut self, t: i64) -> (r: TimeIndexEntry)
        requires
            old(self).seq < u64::MAX,
        ensures
            r == (TimeIndexEntry { t, seq: old(self).seq }),
            final(self).seq == old(self).seq + 1,
            final(self).nodes == old(self).nodes,
            final(self).edges == old(self).edges,
            final(self).layers == old(self).layers,
            final(self).node_const_keys == old(self).node_const_keys,
            final(self).node_temporal_keys == old(self).node_temporal_keys,
            final(self).edge_const_keys == old(self).edge_const_keys,
            final(self).edge_temporal_keys == old(self).edge_temporal_keys,
            final(self).graph_const_keys == old(self).graph_const_keys,
            final(self).graph_temporal_keys == old(self).graph_temporal_keys,
            final(self).graph_props == old(self).graph_props,
    {
        let e = TimeIndexEntry { t, seq: self.seq };
        self.seq = self.seq + 1;
        e
    }

    /// The node with external id `gid`, created where it is new.
    fn node_or_create(&mut self, gid: u64) -> (r: usize)
        requires
            old(self).wf(),
        ensures
            final(self).wf(),
            r < final(self).nodes@.len(),
            final(self).nodes@[r as int].gid == gid,
            final(self).edges == old(self).edges,
            final(self).layers == old(self).layers,
            final(self).seq == old(self).seq,
            final(self).nodes@.len() >= old(self).nodes@.len(),
            forall|i: int| 0 <= i < old(self).nodes@.len() ==> final(self).nodes@[i] == old(self).nodes@[i],
            r < old(self).nodes@.len() ==> final(self).nodes@.len() == old(self).nodes@.len(),
            r >= old(self).nodes@.len() ==> r == old(self).nodes@.len()
                && final(self).nodes@.len() == old(self).nodes@.len() + 1
                && final(self).nodes@[r as int].timestamps@.len() == 0
                && final(self).nodes@[r as int].props.temporal@.len() == 0
                && final(self).nodes@[r as int].props.constant@.len() == 0
                && forall|i: int| 0 <= i < old(self).nodes@.len() ==> (#[trigger] old(self).nodes@[i]).gid != gid,
            final(self).node_const_keys == old(self).node_const_keys,
            final(self).node_temporal_keys == old(self).node_temporal_keys,
            final(self).edge_const_keys == old(self).edge_const_keys,
            final(self).edge_temporal_keys == old(self).edge_temporal_keys,
            final(self).graph_const_keys == old(self).graph_const_keys,
            final(self).graph_temporal_keys == old(self).graph_temporal_keys,
            final(self).graph_props == old(self).graph_props,
    {
        match self.node_id(gid) {
            Some(v) => v,
            None => {
                let ghost before = self.nodes@;
                self.nodes.push(NodeStore { gid, timestamps: TimeIndex::new(), props: PropStore::new() });
                proof {
                    assert forall|i: int, j: int| 0 <= i < j < self.nodes@.len() implies (#[trigger] self.nodes@[i]).gid != (#[trigger] self.nodes@[j]).gid by {
                        if j < before.len() {
                            assert(self.nodes@[i] == before[i] && self.nodes@[j] == before[j]);
                        } else {
                            assert(self.nodes@[i] == before[i]);
                        }
                    }
                    assert forall|i: int| 0 <= i < self.edges@.len() implies (#[trigger] self.edges@[i]).src < self.nodes@.len() by {
                    }
                }
                self.nodes.len() - 1
            },
        }
    }

    /// The id of the layer `name` names, registering it where it is new; no
    /// name means the default layer.
    fn layer_or_create(&mut self, name: Option<&str>) -> (r: usize)
        requires
            old(self).wf(),
        ensures
            final(self).wf(),
            r < final(self).layers.names@.len(),
            layer_named(final(self), name, r as int),
            old(self).layers.names@.len() <= final(self).layers.names@.len(),
            forall|l: int| layer_named(old(self), name, l) ==> l == r,
            final(self).nodes == old(self).nodes,
            final(self).edges == old(self).edges,
            final(self).seq == old(self).seq,
            final(self).node_temporal_keys == old(self).node_temporal_keys,
            final(self).edge_temporal_keys == old(self).edge_temporal_keys,
    {
        match name {
            None => 0,
            Some(n) => {
                proof {
                    assert forall|l: int| layer_named(old(self), name, l) implies l == old(self).layers.names@.len() || old(self).layers.has(n@) by {
                    }
                }
                let ghost before = self.layers.names@;
                let r = self.layers.resolve(n);
                proof {
                    assert forall|l: int| layer_named(old(self), name, l) implies l == r by {
                        assert(before[l]@ == n@);
                        assert(self.layers.names@[l] == before[l]);
                        if l != r as int {
                            if l < r {
                                assert(self.layers.names@[l]@ != self.layers.names@[r as int]@);
                            } else {
                                assert(self.layers.names@[r as int]@ != self.layers.names@[l]@);
                            }
                        }
                    }
                }
                r
            },
        }
    }

    /// The edge from node `src` to node `dst`, created where it is new.
    fn edge_or_create(&mut self, src: usize, dst: usize) -> (r: usize)
        requires
            old(self).wf(),
            src < old(self).nodes@.len(),
            dst < old(self).nodes@.len(),
        ensures
            final(self).wf(),
            r < final(self).edges@.len(),
            final(self).edges@[r as int].src == src,
            final(self).edges@[r as int].dst == dst,
            forall|i: int| 0 <= i < old(self).edges@.len() ==> final(self).edges@[i] == old(self).edges@[i],
            r < old(self).edges@.len() ==> final(self).edges@.len() == old(self).edges@.len(),
            r >= old(self).edges@.len() ==> r == old(self).edges@.len()
                && final(self).edges@.len() == old(self).edges@.len() + 1
                && final(self).edges@[r as int].additions@.len() == 0
                && final(self).edges@[r as int].deletions@.len() == 0
                && final(self).edges@[r as int].props@.len() == 0
                && forall|i: int| 0 <= i < old(self).edges@.len() ==> !((#[trigger] old(self).edges@[i]).src == src && old(self).edges@[i].dst == dst),
            final(self).nodes == old(self).nodes,
            final(self).layers == old(self).layers,
            final(self).seq == old(self).seq,
            final(self).node_temporal_keys == old(self).node_temporal_keys,
            final(self).edge_temporal_keys == old(self).edge_temporal_keys,
    {
        match self.edge_id(src, dst) {
            Some(e) => e,
            None => {
                let ghost before = self.edges@;
                self.edges.push(EdgeStore::new(src, dst));
                proof {
                    assert forall|i: int, j: int| 0 <= i < j < self.edges@.len() implies !((#[trigger] self.edges@[i]).src == (#[trigger] self.edges@[j]).src
                        && self.edges@[i].dst == self.edges@[j].dst) by {
                        if j < before.len() {
                            assert(self.edges@[i] == before[i] && self.edges@[j] == before[j]);
                        } else {
                            assert(self.edges@[i] == before[i]);
                        }
                    }
                    assert forall|i: int| 0 <= i < self.edges@.len() implies (#[trigger] self.edges@[i]).wf()
                        && self.edges@[i].src < self.nodes@.len() && self.edges@[i].dst < self.nodes@.len()
                        && self.edges@[i].additions@.len() <= self.layers.names@.len()
                        && self.edges@[i].deletions@.len() <= self.layers.names@.len()
                        && self.edges@[i].props@.len() <= self.layers.names@.len() by {
                        if i < before.len() {
                            assert(self.edges@[i] == before[i]);
                        }
                    }
                }
                self.edges.len() - 1
            },
        }
    }

    /// The properties recorded on layer `name` of the edge between the nodes
    /// with external ids `src` and `dst`, where there are any.
    fn layer_props_of(&self, src: u64, dst: u64, name: Option<&str>) -> (r: Option<&PropStore>)
        requires
            self.wf(),
        ensures
            opt_store(r) == edge_layer_store(self, src, dst, name),
            r.is_some() ==> r.unwrap().wf(),
    {
        let s = match self.node_id(src) {
            Some(s) => s,
            None => {
                return None;
            },
        };
        let d = match self.node_id(dst) {
            Some(d) => d,
            None => {
                return None;
            },
        };
        proof {
            lemma_node_unique(self, src, s as int);
            lemma_node_unique(self, dst, d as int);
        }
        let e = match self.edge_id(s, d) {
            Some(e) => e,
            None => {
                return None;
            },
        };
        proof {
            lemma_edge_unique(self, s as int, d as int, e as int);
        }
        let l = match self.layer_id(name) {
            Some(l) => l,
            None => {
                return None;
            },
        };
        proof {
            if let Some(n) = name {
                lemma_layer_unique(self, n@, l as int);
            }
        }
        if l < self.edges[e].props.len() {
            Some(&self.edges[e].props[l])
        } else {
            None
        }
    }

    /// Records the node events of an edge event at `t` and finds (or creates)
    /// the edge and its layer.
    fn touch_edge(&mut self, t: i64, src: u64, dst: u64, name: Option<&str>) -> (r: (usize, usize, TimeIndexEntry))
        requires
            old(self).wf(),
            old(self).seq < u64::MAX,
        ensures
            final(self).wf(),
            r.2 == (TimeIndexEntry { t, seq: old(self).seq }),
            final(self).seq == old(self).seq + 1,
            r.0 < final(self).edges@.len(),
            r.1 < final(self).layers.names@.len(),
            layer_named(final(self), name, r.1 as int),
            forall|l: int| layer_named(old(self), name, l) ==> l == r.1,
            final(self).nodes@[final(self).edges@[r.0 as int].src as int].gid == src,
            final(self).nodes@[final(self).edges@[r.0 as int].dst as int].gid == dst,
            forall|i: int| 0 <= i < old(self).edges@.len() ==> final(self).edges@[i] == old(self).edges@[i],
            r.0 < old(self).edges@.len() ==> final(self).edges@.len() == old(self).edges@.len(),
            r.0 >= old(self).edges@.len() ==> final(self).edges@.len() == old(self).edges@.len() + 1
                && final(self).edges@[r.0 as int].additions@.len() == 0
                && final(self).edges@[r.0 as int].deletions@.len() == 0
                && final(self).edges@[r.0 as int].props@.len() == 0,
            final(self).edge_temporal_keys == old(self).edge_temporal_keys,
            final(self).nodes@.len() >= old(self).nodes@.len(),
            final(self).nodes@.len() <= old(self).nodes@.len() + 2,
            forall|i: int| 0 <= i < old(self).nodes@.len() ==> (#[trigger] final(self).nodes@[i]).gid == old(self).nodes@[i].gid,
    {
        let e = self.next_entry(t);
        let s = self.node_or_create(src);
        self.nodes[s].timestamps.insert(e);
        let d = self.node_or_create(dst);
        self.nodes[d].timestamps.insert(e);
        assert(self.layers == old(self).layers);
        assert(forall|l: int| layer_named(old(self), name, l) == layer_named(self, name, l));
        let l = self.layer_or_create(name);
        let eid = self.edge_or_create(s, d);
        (eid, l, e)
    }

    /// Adds an event at `t` to the edge from node `src` to node `dst` on layer
    /// `layer` (the default layer where it is `None`), with temporal properties
    /// `props`; creates the nodes, the edge and the layer where they are new.
    pub fn add_edge(&mut self, t: i64, src: u64, dst: u64, props: Vec<(String, Prop)>, layer: Option<&str>) -> (r: Result<usize, GraphError>)
        requires
            old(self).wf(),
        ensures
            add_edge_post(old(self), &*final(self), t, src, dst, props@, layer, r),
    {
        if self.seq == u64::MAX {
            return Err(GraphError::SequenceExhausted);
        }
        let ok = GraphStorage::check_types(&self.edge_temporal_keys, self.layer_props_of(src, dst, layer), &props);
        if !ok {
            return Err(GraphError::PropertyTypeMismatch);
        }
        let (eid, l, e) = self.touch_edge(t, src, dst, layer);
        let ghost g1 = *self;
        // Reading the length bounds the layer ids by `usize`.
        let _layer_count = self.layers.names.len();
        let edge = &mut self.edges[eid];
        reach_layer(&mut edge.additions, l);
        edge.additions[l].insert(e);
        reach_prop_layer(&mut edge.props, l);
        GraphStorage::write_props(&mut self.edge_temporal_keys, &mut edge.props[l], e, props);
        proof {
            let fe = self.edges@[eid as int];
            let ge = g1.edges@[eid as int];
            assert(fe.additions@[l as int]@.to_set() == ge.adds(l as int).to_set().insert(e));
            assert(fe.adds(l as int) == fe.additions@[l as int]@);
            assert(prior_adds(old(self), eid as int, l as int) == ge.adds(l as int).to_set()) by {
                if eid >= old(self).edges@.len() {
                    assert(ge.adds(l as int) =~= Seq::<TimeIndexEntry>::empty());
                    assert(ge.adds(l as int).to_set() =~= Set::<TimeIndexEntry>::empty());
                }
            }
            assert forall|l2: int| l2 != l implies #[trigger] fe.adds(l2).to_set() == prior_adds(old(self), eid as int, l2) by {
                if eid >= old(self).edges@.len() {
                    assert(ge.adds(l2) =~= Seq::<TimeIndexEntry>::empty());
                    assert(fe.adds(l2) =~= Seq::<TimeIndexEntry>::empty());
                    assert(fe.adds(l2).to_set() =~= Set::<TimeIndexEntry>::empty());
                } else {
                    assert(fe.adds(l2) == ge.adds(l2));
                }
            }
            assert(layer_named(self, layer, l as int));
            assert(self.seq == old(self).seq + 1);
            assert(self.nodes@[self.edges@[eid as int].src as int].gid == src);
            assert(self.nodes@[self.edges@[eid as int].dst as int].gid == dst);
            assert(forall|i: int| 0 <= i < old(self).edges@.len() && i != eid ==> self.edges@[i] == old(self).edges@[i]);
            assert(e == TimeIndexEntry { t, seq: old(self).seq });
        }
        Ok(eid)
    }

    /// Records a deletion at `t` of the edge from node `src` to node `dst` on
    /// layer `layer` (the default layer where it is `None`); creates the nodes,
    /// the edge and the layer where they are new.
    pub fn delete_edge(&mut self, t: i64, src: u64, dst: u64, layer: Option<&str>) -> (r: Result<usize, GraphError>)
        requires
            old(self).wf(),
        ensures
            delete_edge_post(old(self), &*final(self), t, src, dst, layer, r),
    {
        if self.seq == u64::MAX {
            return Err(GraphError::SequenceExhausted);
        }
        let (eid, l, e) = self.touch_edge(t, src, dst, layer);
        let ghost g1 = *self;
        // Reading the length bounds the layer ids by `usize`.
        let _layer_count = self.layers.names.len();
        let edge = &mut self.edges[eid];
        reach_layer(&mut edge.deletions, l);
        edge.deletions[l].insert(e);
        proof {
            let fe = self.edges@[eid as int];
            let ge = g1.edges@[eid as int];
            assert(fe.deletions@[l as int]@.to_set() == ge.dels(l as int).to_set().insert(e));
            assert(fe.dels(l as int) == fe.deletions@[l as int]@);
            assert(prior_dels(old(self), eid as int, l as int) == ge.dels(l as int).to_set()) by {
                if eid >= old(self).edges@.len() {
                    assert(ge.dels(l as int) =~= Seq::<TimeIndexEntry>::empty());
                    assert(ge.dels(l as int).to_set() =~= Set::<TimeIndexEntry>::empty());
                }
            }
            assert forall|l2: int| l2 != l implies #[trigger] fe.dels(l2).to_set() == prior_dels(old(self), eid as int, l2) by {
                if eid >= old(self).edges@.len() {
                    assert(fe.dels(l2) =~= Seq::<TimeIndexEntry>::empty());
                    assert(fe.dels(l2).to_set() =~= Set::<TimeIndexEntry>::empty());
                } else {
                    assert(fe.dels(l2) == ge.dels(l2));
                }
            }
            assert forall|l2: int| #[trigger] fe.adds(l2).to_set() == prior_adds(old(self), eid as int, l2) by {
                if eid >= old(self).edges@.len() {
                    assert(fe.adds(l2) =~= Seq::<TimeIndexEntry>::empty());
                    assert(fe.adds(l2).to_set() =~= Set::<TimeIndexEntry>::empty());
                } else {
                    assert(fe.adds(l2) == ge.adds(l2));
                }
            }
            assert(layer_named(self, layer, l as int));
            assert(self.seq == old(self).seq + 1);
            assert(self.nodes@[self.edges@[eid as int].src as int].gid == src);
            assert(self.nodes@[self.edges@[eid as int].dst as int].gid == dst);
            assert(forall|i: int| 0 <= i < old(self).edges@.len() && i != eid ==> self.edges@[i] == old(self).edges@[i]);
            assert(e == TimeIndexEntry { t, seq: old(self).seq });
        }
        Ok(eid)
    }

    /// Sets constant properties of the node with external id `gid`:
    /// `UnknownNode` where there is no such node, `ConstantPropertyConflict`
    /// (and no change) where a value differs from one already set.
    pub fn add_node_properties(&mut self, gid: u64, props: Vec<(String, Prop)>) -> (r: Result<(), GraphError>)
        requires
            old(self).wf(),
        ensures
            add_node_properties_post(old(self), &*final(self), gid, props@, r),
    {
        let v = match self.node_id(gid) {
            Some(v) => v,
            None => {
                return Err(GraphError::UnknownNode);
            },
        };
        proof {
            lemma_node_unique(self, gid, v as int);
        }
        let ghost before = *self;
        let node = &mut self.nodes[v];
        let ok = set_constants(&mut self.node_const_keys, &mut node.props, props);
        if !ok {
            proof {
                assert(self.nodes@ =~= before.nodes@);
            }
            return Err(GraphError::ConstantPropertyConflict);
        }
        proof {
            assert forall|i: int| 0 <= i < self.nodes@.len() implies (#[trigger] self.nodes@[i]).wf() by {
                if i != v {
                    assert(self.nodes@[i] == before.nodes@[i]);
                }
            }
            assert forall|i: int, j: int| 0 <= i < j < self.nodes@.len() implies (#[trigger] self.nodes@[i]).gid != (#[trigger] self.nodes@[j]).gid by {
                assert(self.nodes@[i].gid == before.nodes@[i].gid && self.nodes@[j].gid == before.nodes@[j].gid);
            }
        }
        Ok(())
    }

    /// Sets constant properties of layer `layer` (the default layer where it
    /// is `None`) of the edge between the nodes with external ids `src` and
    /// `dst`: `UnknownEdge` or `UnknownLayer` where there is no such edge or
    /// layer, `ConstantPropertyConflict` (and no change) where a value differs
    /// from one already set.
    pub fn add_edge_properties(&mut self, src: u64, dst: u64, props: Vec<(String, Prop)>, layer: Option<&str>) -> (r: Result<(), GraphError>)
        requires
            old(self).wf(),
        ensures
            add_edge_properties_post(old(self), &*final(self), src, dst, props@, layer, r),
    {
        let s = match self.node_id(src) {
            Some(s) => s,
            None => {
                return Err(GraphError::UnknownEdge);
            },
        };
        let d = match self.node_id(dst) {
            Some(d) => d,
            None => {
                proof {
                    lemma_node_unique(self, src, s as int);
                }
                return Err(GraphError::UnknownEdge);
            },
        };
        proof {
            lemma_node_unique(self, src, s as int);
            lemma_node_unique(self, dst, d as int);
        }
        let e = match self.edge_id(s, d) {
            Some(e) => e,
            None => {
                return Err(GraphError::UnknownEdge);
            },
        };
        proof {
            lemma_edge_unique(self, s as int, d as int, e as int);
        }
        let l = match self.layer_id(layer) {
            Some(l) => l,
            None => {
                return Err(GraphError::UnknownLayer);
            },
        };
        proof {
            if let Some(n) = layer {
                lemma_layer_unique(self, n@, l as int);
            }
        }
        let ghost before = *self;
        // Reading the length bounds the layer ids by `usize`.
        let _layer_count = self.layers.names.len();
        let edge = &mut self.edges[e];
        reach_prop_layer(&mut edge.props, l);
        let ghost fresh = edge.props@[l as int];
        proof {
            if l >= before.edges@[e as int].props@.len() {
                lemma_fresh_store(&before.edge_const_keys, &fresh, props@);
            }
        }
        let ok = set_constants(&mut self.edge_const_keys, &mut edge.props[l], props);
        proof {
            assert forall|i: int| 0 <= i < self.edges@.len() implies (#[trigger] self.edges@[i]).wf()
                && self.edges@[i].src < self.nodes@.len() && self.edges@[i].dst < self.nodes@.len()
                && self.edges@[i].additions@.len() <= self.layers.names@.len()
                && self.edges@[i].deletions@.len() <= self.layers.names@.len()
                && self.edges@[i].props@.len() <= self.layers.names@.len() by {
                if i != e {
                    assert(self.edges@[i] == before.edges@[i]);
                }
            }
            assert forall|i: int, j: int| 0 <= i < j < self.edges@.len() implies !((#[trigger] self.edges@[i]).src == (#[trigger] self.edges@[j]).src
                && self.edges@[i].dst == self.edges@[j].dst) by {
                assert(self.edges@[i].src == before.edges@[i].src && self.edges@[j].src == before.edges@[j].src);
                assert(self.edges@[i].dst == before.edges@[i].dst && self.edges@[j].dst == before.edges@[j].dst);
            }
        }
        if !ok {
            return Err(GraphError::ConstantPropertyConflict);
        }
        Ok(())
    }

    /// Sets constant properties of the graph itself; `ConstantPropertyConflict`
    /// (and no change) where a value differs from one already set.
    pub fn add_constant_properties(&mut self, props: Vec<(String, Prop)>) -> (r: Result<(), GraphError>)
        requires
            old(self).wf(),
        ensures
            add_constant_properties_post(old(self), &*final(self), props@, r),
    {
        if set_constants(&mut self.graph_const_keys, &mut self.graph_props, props) {
            Ok(())
        } else {
            Err(GraphError::ConstantPropertyConflict)
        }
    }

    /// Records temporal properties of the graph itself at `t`.
    pub fn add_properties(&mut self, t: i64, props: Vec<(String, Prop)>) -> (r: Result<(), GraphError>)
        requires
            old(self).wf(),
        ensures
            add_properties_post(old(self), &*final(self), t, props@, r),
    {
        if self.seq == u64::MAX {
            return Err(GraphError::SequenceExhausted);
        }
        if !GraphStorage::check_types(&self.graph_temporal_keys, Some(&self.graph_props), &props) {
            return Err(GraphError::PropertyTypeMismatch);
        }
        let e = self.next_entry(t);
        GraphStorage::write_props(&mut self.graph_temporal_keys, &mut self.graph_props, e, props);
        Ok(())
    }

    /// Checks that the temporal values in `props` keep each key's type: the
    /// type of its earlier writes on `existing`, and of earlier items of `props`.
    fn check_types(keys: &KeyRegistry, existing: Option<&PropStore>, props: &Vec<(String, Prop)>) -> (r: bool)
        requires
            keys.wf(),
            existing.is_some() ==> existing.unwrap().wf(),
        ensures
            r == types_agree(keys, opt_store(existing), props@),
    {
        let mut i: usize = 0;
        while i < props.len()
            invariant
                keys.wf(),
                existing.is_some() ==> existing.unwrap().wf(),
                i <= props@.len(),
                forall|a: int| 0 <= a < i ==> item_agrees(keys, opt_store(existing), props@, a),
            decreases props@.len() - i,
        {
            let found = keys.find(props[i].0.as_str());
            proof {
                if let Some(k) = found {
                    let c = choose|c: int| 0 <= c < keys.names@.len() && (#[trigger] keys.names@[c])@ == props@[i as int].0@;
                    assert(keys.names@[k as int]@ == props@[i as int].0@);
                    if c != k as int {
                        if c < k {
                            assert(keys.names@[c]@ != keys.names@[k as int]@);
                        } else {
                            assert(keys.names@[k as int]@ != keys.names@[c]@);
                        }
                    }
                    assert(name_pos(keys.names@, props@[i as int].0@) == Some(k as int));
                } else {
                    assert(name_pos(keys.names@, props@[i as int].0@).is_none());
                }
            }
            let ok_existing = match found {
                Some(k) => match existing {
                    Some(store) => match store.temporal(k) {
                        Some(log) => match log.first_value() {
                            Some(first) => first.same_kind(&props[i].1),
                            None => true,
                        },
                        None => true,
                    },
                    None => true,
                },
                None => true,
            };
            let mut ok_items = true;
            let mut j: usize = 0;
            while j < i
                invariant
                    i < props@.len(),
                    j <= i,
                    ok_items == forall|b: int| 0 <= b < j ==> ((#[trigger] props@[b]).0@ == props@[i as int].0@ ==> same_kind(props@[b].1@, props@[i as int].1@)),
                decreases i - j,
            {
                if props[j].0 == props[i].0 && !props[j].1.same_kind(&props[i].1) {
                    ok_items = false;
                }
                j += 1;
            }
            proof {
                if ok_existing && ok_items {
                    assert(item_agrees(keys, opt_store(existing), props@, i as int));
                }
            }
            if !(ok_existing && ok_items) {
                proof {
                    assert(!item_agrees(keys, opt_store(existing), props@, i as int));
                }
                return false;
            }
            i += 1;
        }
        true
    }

    /// Writes the temporal values in `props` at `e` to `store`, registering their keys.
    fn write_props(keys: &mut KeyRegistry, store: &mut PropStore, e: TimeIndexEntry, props: Vec<(String, Prop)>)
        requires
            old(keys).wf(),
            old(store).wf(),
        ensures
            final(keys).wf(),
            final(store).wf(),
            final(keys).names@.len() >= old(keys).names@.len(),
            forall|n: Seq<char>| old(keys).has(n) ==> final(keys).has(n),
            forall|a: int| 0 <= a < props@.len() ==> final(keys).has((#[trigger] props@[a]).0@),
            forall|a: int| 0 <= a < props@.len() ==> #[trigger] written_at(final(keys), final(store), props@[a].0@, e, props@[a].1@)
                || exists|b: int| a < b < props@.len() && (#[trigger] props@[b]).0@ == props@[a].0@,
            final(store).constant == old(store).constant,
    {
        let mut props = props;
        let ghost all = props@;
        let mut written: usize = 0;
        let total = props.len();
        while props.len() > 0
            invariant
                keys.wf(),
                store.wf(),
                keys.names@.len() >= old(keys).names@.len(),
                forall|n: Seq<char>| old(keys).has(n) ==> keys.has(n),
                props@ == all.subrange(written as int, total as int),
                total == all.len(),
                written <= total,
                forall|a: int| 0 <= a < written ==> keys.has((#[trigger] all[a]).0@),
                forall|a: int| 0 <= a < written ==> #[trigger] written_at(keys, store, all[a].0@, e, all[a].1@)
                    || exists|b: int| a < b < written && (#[trigger] all[b]).0@ == all[a].0@,
                store.constant == old(store).constant,
            decreases props@.len(),
        {
            let (name, value) = props.remove(0);
            let ghost before = keys.names@;
            let ghost k0 = *keys;
            let ghost s0 = *store;
            let ghost vv = value@;
            let k = keys.resolve(name.as_str());
            store.write_temporal(k, e, value);
            proof {
                assert(all[written as int].1@ == vv);
                assert(keys.find_spec(name@) == Some(k)) by {
                    lemma_find_unique(keys, name@, k as int);
                }
                lemma_set_contains(store.temporal_log(k), s0.temporal_log(k), e, vv);
                assert(written_at(keys, store, name@, e, vv));
                assert forall|a: int| 0 <= a < written + 1 implies #[trigger] written_at(keys, store, all[a].0@, e, all[a].1@)
                    || exists|b: int| a < b < written + 1 && (#[trigger] all[b]).0@ == all[a].0@ by {
                    if a < written && all[a].0@ != name@ {
                        lemma_resolve_keeps(&k0, keys, name@, all[a].0@);
                        lemma_other_log(keys, store, &s0, k, name@, all[a].0@);
                        if !written_at(&k0, &s0, all[a].0@, e, all[a].1@) {
                            let b = choose|b: int| a < b < written && (#[trigger] all[b]).0@ == all[a].0@;
                        }
                    } else if a < written {
                        assert(all[written as int].0@ == all[a].0@);
                    }
                }
                assert(all[written as int].0@ == name@);
                assert(keys.has(name@)) by {
                    assert(keys.names@[k as int]@ == name@);
                }
                assert forall|n: Seq<char>| old(keys).has(n) implies keys.has(n) by {
                    if !old(keys).has(name@) {
                        let i = choose|i: int| 0 <= i < before.len() && (#[trigger] before[i])@ == n;
                        assert(keys.names@[i] == before[i]);
                    }
                }
                assert forall|a: int| 0 <= a < written + 1 implies keys.has((#[trigger] all[a]).0@) by {
                    if a < written && !old(keys).has(name@) {
                        let i = choose|i: int| 0 <= i < before.len() && (#[trigger] before[i])@ == all[a].0@;
                        assert(keys.names@[i] == before[i]);
                    }
                }
                assert(props@ =~= all.subrange(written + 1, total as int));
            }
            written += 1;
        }
    }

    /// Adds an event at `t` for the node with external id `gid`, with
    /// temporal properties `props`; creates the node where it is new.
    pub fn add_node(&mut self, t: i64, gid: u64, props: Vec<(String, Prop)>) -> (r: Result<usize, GraphError>)
        requires
            old(self).wf(),
        ensures
            add_node_post(old(self), &*final(self), t, gid, props@, r),
    {
        if self.seq == u64::MAX {
            return Err(GraphError::SequenceExhausted);
        }
        let existing = self.node_id(gid);
        let ok = match existing {
            Some(v) => GraphStorage::check_types(&self.node_temporal_keys, Some(&self.nodes[v].props), &props),
            None => GraphStorage::check_types(&self.node_temporal_keys, None, &props),
        };
        proof {
            if let Some(w) = existing {
                let c = choose|i: int| 0 <= i < self.nodes@.len() && (#[trigger] self.nodes@[i]).gid == gid;
                if c != w as int {
                    if c < w {
                        assert(self.nodes@[c].gid != self.nodes@[w as int].gid);
                    } else {
                        assert(self.nodes@[w as int].gid != self.nodes@[c].gid);
                    }
                }
            }
        }
        if !ok {
            return Err(GraphError::PropertyTypeMismatch);
        }
        let e = self.next_entry(t);
        let v = self.node_or_create(gid);
        let ghost old_ts = self.nodes@[v as int].timestamps@;
        proof {
            assert(old_ts.to_set() == node_times(old(self), gid)) by {
                if v >= old(self).nodes@.len() {
                    assert(old_ts.to_set() =~= Set::<TimeIndexEntry>::empty());
                } else {
                    let c = choose|i: int| 0 <= i < old(self).nodes@.len() && (#[trigger] old(self).nodes@[i]).gid == gid;
                    assert(old(self).nodes@[v as int].gid == gid);
                    if c != v as int {
                        if c < v {
                            assert(old(self).nodes@[c].gid != old(self).nodes@[v as int].gid);
                        } else {
                            assert(old(self).nodes@[v as int].gid != old(self).nodes@[c].gid);
                        }
                    }
                }
            }
        }
        let node = &mut self.nodes[v];
        node.timestamps.insert(e);
        GraphStorage::write_props(&mut self.node_temporal_keys, &mut node.props, e, props);
        Ok(v)
    }
}

/// What `add_edge` guarantees of the graph `f` it leaves from `o`.
pub open spec fn add_edge_post(o: &GraphStorage, f: &GraphStorage, t: i64, src: u64, dst: u64, props: Seq<(String, Prop)>, layer: Option<&str>, r: Result<usize, GraphError>) -> bool {
    &&& f.wf()
    &&& f.nodes@.len() >= o.nodes@.len()
    &&& forall|i: int| 0 <= i < o.nodes@.len() ==> (#[trigger] f.nodes@[i]).gid == o.nodes@[i].gid
    &&& f.nodes@.len() <= o.nodes@.len() + 2
    &&& f.edges@.len() <= o.edges@.len() + 1
    &&& o.seq == u64::MAX ==> r == Err::<usize, GraphError>(GraphError::SequenceExhausted)
    &&& o.seq < u64::MAX ==> (r is Ok <==> types_agree(&o.edge_temporal_keys, edge_layer_store(o, src, dst, layer), props))
    &&& r is Err ==> f.nodes == o.nodes && f.edges == o.edges
    &&& match r {
        Ok(eid) => eid < f.edges@.len()
            && f.seq == o.seq + 1
            && f.nodes@[f.edges@[eid as int].src as int].gid == src
            && f.nodes@[f.edges@[eid as int].dst as int].gid == dst
            && (forall|i: int| 0 <= i < o.edges@.len() && i != eid ==> f.edges@[i] == o.edges@[i])
            && exists|l: int| layer_named(f, layer, l)
                && (#[trigger] f.edges@[eid as int].adds(l)).to_set()
                    == prior_adds(o, eid as int, l).insert(TimeIndexEntry { t, seq: o.seq })
                && (forall|l2: int| l2 != l ==> #[trigger] f.edges@[eid as int].adds(l2).to_set() == prior_adds(o, eid as int, l2))
                && 0 <= l < f.edges@[eid as int].props@.len()
                && (forall|a: int| 0 <= a < props.len() ==> #[trigger] written_at(&f.edge_temporal_keys,
                    &f.edges@[eid as int].props@[l], props[a].0@, TimeIndexEntry { t, seq: o.seq }, props[a].1@)
                    || exists|b: int| a < b < props.len() && (#[trigger] props[b]).0@ == props[a].0@),
        Err(e) => e == GraphError::SequenceExhausted || e == GraphError::PropertyTypeMismatch,
    }
}

/// What `delete_edge` guarantees of the graph `f` it leaves from `o`.
pub open spec fn delete_edge_post(o: &GraphStorage, f: &GraphStorage, t: i64, src: u64, dst: u64, layer: Option<&str>, r: Result<usize, GraphError>) -> bool {
    &&& f.wf()
    &&& f.nodes@.len() >= o.nodes@.len()
    &&& forall|i: int| 0 <= i < o.nodes@.len() ==> (#[trigger] f.nodes@[i]).gid == o.nodes@[i].gid
    &&& f.nodes@.len() <= o.nodes@.len() + 2
    &&& f.edges@.len() <= o.edges@.len() + 1
    &&& r is Err <==> o.seq == u64::MAX
    &&& r is Err ==> r == Err::<usize, GraphError>(GraphError::SequenceExhausted) && *f == *o
    &&& match r {
        Ok(eid) => eid < f.edges@.len()
            && f.seq == o.seq + 1
            && f.nodes@[f.edges@[eid as int].src as int].gid == src
            && f.nodes@[f.edges@[eid as int].dst as int].gid == dst
            && (forall|i: int| 0 <= i < o.edges@.len() && i != eid ==> f.edges@[i] == o.edges@[i])
            && exists|l: int| layer_named(f, layer, l)
                && (#[trigger] f.edges@[eid as int].dels(l)).to_set()
                    == prior_dels(o, eid as int, l).insert(TimeIndexEntry { t, seq: o.seq })
                && (forall|l2: int| l2 != l ==> #[trigger] f.edges@[eid as int].dels(l2).to_set() == prior_dels(o, eid as int, l2))
                && (forall|l2: int| #[trigger] f.edges@[eid as int].adds(l2).to_set() == prior_adds(o, eid as int, l2)),
        Err(_) => true,
    }
}

/// What `add_node_properties` guarantees of the graph `f` it leaves from `o`.
pub open spec fn add_node_properties_post(o: &GraphStorage, f: &GraphStorage, gid: u64, props: Seq<(String, Prop)>, r: Result<(), GraphError>) -> bool {
    &&& f.wf()
    &&& r is Err ==> f.nodes@ == o.nodes@ && f.edges == o.edges
    &&& match node_of(o, gid) {
        None => r == Err::<(), GraphError>(GraphError::UnknownNode),
        Some(v) => (r is Ok <==> constants_registered(&o.node_const_keys, &o.nodes@[v].props)
            && constants_agree(&o.node_const_keys, &o.nodes@[v].props, props))
            && (r is Err ==> r == Err::<(), GraphError>(GraphError::ConstantPropertyConflict))
            && (r is Ok ==> forall|a: int| 0 <= a < props.len() ==> value_named(&f.node_const_keys,
                &f.nodes@[v].props, (#[trigger] props[a]).0@) == Some(props[a].1@)),
    }
}

/// What `add_edge_properties` guarantees of the graph `f` it leaves from `o`.
pub open spec fn add_edge_properties_post(o: &GraphStorage, f: &GraphStorage, src: u64, dst: u64, props: Seq<(String, Prop)>, layer: Option<&str>, r: Result<(), GraphError>) -> bool {
    &&& f.wf()
    &&& r is Err ==> f.nodes == o.nodes
    &&& edge_of(o, src, dst).is_none() ==> r == Err::<(), GraphError>(GraphError::UnknownEdge)
    &&& edge_of(o, src, dst).is_some() && layer_of(o, layer).is_none() ==> r == Err::<(), GraphError>(GraphError::UnknownLayer)
    &&& r is Ok ==> edge_of(o, src, dst).is_some() && layer_of(o, layer).is_some()
    &&& match (edge_of(o, src, dst), layer_of(o, layer)) {
        (Some(e), Some(l)) => r is Ok <==> if 0 <= l < o.edges@[e].props@.len() {
            constants_registered(&o.edge_const_keys, &o.edges@[e].props@[l])
                && constants_agree(&o.edge_const_keys, &o.edges@[e].props@[l], props)
        } else {
            props_consistent(props)
        },
        _ => true,
    }
    &&& match (edge_of(o, src, dst), layer_of(o, layer)) {
        (Some(e), Some(l)) => r is Ok ==> forall|a: int| 0 <= a < props.len() ==> value_named(&f.edge_const_keys,
            &f.edges@[e].props@[l], (#[trigger] props[a]).0@) == Some(props[a].1@),
        _ => true,
    }
    &&& match r {
        Ok(_) => true,
        Err(e) => e == GraphError::UnknownEdge || e == GraphError::UnknownLayer || e == GraphError::ConstantPropertyConflict,
    }
}

/// What `add_constant_properties` guarantees of the graph `f` it leaves from `o`.
pub open spec fn add_constant_properties_post(o: &GraphStorage, f: &GraphStorage, props: Seq<(String, Prop)>, r: Result<(), GraphError>) -> bool {
    &&& f.wf()
    &&& f.nodes == o.nodes && f.edges == o.edges
    &&& r is Ok <==> constants_registered(&o.graph_const_keys, &o.graph_props)
        && constants_agree(&o.graph_const_keys, &o.graph_props, props)
    &&& r is Err ==> r == Err::<(), GraphError>(GraphError::ConstantPropertyConflict)
    &&& r is Ok ==> forall|a: int| 0 <= a < props.len() ==> value_named(&f.graph_const_keys,
        &f.graph_props, (#[trigger] props[a]).0@) == Some(props[a].1@)
}

/// What `add_properties` guarantees of the graph `f` it leaves from `o`.
pub open spec fn add_properties_post(o: &GraphStorage, f: &GraphStorage, t: i64, props: Seq<(String, Prop)>, r: Result<(), GraphError>) -> bool {
    &&& f.wf()
    &&& f.nodes == o.nodes && f.edges == o.edges
    &&& o.seq == u64::MAX ==> r == Err::<(), GraphError>(GraphError::SequenceExhausted)
    &&& o.seq < u64::MAX ==> (r is Ok <==> types_agree(&o.graph_temporal_keys, Some(o.graph_props), props))
    &&& r is Ok ==> forall|a: int| 0 <= a < props.len() ==> #[trigger] written_at(&f.graph_temporal_keys,
        &f.graph_props, props[a].0@, TimeIndexEntry { t, seq: o.seq }, props[a].1@)
        || exists|b: int| a < b < props.len() && (#[trigger] props[b]).0@ == props[a].0@
    &&& match r {
        Ok(_) => true,
        Err(e) => e == GraphError::SequenceExhausted || e == GraphError::PropertyTypeMismatch,
    }
}

/// What `add_node` guarantees of the graph `f` it leaves from `o`.
pub open spec fn add_node_post(o: &GraphStorage, f: &GraphStorage, t: i64, gid: u64, props: Seq<(String, Prop)>, r: Result<usize, GraphError>) -> bool {
    &&& f.wf()
    &&& f.nodes@.len() >= o.nodes@.len()
    &&& forall|i: int| 0 <= i < o.nodes@.len() ==> (#[trigger] f.nodes@[i]).gid == o.nodes@[i].gid
    &&& f.nodes@.len() <= o.nodes@.len() + 1
    &&& o.seq == u64::MAX ==> r == Err::<usize, GraphError>(GraphError::SequenceExhausted)
    &&& r is Err ==> f.nodes == o.nodes && f.edges == o.edges
    &&& r is Ok <==> o.seq < u64::MAX && node_types_agree(o, gid, props)
    &&& match r {
        Ok(v) => v < f.nodes@.len() && f.nodes@[v as int].gid == gid
            && f.nodes@[v as int].timestamps@.to_set()
                == node_times(o, gid).insert(TimeIndexEntry { t, seq: o.seq })
            && f.seq == o.seq + 1
            && f.edges == o.edges
            && forall|a: int| 0 <= a < props.len() ==> #[trigger] written_at(&f.node_temporal_keys,
                &f.nodes@[v as int].props, props[a].0@, TimeIndexEntry { t, seq: o.seq }, props[a].1@)
                || exists|b: int| a < b < props.len() && (#[trigger] props[b]).0@ == props[a].0@,
        Err(e) => e == GraphError::SequenceExhausted || e == GraphError::PropertyTypeMismatch,
    }
}

/// Whether `l` is the id of the layer `name` names; no name means the default layer.
pub open spec fn layer_named(g: &GraphStorage, name: Option<&str>, l: int) -> bool {
    match name {
        None => l == 0,
        Some(n) => 0 <= l < g.layers.names@.len() && g.layers.names@[l]@ == n@,
    }
}

/// The id of the layer `name` names.
pub open spec fn layer_of(g: &GraphStorage, name: Option<&str>) -> Option<int> {
    match name {
        None => Some(0),
        Some(n) => name_pos(g.layers.names@, n@),
    }
}

/// The dense id of the node with external id `gid`.
pub open spec fn node_of(g: &GraphStorage, gid: u64) -> Option<int> {
    if exists|i: int| 0 <= i < g.nodes@.len() && (#[trigger] g.nodes@[i]).gid == gid {
        Some(choose|i: int| 0 <= i < g.nodes@.len() && (#[trigger] g.nodes@[i]).gid == gid)
    } else {
        None
    }
}

/// The dense id of the edge from node `s` to node `d`.
pub open spec fn edge_idx(g: &GraphStorage, s: int, d: int) -> Option<int> {
    if exists|i: int| 0 <= i < g.edges@.len() && (#[trigger] g.edges@[i]).src == s && g.edges@[i].dst == d {
        Some(choose|i: int| 0 <= i < g.edges@.len() && (#[trigger] g.edges@[i]).src == s && g.edges@[i].dst == d)
    } else {
        None
    }
}

/// The dense id of the edge between the nodes with external ids `src` and `dst`.
pub open spec fn edge_of(g: &GraphStorage, src: u64, dst: u64) -> Option<int> {
    match (node_of(g, src), node_of(g, dst)) {
        (Some(s), Some(d)) => edge_idx(g, s, d),
        _ => None,
    }
}

/// The properties on layer `name` of the edge between `src` and `dst`.
pub open spec fn edge_layer_store(g: &GraphStorage, src: u64, dst: u64, name: Option<&str>) -> Option<PropStore> {
    match (edge_of(g, src, dst), layer_of(g, name)) {
        (Some(e), Some(l)) => if 0 <= l < g.edges@[e].props@.len() {
            Some(g.edges@[e].props@[l])
        } else {
            None
        },
        _ => None,
    }
}

/// The additions, as a set, that edge `e` had on layer `l`; none for an edge
/// that did not exist.
pub open spec fn prior_adds(g: &GraphStorage, e: int, l: int) -> Set<TimeIndexEntry> {
    if 0 <= e < g.edges@.len() {
        g.edges@[e].adds(l).to_set()
    } else {
        Set::empty()
    }
}

/// The deletions, as a set, that edge `e` had on layer `l`; none for an edge
/// that did not exist.
pub open spec fn prior_dels(g: &GraphStorage, e: int, l: int) -> Set<TimeIndexEntry> {
    if 0 <= e < g.edges@.len() {
        g.edges@[e].dels(l).to_set()
    } else {
        Set::empty()
    }
}

pub proof fn lemma_node_unique(g: &GraphStorage, gid: u64, i: int)
    requires
        g.wf(),
        0 <= i < g.nodes@.len(),
        g.nodes@[i].gid == gid,
    ensures
        node_of(g, gid) == Some(i),
{
    let c = choose|c: int| 0 <= c < g.nodes@.len() && (#[trigger] g.nodes@[c]).gid == gid;
    if c != i {
        if c < i {
            assert(g.nodes@[c].gid != g.nodes@[i].gid);
        } else {
            assert(g.nodes@[i].gid != g.nodes@[c].gid);
        }
    }
}

pub proof fn lemma_edge_unique(g: &GraphStorage, s: int, d: int, e: int)
    requires
        g.wf(),
        0 <= e < g.edges@.len(),
        g.edges@[e].src == s,
        g.edges@[e].dst == d,
    ensures
        edge_idx(g, s, d) == Some(e),
{
    let c = choose|c: int| 0 <= c < g.edges@.len() && (#[trigger] g.edges@[c]).src == s && g.edges@[c].dst == d;
    if c != e {
        if c < e {
            assert(!(g.edges@[c].src == g.edges@[e].src && g.edges@[c].dst == g.edges@[e].dst));
        } else {
            assert(!(g.edges@[e].src == g.edges@[c].src && g.edges@[e].dst == g.edges@[c].dst));
        }
    }
}

pub proof fn lemma_find_unique(keys: &KeyRegistry, n: Seq<char>, l: int)
    requires
        keys.wf(),
        0 <= l < keys.names@.len(),
        keys.names@[l]@ == n,
    ensures
        keys.find_spec(n) == Some(l as usize),
{
    let c = choose|c: int| 0 <= c < keys.names@.len() && (#[trigger] keys.names@[c])@ == n;
    if c != l {
        if c < l {
            assert(keys.names@[c]@ != keys.names@[l]@);
        } else {
            assert(keys.names@[l]@ != keys.names@[c]@);
        }
    }
}

pub proof fn lemma_layer_unique(g: &GraphStorage, n: Seq<char>, l: int)
    requires
        g.wf(),
        0 <= l < g.layers.names@.len(),
        g.layers.names@[l]@ == n,
    ensures
        name_pos(g.layers.names@, n) == Some(l),
{
    let c = choose|c: int| 0 <= c < g.layers.names@.len() && (#[trigger] g.layers.names@[c])@ == n;
    if c != l {
        if c < l {
            assert(g.layers.names@[c]@ != g.layers.names@[l]@);
        } else {
            assert(g.layers.names@[l]@ != g.layers.names@[c]@);
        }
    }
}

/// The store a reference points to.
pub open spec fn opt_store(o: Option<&PropStore>) -> Option<PropStore> {
    match o {
        Some(p) => Some(*p),
        None => None,
    }
}

/// The constant value `store` holds under the key named `name`.
pub open spec fn value_named(keys: &KeyRegistry, store: &PropStore, name: Seq<char>) -> Option<PropValue> {
    match keys.find_spec(name) {
        Some(k) => store.constant_value(k),
        None => None,
    }
}

/// Whether items of `props` with the same name hold the same value.
pub open spec fn props_consistent(props: Seq<(String, Prop)>) -> bool {
    forall|a: int, b: int| 0 <= b < a < props.len() ==> ((#[trigger] props[b]).0@ == (#[trigger] props[a]).0@ ==> props[b].1@ == props[a].1@)
}

/// A store with no constant values accepts exactly the self-consistent lists.
proof fn lemma_fresh_store(keys: &KeyRegistry, store: &PropStore, props: Seq<(String, Prop)>)
    requires
        store.constant@.len() == 0,
    ensures
        constants_registered(keys, store),
        constants_agree(keys, store, props) == props_consistent(props),
{
    assert forall|n: Seq<char>| value_named(keys, store, n).is_none() by {}
}

/// Whether every constant key of `store` is registered in `keys`.
pub open spec fn constants_registered(keys: &KeyRegistry, store: &PropStore) -> bool {
    forall|i: int| 0 <= i < store.constant@.len() ==> (#[trigger] store.constant@[i]).0 < keys.names@.len()
}

/// Whether the constant values in `props` agree with those already held and
/// with each other.
pub open spec fn constants_agree(keys: &KeyRegistry, store: &PropStore, props: Seq<(String, Prop)>) -> bool {
    forall|a: int| 0 <= a < props.len() ==> {
        &&& (value_named(keys, store, (#[trigger] props[a]).0@).is_none() || value_named(keys, store, props[a].0@) == Some(props[a].1@))
        &&& forall|b: int| 0 <= b < a ==> ((#[trigger] props[b]).0@ == props[a].0@ ==> props[b].1@ == props[a].1@)
    }
}

/// Whether `store` holds, under the key named `name`, the write of `v` at `e`.
pub open spec fn written_at(keys: &KeyRegistry, store: &PropStore, name: Seq<char>, e: TimeIndexEntry, v: PropValue) -> bool {
    match keys.find_spec(name) {
        Some(k) => store.temporal_log(k).contains((e, v)),
        None => false,
    }
}

/// A log after a write of `v` at `e` holds that write.
proof fn lemma_set_contains(n: Seq<(TimeIndexEntry, PropValue)>, s: Seq<(TimeIndexEntry, PropValue)>, e: TimeIndexEntry, v: PropValue)
    requires
        crate::prop::is_set_of(n, s, e, v),
    ensures
        n.contains((e, v)),
{
    let p = choose|p: int|
        0 <= p <= s.len() && (forall|j: int| 0 <= j < p ==> crate::time_index::entry_lt(#[trigger] s[j].0, e))
            && (forall|j: int| p <= j < s.len() ==> !crate::time_index::entry_lt(#[trigger] s[j].0, e))
            && if p < s.len() && s[p].0 == e {
            n == s.update(p, (e, v))
        } else {
            n == s.insert(p, (e, v))
        };
    assert(n[p] == (e, v));
}

/// A log written under the id of `name` leaves the writes other names read.
proof fn lemma_other_log(keys: &KeyRegistry, store: &PropStore, s0: &PropStore, k: usize, name: Seq<char>, n: Seq<char>)
    requires
        keys.wf(),
        n != name,
        keys.find_spec(name) == Some(k),
        forall|k2: usize| k2 != k ==> store.temporal_log(k2) == s0.temporal_log(k2),
    ensures
        forall|e: TimeIndexEntry, v: PropValue| #[trigger] written_at(keys, store, n, e, v) == written_at(keys, s0, n, e, v),
{
    assert(keys.names@.len() == keys.names.len());
    if let Some(k2) = keys.find_spec(n) {
        let c = choose|c: int| 0 <= c < keys.names@.len() && (#[trigger] keys.names@[c])@ == n;
        let d = choose|d: int| 0 <= d < keys.names@.len() && (#[trigger] keys.names@[d])@ == name;
        assert(k2 as int == c);
        assert(k as int == d);
        assert(c != d);
    }
}

/// Registering a name keeps the ids of the names already registered.
proof fn lemma_resolve_keeps(old_keys: &KeyRegistry, new_keys: &KeyRegistry, name: Seq<char>, n: Seq<char>)
    requires
        old_keys.wf(),
        new_keys.wf(),
        old_keys.has(name) ==> new_keys.names@ == old_keys.names@,
        !old_keys.has(name) ==> new_keys.names@.len() == old_keys.names@.len() + 1
            && new_keys.names@.subrange(0, old_keys.names@.len() as int) == old_keys.names@
            && new_keys.names@[old_keys.names@.len() as int]@ == name,
        n != name,
    ensures
        new_keys.find_spec(n) == old_keys.find_spec(n),
{
    if !old_keys.has(name) {
        let m = old_keys.names@.len() as int;
        assert forall|i: int| 0 <= i < m implies new_keys.names@[i] == old_keys.names@[i] by {
            assert(new_keys.names@.subrange(0, m)[i] == new_keys.names@[i]);
        }
        if old_keys.has(n) {
            let c = choose|c: int| 0 <= c < old_keys.names@.len() && (#[trigger] old_keys.names@[c])@ == n;
            let d = choose|d: int| 0 <= d < new_keys.names@.len() && (#[trigger] new_keys.names@[d])@ == n;
            assert(new_keys.names@[c]@ == n);
            if d != c {
                if d < c {
                    assert(new_keys.names@[d]@ != new_keys.names@[c]@);
                } else {
                    assert(new_keys.names@[c]@ != new_keys.names@[d]@);
                }
            }
        } else {
            if new_keys.has(n) {
                let d = choose|d: int| 0 <= d < new_keys.names@.len() && (#[trigger] new_keys.names@[d])@ == n;
                if d < m {
                    assert(old_keys.names@[d]@ == n);
                }
            }
        }
    }
}

/// After a value is set under the id of `name`, other names read what they read before.
proof fn lemma_other_name(keys: &KeyRegistry, k0: &KeyRegistry, store: &PropStore, s0: &PropStore, k: usize, name: Seq<char>, n: Seq<char>)
    requires
        keys.wf(),
        n != name,
        keys.find_spec(name) == Some(k),
        keys.find_spec(n) == k0.find_spec(n),
        forall|k2: usize| k2 != k ==> #[trigger] store.constant_value(k2) == s0.constant_value(k2),
    ensures
        value_named(keys, store, n) == value_named(k0, s0, n),
{
    assert(keys.names@.len() == keys.names.len());
    if let Some(k2) = keys.find_spec(n) {
        let c = choose|c: int| 0 <= c < keys.names@.len() && (#[trigger] keys.names@[c])@ == n;
        let d = choose|d: int| 0 <= d < keys.names@.len() && (#[trigger] keys.names@[d])@ == name;
        assert(k2 as int == c);
        assert(k as int == d);
        assert(c != d);
    }
}

/// Sets the constant values in `props` on `store`, registering their keys;
/// `false`, and no change, where one of them conflicts.
fn set_constants(keys: &mut KeyRegistry, store: &mut PropStore, props: Vec<(String, Prop)>) -> (r: bool)
    requires
        old(keys).wf(),
        old(store).wf(),
    ensures
        final(keys).wf(),
        final(store).wf(),
        r == (constants_registered(old(keys), old(store)) && constants_agree(old(keys), old(store), props@)),
        !r ==> *final(keys) == *old(keys) && *final(store) == *old(store),
        r ==> forall|a: int| 0 <= a < props@.len() ==> value_named(final(keys), final(store), (#[trigger] props@[a]).0@) == Some(props@[a].1@),
        final(store).temporal == old(store).temporal,
{
    let ghost all = props@;
    let mut c: usize = 0;
    while c < store.constant.len()
        invariant
            keys.wf(),
            store.wf(),
            *keys == *old(keys),
            *store == *old(store),
            c <= store.constant@.len(),
            forall|x: int| 0 <= x < c ==> (#[trigger] store.constant@[x]).0 < keys.names@.len(),
        decreases store.constant@.len() - c,
    {
        if store.constant[c].0 >= keys.names.len() {
            return false;
        }
        c += 1;
    }
    let mut i: usize = 0;
    while i < props.len()
        invariant
            keys.wf(),
            store.wf(),
            constants_registered(keys, store),
            *keys == *old(keys),
            *store == *old(store),
            all == props@,
            i <= props@.len(),
            forall|a: int| 0 <= a < i ==> {
                &&& (value_named(keys, store, (#[trigger] all[a]).0@).is_none() || value_named(keys, store, all[a].0@) == Some(all[a].1@))
                &&& forall|b: int| 0 <= b < a ==> ((#[trigger] all[b]).0@ == all[a].0@ ==> all[b].1@ == all[a].1@)
            },
        decreases props@.len() - i,
    {
        let found = keys.find(props[i].0.as_str());
        let ok_existing = match found {
            Some(k) => match store.constant(k) {
                Some(v) => v.same_value(&props[i].1),
                None => true,
            },
            None => true,
        };
        let mut ok_items = true;
        let mut j: usize = 0;
        while j < i
            invariant
                i < props@.len(),
                j <= i,
                ok_items == forall|b: int| 0 <= b < j ==> ((#[trigger] props@[b]).0@ == props@[i as int].0@ ==> props@[b].1@ == props@[i as int].1@),
            decreases i - j,
        {
            if props[j].0 == props[i].0 && !props[j].1.same_value(&props[i].1) {
                ok_items = false;
            }
            j += 1;
        }
        if !(ok_existing && ok_items) {
            proof {
                assert(!constants_agree(old(keys), old(store), props@)) by {
                    let a = i as int;
                    assert(!({
                        &&& (value_named(keys, store, (all[a]).0@).is_none() || value_named(keys, store, all[a].0@) == Some(all[a].1@))
                        &&& forall|b: int| 0 <= b < a ==> ((#[trigger] all[b]).0@ == all[a].0@ ==> all[b].1@ == all[a].1@)
                    }));
                }
            }
            return false;
        }
        i += 1;
    }
    let mut props = props;
    let mut written: usize = 0;
    let total = props.len();
    while props.len() > 0
        invariant
            keys.wf(),
            store.wf(),
            constants_registered(keys, store),
            store.temporal == old(store).temporal,
            total == all.len(),
            written <= total,
            props@ == all.subrange(written as int, total as int),
            forall|a: int| 0 <= a < written ==> value_named(keys, store, (#[trigger] all[a]).0@) == Some(all[a].1@),
            forall|a: int| written <= a < total ==> (value_named(keys, store, (#[trigger] all[a]).0@).is_none()
                || value_named(keys, store, all[a].0@) == Some(all[a].1@)),
            forall|a: int, b: int| 0 <= b < a < total ==> ((#[trigger] all[b]).0@ == (#[trigger] all[a]).0@ ==> all[b].1@ == all[a].1@),
        decreases props@.len(),
    {
        let (name, value) = props.remove(0);
        let ghost k0 = *keys;
        let ghost s0 = *store;
        let ghost vv = value@;
        let k = keys.resolve(name.as_str());
        proof {
            assert(all[written as int].0@ == name@ && all[written as int].1@ == vv);
            assert(keys.find_spec(name@) == Some(k)) by {
                crate::storage::lemma_find_unique(keys, name@, k as int);
            }
            assert forall|n: Seq<char>| n != name@ implies keys.find_spec(n) == k0.find_spec(n) by {
                lemma_resolve_keeps(&k0, keys, name@, n);
            }
            if k0.has(name@) {
                assert(k0.find_spec(name@) == Some(k)) by {
                    crate::storage::lemma_find_unique(&k0, name@, k as int);
                }
            } else {
                assert(k0.find_spec(name@).is_none());
                assert(s0.constant_value(k).is_none()) by {
                    if exists|x: int| 0 <= x < s0.constant@.len() && (#[trigger] s0.constant@[x]).0 == k {
                        let x = choose|x: int| 0 <= x < s0.constant@.len() && (#[trigger] s0.constant@[x]).0 == k;
                        assert(s0.constant@[x].0 < k0.names@.len());
                    }
                }
            }
        }
        store.set_constant(k, value);
        proof {
            assert forall|x: int| 0 <= x < store.constant@.len() implies (#[trigger] store.constant@[x]).0 < keys.names@.len() by {
                if x < s0.constant@.len() {
                    assert(store.constant@[x] == s0.constant@[x]);
                    assert(s0.constant@[x].0 < k0.names@.len());
                }
            }
        }
        proof {
            assert forall|a: int| 0 <= a < written + 1 implies value_named(keys, store, (#[trigger] all[a]).0@) == Some(all[a].1@) by {
                if all[a].0@ == name@ {
                    if a < written {
                        assert(all[a].1@ == vv);
                    }
                } else {
                    lemma_other_name(keys, &k0, store, &s0, k, name@, all[a].0@);
                }
            }
            assert forall|a: int| written + 1 <= a < total implies (value_named(keys, store, (#[trigger] all[a]).0@).is_none()
                || value_named(keys, store, all[a].0@) == Some(all[a].1@)) by {
                if all[a].0@ == name@ {
                    assert(all[written as int].1@ == all[a].1@);
                } else {
                    lemma_other_name(keys, &k0, store, &s0, k, name@, all[a].0@);
                }
            }
            assert(props@ =~= all.subrange(written + 1, total as int));
        }
        written += 1;
    }
    true
}

/// Whether item `a` of `props` keeps its key's type.
pub open spec fn item_agrees(keys: &KeyRegistry, existing: Option<PropStore>, props: Seq<(String, Prop)>, a: int) -> bool {
    &&& (match (name_pos(keys.names@, props[a].0@), existing) {
        (Some(k), Some(store)) => {
            let log = store.temporal_log(k as usize);
            log.len() == 0 || same_kind(log[0].1, props[a].1@)
        },
        _ => true,
    })
    &&& forall|b: int| 0 <= b < a ==> ((#[trigger] props[b]).0@ == props[a].0@ ==> same_kind(props[b].1@, props[a].1@))
}

/// Whether every item of `props` keeps its key's type.
pub open spec fn types_agree(keys: &KeyRegistry, existing: Option<PropStore>, props: Seq<(String, Prop)>) -> bool {
    forall|a: int| 0 <= a < props.len() ==> item_agrees(keys, existing, props, a)
}

/// The event entries of the node with external id `gid`; empty where there is none.
pub open spec fn node_times(g: &GraphStorage, gid: u64) -> Set<TimeIndexEntry> {
    if exists|i: int| 0 <= i < g.nodes@.len() && (#[trigger] g.nodes@[i]).gid == gid {
        g.nodes@[choose|i: int| 0 <= i < g.nodes@.len() && (#[trigger] g.nodes@[i]).gid == gid].timestamps@.to_set()
    } else {
        Set::empty()
    }
}

/// Whether the temporal values of `props` keep their types on node `gid`.
pub open spec fn node_types_agree(g: &GraphStorage, gid: u64, props: Seq<(String, Prop)>) -> bool {
    if exists|i: int| 0 <= i < g.nodes@.len() && (#[trigger] g.nodes@[i]).gid == gid {
        types_agree(&g.node_temporal_keys, Some(g.nodes@[choose|i: int| 0 <= i < g.nodes@.len() && (#[trigger] g.nodes@[i]).gid == gid].props), props)
    } else {
        types_agree(&g.node_temporal_keys, None, props)
    }
}

} // verus!
