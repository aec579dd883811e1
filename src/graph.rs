use vstd::prelude::*;

use crate::prop::Prop;
use crate::storage::{GraphError, GraphStorage};
use crate::view::GraphView;

verus! {

/// A temporal graph in which an edge exists only at the times it was added.
pub struct Graph {
    storage: GraphStorage,
}

/// A temporal graph in which an edge, once added, stays in force until it is
/// explicitly deleted.
pub struct PersistentGraph {
    storage: GraphStorage,
}

impl Graph {
    pub closed spec fn store(&self) -> GraphStorage {
        self.storage
    }

    pub open spec fn wf(&self) -> bool {
        self.store().wf()
    }

    pub fn new() -> (r: Graph)
        ensures
            r.wf(),
            r.store().nodes@.len() == 0,
            r.store().edges@.len() == 0,
            r.store().seq == 0,
            r.store().layers.names@.len() == 1,
            r.store().layers.names@[0]@ == crate::storage::default_layer_name(),
    {
        Graph { storage: GraphStorage::new() }
    }

    /// A graph over records built elsewhere, such as a loaded snapshot.
    pub fn from_internal_graph(storage: GraphStorage) -> (r: Graph)
        ensures
            r.store() == storage,
    {
        Graph { storage }
    }

    pub fn storage(&self) -> (r: &GraphStorage)
        ensures
            *r == self.store(),
    {
        &self.storage
    }

    /// As `GraphStorage::add_node`.
    pub fn add_node(&mut self, t: i64, gid: u64, props: Vec<(String, Prop)>) -> (r: Result<usize, GraphError>)
        requires
            old(self).wf(),
        ensures
            final(self).wf(),
            crate::storage::add_node_post(&old(self).store(), &final(self).store(), t, gid, props@, r),
    {
        self.storage.add_node(t, gid, props)
    }

    /// As `GraphStorage::add_edge`.
    pub fn add_edge(&mut self, t: i64, src: u64, dst: u64, props: Vec<(String, Prop)>, layer: Option<&str>) -> (r: Result<usize, GraphError>)
        requires
            old(self).wf(),
        ensures
            final(self).wf(),
            crate::storage::add_edge_post(&old(self).store(), &final(self).store(), t, src, dst, props@, layer, r),
    {
        self.storage.add_edge(t, src, dst, props, layer)
    }

    /// The whole graph as a view.
    pub fn view(&self) -> (r: GraphView<'_>)
        requires
            self.wf(),
        ensures
            r.wf(),
            *r.graph == self.store(),
            !r.persistent,
            r.window.is_none(),
            r.layers is All,
    {
        GraphView::new(&self.storage, false)
    }

    pub fn window(&self, lo: i64, hi: i64) -> (r: GraphView<'_>)
        requires
            self.wf(),
        ensures
            r.wf(),
            *r.graph == self.store(),
            !r.persistent,
            r.window == Some((lo, hi)),
            forall|l: usize| r.layers.selects(l),
    {
        self.view().window(lo, hi)
    }

    pub fn at(&self, t: i64) -> (r: GraphView<'_>)
        requires
            self.wf(),
        ensures
            r.wf(),
            *r.graph == self.store(),
            !r.persistent,
            r.window == Some((t, if t == i64::MAX { t } else { (t + 1) as i64 })),
            forall|l: usize| r.layers.selects(l),
    {
        self.view().at(t)
    }

    /// The snapshot of this graph, tagged as an event graph.
    pub fn snapshot(&self) -> (r: Result<Vec<u8>, GraphError>)
        ensures
            match r {
                Ok(b) => b@ == crate::codec::enc_graph(&self.store(), false),
                Err(e) => e == GraphError::SnapshotFormatError,
            },
            r is Ok <==> crate::codec::graph_fits(&self.store()),
    {
        crate::codec::encode(&self.storage, false)
    }

    /// The event graph a snapshot holds; `VariantMismatch` for a
    /// snapshot of a persistent graph.
    pub fn from_snapshot(b: &Vec<u8>) -> (r: Result<Graph, GraphError>)
        ensures
            match r {
                Ok(g) => g.wf() && crate::codec::enc_graph(&g.store(), false) == b@,
                Err(e) => e == GraphError::SnapshotFormatError || e == GraphError::VariantMismatch,
            },
            b@.len() >= 12 && b@.subrange(0, 12) == crate::codec::enc_header(true) ==> r is Err && r->Err_0 == GraphError::VariantMismatch,
            crate::codec::not_a_header(b@) ==> r is Err && r->Err_0 == GraphError::SnapshotFormatError,
    {
        match crate::codec::decode(b, false) {
            Ok(storage) => Ok(Graph { storage }),
            Err(e) => Err(e),
        }
    }

    /// As `GraphStorage::add_node_properties`.
    pub fn add_node_properties(&mut self, gid: u64, props: Vec<(String, Prop)>) -> (r: Result<(), GraphError>)
        requires
            old(self).wf(),
        ensures
            final(self).wf(),
            crate::storage::add_node_properties_post(&old(self).store(), &final(self).store(), gid, props@, r),
    {
        self.storage.add_node_properties(gid, props)
    }

    /// As `GraphStorage::add_edge_properties`.
    pub fn add_edge_properties(&mut self, src: u64, dst: u64, props: Vec<(String, Prop)>, layer: Option<&str>) -> (r: Result<(), GraphError>)
        requires
            old(self).wf(),
        ensures
            final(self).wf(),
            crate::storage::add_edge_properties_post(&old(self).store(), &final(self).store(), src, dst, props@, layer, r),
    {
        self.storage.add_edge_properties(src, dst, props, layer)
    }

    /// As `GraphStorage::add_constant_properties`.
    pub fn add_constant_properties(&mut self, props: Vec<(String, Prop)>) -> (r: Result<(), GraphError>)
        requires
            old(self).wf(),
        ensures
            final(self).wf(),
            crate::storage::add_constant_properties_post(&old(self).store(), &final(self).store(), props@, r),
    {
        self.storage.add_constant_properties(props)
    }

    /// As `GraphStorage::add_properties`.
    pub fn add_properties(&mut self, t: i64, props: Vec<(String, Prop)>) -> (r: Result<(), GraphError>)
        requires
            old(self).wf(),
        ensures
            final(self).wf(),
            crate::storage::add_properties_post(&old(self).store(), &final(self).store(), t, props@, r),
    {
        self.storage.add_properties(t, props)
    }
}

impl PersistentGraph {
    pub closed spec fn store(&self) -> GraphStorage {
        self.storage
    }

    pub open spec fn wf(&self) -> bool {
        self.store().wf()
    }

    pub fn new() -> (r: PersistentGraph)
        ensures
            r.wf(),
            r.store().nodes@.len() == 0,
            r.store().edges@.len() == 0,
            r.store().seq == 0,
            r.store().layers.names@.len() == 1,
            r.store().layers.names@[0]@ == crate::storage::default_layer_name(),
    {
        PersistentGraph { storage: GraphStorage::new() }
    }

    /// A graph over records built elsewhere, such as a loaded snapshot.
    pub fn from_internal_graph(storage: GraphStorage) -> (r: PersistentGraph)
        ensures
            r.store() == storage,
    {
        PersistentGraph { storage }
    }

    pub fn storage(&self) -> (r: &GraphStorage)
        ensures
            *r == self.store(),
    {
        &self.storage
    }

    /// As `GraphStorage::add_node`.
    pub fn add_node(&mut self, t: i64, gid: u64, props: Vec<(String, Prop)>) -> (r: Result<usize, GraphError>)
        requires
            old(self).wf(),
        ensures
            final(self).wf(),
            crate::storage::add_node_post(&old(self).store(), &final(self).store(), t, gid, props@, r),
    {
        self.storage.add_node(t, gid, props)
    }

    /// As `GraphStorage::add_edge`.
    pub fn add_edge(&mut self, t: i64, src: u64, dst: u64, props: Vec<(String, Prop)>, layer: Option<&str>) -> (r: Result<usize, GraphError>)
        requires
            old(self).wf(),
        ensures
            final(self).wf(),
            crate::storage::add_edge_post(&old(self).store(), &final(self).store(), t, src, dst, props@, layer, r),
    {
        self.storage.add_edge(t, src, dst, props, layer)
    }

    /// As `GraphStorage::delete_edge`.
    pub fn delete_edge(&mut self, t: i64, src: u64, dst: u64, layer: Option<&str>) -> (r: Result<usize, GraphError>)
        requires
            old(self).wf(),
        ensures
            final(self).wf(),
            crate::storage::delete_edge_post(&old(self).store(), &final(self).store(), t, src, dst, layer, r),
    {
        self.storage.delete_edge(t, src, dst, layer)
    }

    /// The whole graph as a view.
    pub fn view(&self) -> (r: GraphView<'_>)
        requires
            self.wf(),
        ensures
            r.wf(),
            *r.graph == self.store(),
            r.persistent,
            r.window.is_none(),
            r.layers is All,
    {
        GraphView::new(&self.storage, true)
    }

    /// The same records read with event semantics: every edge exists only at
    /// the times it was added.
    pub fn event_graph(&self) -> (r: GraphView<'_>)
        requires
            self.wf(),
        ensures
            r.wf(),
            *r.graph == self.store(),
            !r.persistent,
            r.window.is_none(),
            r.layers is All,
    {
        GraphView::new(&self.storage, false)
    }

    pub fn window(&self, lo: i64, hi: i64) -> (r: GraphView<'_>)
        requires
            self.wf(),
        ensures
            r.wf(),
            *r.graph == self.store(),
            r.persistent,
            r.window == Some((lo, hi)),
            forall|l: usize| r.layers.selects(l),
    {
        self.view().window(lo, hi)
    }

    pub fn at(&self, t: i64) -> (r: GraphView<'_>)
        requires
            self.wf(),
        ensures
            r.wf(),
            *r.graph == self.store(),
            r.persistent,
            r.window == Some((t, if t == i64::MAX { t } else { (t + 1) as i64 })),
            forall|l: usize| r.layers.selects(l),
    {
        self.view().at(t)
    }

    pub fn before(&self, t: i64) -> (r: GraphView<'_>)
        requires
            self.wf(),
        ensures
            r.wf(),
            *r.graph == self.store(),
            r.persistent,
            r.window == Some((i64::MIN, t)),
            forall|l: usize| r.layers.selects(l),
    {
        self.view().before(t)
    }

    pub fn after(&self, t: i64) -> (r: GraphView<'_>)
        requires
            self.wf(),
        ensures
            r.wf(),
            *r.graph == self.store(),
            r.persistent,
            r.window == Some((if t == i64::MAX { t } else { (t + 1) as i64 }, i64::MAX)),
            forall|l: usize| r.layers.selects(l),
    {
        self.view().after(t)
    }

    /// The snapshot of this graph, tagged as persistent.
    pub fn snapshot(&self) -> (r: Result<Vec<u8>, GraphError>)
        ensures
            match r {
                Ok(b) => b@ == crate::codec::enc_graph(&self.store(), true),
                Err(e) => e == GraphError::SnapshotFormatError,
            },
            r is Ok <==> crate::codec::graph_fits(&self.store()),
    {
        crate::codec::encode(&self.storage, true)
    }

    /// The persistent graph a snapshot holds; `VariantMismatch` for a
    /// snapshot of an event graph.
    pub fn from_snapshot(b: &Vec<u8>) -> (r: Result<PersistentGraph, GraphError>)
        ensures
            match r {
                Ok(g) => g.wf() && crate::codec::enc_graph(&g.store(), true) == b@,
                Err(e) => e == GraphError::SnapshotFormatError || e == GraphError::VariantMismatch,
            },
            b@.len() >= 12 && b@.subrange(0, 12) == crate::codec::enc_header(false) ==> r is Err && r->Err_0 == GraphError::VariantMismatch,
            crate::codec::not_a_header(b@) ==> r is Err && r->Err_0 == GraphError::SnapshotFormatError,
    {
        match crate::codec::decode(b, true) {
            Ok(storage) => Ok(PersistentGraph { storage }),
            Err(e) => Err(e),
        }
    }

    /// As `GraphStorage::add_node_properties`.
    pub fn add_node_properties(&mut self, gid: u64, props: Vec<(String, Prop)>) -> (r: Result<(), GraphError>)
        requires
            old(self).wf(),
        ensures
            final(self).wf(),
            crate::storage::add_node_properties_post(&old(self).store(), &final(self).store(), gid, props@, r),
    {
        self.storage.add_node_properties(gid, props)
    }

    /// As `GraphStorage::add_edge_properties`.
    pub fn add_edge_properties(&mut self, src: u64, dst: u64, props: Vec<(String, Prop)>, layer: Option<&str>) -> (r: Result<(), GraphError>)
        requires
            old(self).wf(),
        ensures
            final(self).wf(),
            crate::storage::add_edge_properties_post(&old(self).store(), &final(self).store(), src, dst, props@, layer, r),
    {
        self.storage.add_edge_properties(src, dst, props, layer)
    }

    /// As `GraphStorage::add_constant_properties`.
    pub fn add_constant_properties(&mut self, props: Vec<(String, Prop)>) -> (r: Result<(), GraphError>)
        requires
            old(self).wf(),
        ensures
            final(self).wf(),
            crate::storage::add_constant_properties_post(&old(self).store(), &final(self).store(), props@, r),
    {
        self.storage.add_constant_properties(props)
    }

    /// As `GraphStorage::add_properties`.
    pub fn add_properties(&mut self, t: i64, props: Vec<(String, Prop)>) -> (r: Result<(), GraphError>)
        requires
            old(self).wf(),
        ensures
            final(self).wf(),
            crate::storage::add_properties_post(&old(self).store(), &final(self).store(), t, props@, r),
    {
        self.storage.add_properties(t, props)
    }
}

} // verus!
