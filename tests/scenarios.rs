use raphtory_core::graph::{Graph, PersistentGraph};
use raphtory_core::layer_ids::LayerIds;
use raphtory_core::prop::Prop;
use raphtory_core::storage::GraphError;
use raphtory_core::time_index::{TimeIndex, TimeIndexEntry};

fn props(items: Vec<(&str, Prop)>) -> Vec<(String, Prop)> {
    items.into_iter().map(|(k, v)| (k.to_string(), v)).collect()
}

fn none() -> Vec<(String, Prop)> {
    Vec::new()
}

#[test]
fn deletion_bounds_latest_time() {
    let mut g = PersistentGraph::new();
    g.add_edge(0, 1, 2, none(), None).unwrap();
    g.delete_edge(10, 1, 2, None).unwrap();
    assert_eq!(g.view().edge(1, 2).unwrap().latest_time(), Some(10));
    assert_eq!(g.window(11, 12).count_edges(), 0);
    assert_eq!(g.window(1, 2).count_edges(), 1);
}

#[test]
fn pre_existing_edge() {
    let mut g = PersistentGraph::new();
    g.delete_edge(10, 3, 4, None).unwrap();
    let view = g.view();
    let e = view.edge(3, 4).unwrap();
    assert_eq!(e.earliest_time(), Some(i64::MIN));
    assert_eq!(e.latest_time(), Some(10));
    assert!(g.window(0, 5).has_edge(3, 4));
    assert!(!g.window(11, 12).has_edge(3, 4));
}

#[test]
fn deletion_before_addition_at_same_time() {
    let mut g = PersistentGraph::new();
    g.delete_edge(1, 1, 2, None).unwrap();
    g.add_edge(1, 1, 2, none(), None).unwrap();
    assert!(g.window(0, 1).has_edge(1, 2));
    assert!(g.window(1, 2).has_edge(1, 2));
    assert!(g.window(5, 6).has_edge(1, 2));
}

#[test]
fn addition_before_deletion_at_same_time() {
    let mut g = PersistentGraph::new();
    g.add_edge(2, 3, 4, none(), None).unwrap();
    g.delete_edge(2, 3, 4, None).unwrap();
    assert!(g.window(2, 3).has_edge(3, 4));
    assert!(!g.window(0, 2).has_edge(3, 4));
    assert!(!g.window(3, 4).has_edge(3, 4));
}

#[test]
fn property_in_force_at_window_start() {
    let mut g = PersistentGraph::new();
    g.add_edge(0, 1, 2, props(vec![("prop", Prop::str("a"))]), None).unwrap();
    g.add_edge(11, 1, 2, props(vec![("prop", Prop::str("b"))]), None).unwrap();
    g.delete_edge(20, 1, 2, None).unwrap();
    let w = g.window(10, 12);
    let e = w.edge(1, 2).unwrap();
    assert_eq!(e.property("prop"), Some(Prop::str("b")));
    assert_eq!(e.temporal_values("prop"), vec![(10, Prop::str("a")), (11, Prop::str("b"))]);
}

#[test]
fn multi_layer_explode() {
    let mut g = PersistentGraph::new();
    g.delete_edge(1, 1, 2, Some("1")).unwrap();
    g.delete_edge(2, 1, 2, Some("2")).unwrap();
    g.delete_edge(3, 1, 2, Some("3")).unwrap();
    let view = g.view();
    let e = view.edge(1, 2).unwrap();
    assert_eq!(e.explode().len(), 3);
    assert_eq!(e.window(2, 3).explode().len(), 1);
}

#[test]
fn wider_windows_hold_more_edges() {
    let mut g = PersistentGraph::new();
    g.add_edge(0, 1, 2, none(), None).unwrap();
    g.delete_edge(4, 1, 2, None).unwrap();
    g.add_edge(6, 3, 4, none(), None).unwrap();
    g.delete_edge(7, 3, 4, None).unwrap();
    assert_eq!(g.window(5, 6).count_edges(), 0);
    assert_eq!(g.window(3, 6).count_edges(), 1);
    assert_eq!(g.window(3, 8).count_edges(), 2);
    for (lo, hi) in [(0, 1), (2, 5), (6, 7)] {
        let inner = g.window(lo, hi).edges();
        let outer = g.window(-1, 10).edges();
        assert!(inner.iter().all(|e| outer.contains(e)));
        assert!(g.window(lo, hi).count_edges() <= g.window(-1, 10).count_edges());
    }
}

#[test]
fn at_matches_unit_window() {
    let mut g = PersistentGraph::new();
    g.add_edge(1, 1, 2, none(), None).unwrap();
    g.delete_edge(3, 1, 2, None).unwrap();
    for t in -1..5 {
        assert_eq!(g.at(t).count_edges(), g.window(t, t + 1).count_edges());
        assert_eq!(g.at(t).edges(), g.window(t, t + 1).edges());
        assert_eq!(g.at(t).count_temporal_edges(), g.window(t, t + 1).count_temporal_edges());
    }
}

#[test]
fn union_of_layers_holds_union_of_edges() {
    let mut g = PersistentGraph::new();
    g.add_edge(1, 1, 2, none(), Some("a")).unwrap();
    g.add_edge(1, 2, 3, none(), Some("b")).unwrap();
    g.add_edge(1, 3, 4, none(), Some("c")).unwrap();
    let a = g.view().layers(&vec!["a"]).unwrap().edges();
    let b = g.view().layers(&vec!["b"]).unwrap().edges();
    let ab = g.view().layers(&vec!["a", "b"]).unwrap().edges();
    assert_eq!(ab, vec![(1, 2), (2, 3)]);
    assert!(ab.iter().all(|e| a.contains(e) || b.contains(e)));
    assert!(a.iter().chain(b.iter()).all(|e| ab.contains(e)));
}

#[test]
fn history_is_ordered_across_layers() {
    let mut g = PersistentGraph::new();
    g.add_edge(5, 1, 2, none(), Some("x")).unwrap();
    g.add_edge(1, 1, 2, none(), Some("y")).unwrap();
    g.add_edge(3, 1, 2, none(), Some("x")).unwrap();
    g.add_edge(3, 1, 2, none(), None).unwrap();
    assert_eq!(g.view().edge(1, 2).unwrap().history(), vec![1, 3, 3, 5]);
}

#[test]
fn valid_and_deleted_are_opposites() {
    let mut g = PersistentGraph::new();
    g.add_edge(1, 1, 2, none(), None).unwrap();
    g.delete_edge(5, 1, 2, None).unwrap();
    let view = g.view();
    let e = view.edge(1, 2).unwrap();
    for t in 0..8 {
        let at = e.at(t);
        assert_ne!(at.is_valid(), at.is_deleted());
    }
    assert!(e.is_deleted());
}

#[test]
fn event_view_keeps_additions() {
    let mut pg = PersistentGraph::new();
    pg.add_edge(1, 1, 2, none(), None).unwrap();
    pg.add_edge(4, 1, 2, none(), None).unwrap();
    let g = pg.event_graph();
    assert_eq!(g.edge(1, 2).unwrap().history(), pg.view().edge(1, 2).unwrap().history());
    assert_eq!(g.window(2, 4).count_edges(), 0);
    assert_eq!(pg.window(2, 4).count_edges(), 1);
    assert_eq!(g.count_temporal_edges(), 2);
}

#[test]
fn snapshot_round_trip() {
    let mut g = PersistentGraph::new();
    g.add_edge(0, 1, 2, props(vec![("w", Prop::I64(-3)), ("name", Prop::str("héllo"))]), Some("l1")).unwrap();
    g.delete_edge(5, 1, 2, Some("l1")).unwrap();
    g.add_node(2, 7, props(vec![("flag", Prop::Bool(true)), ("n", Prop::U64(9))])).unwrap();
    g.add_node_properties(7, props(vec![("kind", Prop::str("k"))])).unwrap();
    let bytes = g.snapshot().unwrap();
    assert_eq!(&bytes[0..8], b"RAPHSNAP");
    let back = PersistentGraph::from_snapshot(&bytes).unwrap();
    assert_eq!(back.snapshot().unwrap(), bytes);
    let (a, b) = (g.view(), back.view());
    assert_eq!(a.edges(), b.edges());
    assert_eq!(a.nodes(), b.nodes());
    let (ea, eb) = (a.edge(1, 2).unwrap(), b.edge(1, 2).unwrap());
    assert_eq!(ea.history(), eb.history());
    assert_eq!(ea.latest_time(), eb.latest_time());
    assert_eq!(eb.property("name"), Some(Prop::str("héllo")));
    assert_eq!(eb.property("w"), Some(Prop::I64(-3)));
    assert_eq!(b.node(7).unwrap().property("kind"), Some(Prop::str("k")));
    assert_eq!(b.node(7).unwrap().property("n"), Some(Prop::U64(9)));
    assert_eq!(b.timeline_end(), a.timeline_end());
}

#[test]
fn snapshot_variant_is_checked() {
    let mut g = PersistentGraph::new();
    g.add_edge(1, 1, 2, none(), None).unwrap();
    let bytes = g.snapshot().unwrap();
    assert_eq!(Graph::from_snapshot(&bytes).err(), Some(GraphError::VariantMismatch));
    let mut e = Graph::new();
    e.add_edge(1, 1, 2, none(), None).unwrap();
    let eb = e.snapshot().unwrap();
    assert!(Graph::from_snapshot(&eb).is_ok());
    assert_eq!(PersistentGraph::from_snapshot(&eb).err(), Some(GraphError::VariantMismatch));
}

#[test]
fn snapshot_format_errors() {
    let mut g = PersistentGraph::new();
    g.add_edge(1, 1, 2, none(), None).unwrap();
    let bytes = g.snapshot().unwrap();
    let mut bad_magic = bytes.clone();
    bad_magic[0] = b'X';
    assert_eq!(PersistentGraph::from_snapshot(&bad_magic).err(), Some(GraphError::SnapshotFormatError));
    let truncated = bytes[..bytes.len() - 1].to_vec();
    assert_eq!(PersistentGraph::from_snapshot(&truncated).err(), Some(GraphError::SnapshotFormatError));
    let mut extra = bytes.clone();
    extra.push(0);
    assert_eq!(PersistentGraph::from_snapshot(&extra).err(), Some(GraphError::SnapshotFormatError));
    let mut version = bytes.clone();
    version[8] = 2;
    assert_eq!(PersistentGraph::from_snapshot(&version).err(), Some(GraphError::SnapshotFormatError));
}

#[test]
fn constant_properties_conflict() {
    let mut g = PersistentGraph::new();
    g.add_edge(1, 1, 2, none(), Some("x")).unwrap();
    assert_eq!(g.add_node_properties(9, props(vec![("a", Prop::I64(1))])), Err(GraphError::UnknownNode));
    g.add_node_properties(1, props(vec![("a", Prop::I64(1))])).unwrap();
    g.add_node_properties(1, props(vec![("a", Prop::I64(1))])).unwrap();
    assert_eq!(
        g.add_node_properties(1, props(vec![("b", Prop::I64(2)), ("a", Prop::I64(5))])),
        Err(GraphError::ConstantPropertyConflict)
    );
    assert_eq!(g.view().node(1).unwrap().property("b"), None);
    assert_eq!(g.view().node(1).unwrap().property("a"), Some(Prop::I64(1)));

    assert_eq!(g.add_edge_properties(2, 1, props(vec![("c", Prop::Bool(true))]), Some("x")), Err(GraphError::UnknownEdge));
    assert_eq!(g.add_edge_properties(1, 2, props(vec![("c", Prop::Bool(true))]), Some("nope")), Err(GraphError::UnknownLayer));
    g.add_edge_properties(1, 2, props(vec![("c", Prop::Bool(true))]), Some("x")).unwrap();
    let view = g.view();
    assert_eq!(view.edge(1, 2).unwrap().property("c"), Some(Prop::Bool(true)));
    assert_eq!(
        g.add_constant_properties(props(vec![("d", Prop::U64(1)), ("d", Prop::U64(2))])),
        Err(GraphError::ConstantPropertyConflict)
    );
    g.add_constant_properties(props(vec![("d", Prop::U64(1))])).unwrap();
    g.add_properties(3, props(vec![("e", Prop::I64(1))])).unwrap();
    assert_eq!(g.add_properties(4, props(vec![("e", Prop::str("x"))])), Err(GraphError::PropertyTypeMismatch));
}

#[test]
fn property_type_is_kept() {
    let mut g = PersistentGraph::new();
    g.add_edge(1, 1, 2, props(vec![("w", Prop::I64(1))]), None).unwrap();
    assert_eq!(g.add_edge(2, 1, 2, props(vec![("w", Prop::str("no"))]), None), Err(GraphError::PropertyTypeMismatch));
    assert_eq!(g.add_node(2, 5, props(vec![("k", Prop::I64(1)), ("k", Prop::Bool(true))])), Err(GraphError::PropertyTypeMismatch));
    assert!(g.view().node(5).is_none());
    assert_eq!(g.view().edge(1, 2).unwrap().history(), vec![1]);
}

#[test]
fn event_graph_semantics() {
    let mut g = Graph::new();
    g.add_edge(1, 1, 2, props(vec![("w", Prop::I64(1))]), None).unwrap();
    g.add_edge(5, 1, 2, props(vec![("w", Prop::I64(2))]), None).unwrap();
    assert_eq!(g.window(2, 5).count_edges(), 0);
    assert_eq!(g.window(1, 2).count_edges(), 1);
    let view = g.window(0, 10);
    let e = view.edge(1, 2).unwrap();
    assert_eq!(e.earliest_time(), Some(1));
    assert_eq!(e.latest_time(), Some(5));
    let times: Vec<i64> = e.explode().iter().flat_map(|x| x.time()).collect();
    assert_eq!(times, vec![1, 5]);
    assert_eq!(e.window(2, 10).property("w"), Some(Prop::I64(2)));
    assert!(e.is_valid());
    assert_eq!(g.view().node(1).unwrap().latest_time(), Some(5));
    assert!(g.window(2, 4).node(1).is_none());
}

#[test]
fn exploded_counts() {
    let mut g = PersistentGraph::new();
    g.delete_edge(1, 1, 2, None).unwrap();
    g.add_edge(2, 1, 2, none(), None).unwrap();
    g.add_edge(3, 1, 2, none(), None).unwrap();
    assert_eq!(g.view().count_temporal_edges(), 3);
    assert_eq!(g.window(2, 3).count_temporal_edges(), 1);
    assert_eq!(g.window(4, 5).count_temporal_edges(), 1);
}

#[test]
fn time_index_orders_and_windows() {
    let mut idx = TimeIndex::new();
    idx.insert(TimeIndexEntry { t: 5, seq: 1 });
    idx.insert(TimeIndexEntry { t: 1, seq: 2 });
    idx.insert(TimeIndexEntry { t: 5, seq: 0 });
    idx.insert(TimeIndexEntry { t: 1, seq: 2 });
    assert_eq!(idx.len(), 3);
    assert_eq!(idx.times(), vec![1, 5, 5]);
    assert_eq!(idx.first_t(), Some(1));
    assert_eq!(idx.last(), Some(TimeIndexEntry { t: 5, seq: 1 }));
    assert_eq!(idx.len_window(2, 6), 2);
    assert!(!idx.active(2, 5));
    assert_eq!(idx.times_window(5, 6), vec![5, 5]);
    assert!(TimeIndex::from_entries(vec![TimeIndexEntry { t: 2, seq: 0 }, TimeIndexEntry { t: 1, seq: 0 }]).is_none());
}

#[test]
fn layer_ids_normalise() {
    let none = LayerIds::from_ids(&vec![]);
    assert!(matches!(none, LayerIds::Empty));
    let one = LayerIds::from_ids(&vec![3, 3]);
    assert!(matches!(one, LayerIds::One(3)));
    let many = LayerIds::from_ids(&vec![4, 1, 4]);
    assert!(matches!(&many, LayerIds::Multiple(v) if v == &vec![1, 4]));
    let both = many.intersect(&LayerIds::from_ids(&vec![4, 7]));
    assert!(matches!(both, LayerIds::One(4)));
    assert!(matches!(many.union(&LayerIds::All), LayerIds::All));
    assert!(!many.contains(2));
}

#[test]
fn pinned_edge_outside_window_is_empty() {
    let mut g = Graph::new();
    g.add_edge(3, 1, 2, props(vec![("w", Prop::I64(1))]), None).unwrap();
    let view = g.view();
    let exploded = view.edge(1, 2).unwrap().explode();
    assert_eq!(exploded.len(), 1);
    let outside = exploded[0].window(5, 9);
    assert_eq!(outside.earliest_time(), None);
    assert_eq!(outside.latest_time(), None);
    assert!(outside.temporal_values("w").is_empty());
    let inside = exploded[0].window(0, 9);
    assert_eq!(inside.earliest_time(), Some(3));
    assert_eq!(inside.temporal_values("w"), vec![(3, Prop::I64(1))]);
}

#[test]
fn deletion_at_latest_time_keeps_edge_alive_before() {
    let mut g = PersistentGraph::new();
    g.delete_edge(i64::MAX, 1, 2, None).unwrap();
    let view = g.view();
    let e = view.edge(1, 2).unwrap();
    assert_eq!(e.latest_time(), Some(i64::MAX));
    assert!(g.window(0, 10).has_edge(1, 2));
}

#[test]
fn alive_at_start_does_not_depend_on_padding() {
    let mut g = PersistentGraph::new();
    g.add_edge(5, 1, 2, none(), None).unwrap();
    let before = g.window(5, 6).edge(1, 2).unwrap().temporal_values("x").len();
    g.delete_edge(1, 1, 2, Some("other")).unwrap();
    assert!(g.window(5, 6).default_layer().has_edge(1, 2));
    assert_eq!(g.window(5, 6).default_layer().edge(1, 2).unwrap().earliest_time(), Some(5));
    assert_eq!(before, 0);
}

#[test]
fn deleted_only_layer_ends_at_first_deletion() {
    let mut g = PersistentGraph::new();
    g.delete_edge(5, 1, 2, None).unwrap();
    g.delete_edge(20, 1, 2, None).unwrap();
    assert!(!g.window(11, 12).has_edge(1, 2));
    assert!(g.window(0, 3).has_edge(1, 2));
    let w = g.window(0, 12);
    let e = w.edge(1, 2).unwrap();
    assert!(!e.is_valid());
    assert!(g.window(0, 5).edge(1, 2).unwrap().is_valid());
    assert_eq!(g.view().edge(1, 2).unwrap().latest_time(), Some(20));
}
