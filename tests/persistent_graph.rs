use raphtory_core::edge_view::EdgeView;
use raphtory_core::graph::PersistentGraph;
use raphtory_core::prop::Prop;
use raphtory_core::view::GraphView;

fn props(items: Vec<(&str, Prop)>) -> Vec<(String, Prop)> {
    items.into_iter().map(|(k, v)| (k.to_string(), v)).collect()
}

fn no_props() -> Vec<(String, Prop)> {
    Vec::new()
}

fn names(view: &GraphView) -> Vec<String> {
    view.nodes().iter().map(|id| view.node(*id).unwrap().name()).collect()
}

fn times(edges: &[EdgeView], f: impl Fn(&EdgeView) -> Option<i64>) -> Vec<Option<i64>> {
    edges.iter().map(|e| f(e)).collect()
}

fn jira_graph() -> PersistentGraph {
    let mut g = PersistentGraph::new();
    g.add_edge(0, 1, 2, props(vec![("added", Prop::I64(0))]), Some("assigned")).unwrap();
    g.add_edge(1, 1, 3, props(vec![("added", Prop::I64(0))]), Some("assigned")).unwrap();
    g.add_edge(2, 4, 2, props(vec![("added", Prop::I64(0))]), Some("has")).unwrap();
    g.add_edge(3, 4, 2, props(vec![("added", Prop::I64(0))]), Some("has")).unwrap();
    g.add_edge(4, 5, 2, props(vec![("added", Prop::I64(0))]), Some("blocks")).unwrap();
    g.add_edge(5, 4, 5, props(vec![("added", Prop::I64(0))]), Some("has")).unwrap();
    g.add_edge(6, 6, 5, props(vec![("added", Prop::I64(0))]), Some("assigned")).unwrap();
    g
}

#[test]
fn test_nodes() {
    let g = jira_graph();
    let layers = vec!["assigned", "has", "blocks"];

    let view = g.window(0, 1701786285758).layers(&layers).unwrap();
    assert_eq!(names(&view), vec!["1", "2", "3", "4", "5", "6"]);

    let view = g.at(1701786285758).layers(&layers).unwrap();
    assert_eq!(names(&view), vec!["1", "2", "3", "4", "5", "6"]);
}

#[test]
fn test_edge_deletions() {
    let mut g = PersistentGraph::new();
    g.add_edge(0, 0, 1, props(vec![("added", Prop::I64(0))]), None).unwrap();
    g.delete_edge(10, 0, 1, None).unwrap();

    assert_eq!(g.view().edges(), vec![(0, 1)]);
    assert_eq!(g.window(1, 2).edges(), vec![(0, 1)]);
    assert_eq!(g.window(1, 2).count_edges(), 1);
    assert_eq!(g.window(11, 12).count_edges(), 0);
    assert_eq!(g.window(1, 2).edge(0, 1).unwrap().property("added"), Some(Prop::I64(0)));
    assert!(g.window(11, 12).edge(0, 1).is_none());
    assert_eq!(
        g.window(1, 2).edge(0, 1).unwrap().temporal_values("added"),
        vec![(1, Prop::I64(0))]
    );
    assert_eq!(g.window(1, 2).node(0).unwrap().out_degree(), 1);
}

#[test]
fn test_window_semantics() {
    let mut g = PersistentGraph::new();
    g.add_edge(1, 1, 2, props(vec![("test", Prop::str("test"))]), None).unwrap();
    g.delete_edge(10, 1, 2, None).unwrap();

    assert_eq!(g.view().count_edges(), 1);
    assert_eq!(g.at(12).count_edges(), 0);
    assert_eq!(g.at(11).count_edges(), 0);
    assert_eq!(g.at(10).count_edges(), 0);
    assert_eq!(g.at(9).count_edges(), 1);
    assert_eq!(g.window(5, 9).count_edges(), 1);
    assert_eq!(g.window(5, 10).count_edges(), 1);
    assert_eq!(g.window(5, 11).count_edges(), 1);
    assert_eq!(g.window(10, 12).count_edges(), 0);
    assert_eq!(g.before(10).count_edges(), 1);
    assert_eq!(g.after(10).count_edges(), 0);
}

#[test]
fn test_timestamps() {
    let mut g = PersistentGraph::new();
    g.add_edge(1, 1, 2, props(vec![("test", Prop::str("test"))]), None).unwrap();
    assert_eq!(g.view().edge(1, 2).unwrap().earliest_time().unwrap(), 1);
    assert_eq!(g.view().edge(1, 2).unwrap().latest_time(), Some(i64::MAX));
    g.delete_edge(10, 1, 2, None).unwrap();
    assert_eq!(g.view().edge(1, 2).unwrap().latest_time().unwrap(), 10);

    g.delete_edge(10, 3, 4, None).unwrap();
    assert_eq!(g.view().edge(3, 4).unwrap().earliest_time(), Some(i64::MIN));
    assert_eq!(g.view().edge(3, 4).unwrap().latest_time().unwrap(), 10);
    g.add_edge(1, 3, 4, props(vec![("test", Prop::str("test"))]), None).unwrap();
    assert_eq!(g.view().edge(3, 4).unwrap().latest_time().unwrap(), 10);
    assert_eq!(g.view().edge(3, 4).unwrap().earliest_time().unwrap(), 1);
}

fn assert_graph_equal(a: &GraphView, b: &GraphView) {
    assert_eq!(a.nodes(), b.nodes());
    assert_eq!(a.edges(), b.edges());
    assert_eq!(a.count_edges(), b.count_edges());
    assert_eq!(a.count_temporal_edges(), b.count_temporal_edges());
}

#[test]
fn test_materialize_only_deletion() {
    let mut g = PersistentGraph::new();
    g.delete_edge(1, 1, 2, None).unwrap();
    g.add_edge(2, 1, 2, no_props(), None).unwrap();
    g.delete_edge(5, 1, 2, None).unwrap();
    g.delete_edge(10, 1, 2, None).unwrap();
    assert_eq!(g.window(0, 11).count_temporal_edges(), g.view().count_temporal_edges());
    let gm = PersistentGraph::from_internal_graph(g.view().materialize().unwrap());
    assert_graph_equal(&gm.view(), &g.view());
}

#[test]
fn test_materialize_window() {
    let mut g = PersistentGraph::new();
    g.add_edge(0, 1, 2, no_props(), None).unwrap();
    g.delete_edge(10, 1, 2, None).unwrap();

    let gm = PersistentGraph::from_internal_graph(g.window(3, 5).materialize().unwrap());
    assert_graph_equal(&gm.view(), &g.window(3, 5));
}

#[test]
fn test_exploded_latest_time() {
    let mut g = PersistentGraph::new();
    g.add_edge(0, 1, 2, no_props(), None).unwrap();
    g.delete_edge(10, 1, 2, None).unwrap();
    let view = g.view();
    let e = view.edge(1, 2).unwrap();
    assert_eq!(e.latest_time(), Some(10));
    assert_eq!(times(&e.explode(), |x| x.latest_time()), vec![Some(10)]);
}

#[test]
fn test_exploded_window() {
    let mut g = PersistentGraph::new();
    g.add_edge(0, 1, 2, no_props(), None).unwrap();
    for t in [5, 10, 15] {
        g.add_edge(t, 1, 2, no_props(), None).unwrap();
    }
    let view = g.view();
    let e = view.edge(1, 2).unwrap();
    let exploded: Vec<i64> = e.after(2).explode().iter().flat_map(|x| x.time()).collect();
    assert_eq!(exploded, [3, 5, 10, 15]);
}

#[test]
fn test_edge_properties() {
    let mut g = PersistentGraph::new();
    g.add_edge(0, 1, 2, props(vec![("test", Prop::str("test"))]), None).unwrap();
    assert_eq!(g.view().edge(1, 2).unwrap().property("test"), Some(Prop::str("test")));
    g.delete_edge(10, 1, 2, None).unwrap();
    let view = g.view();
    let e = view.edge(1, 2).unwrap();
    assert_eq!(e.property("test"), Some(Prop::str("test")));
    assert_eq!(e.at(10).property("test"), None);
    drop(e);
    drop(view);
    g.add_edge(11, 1, 2, props(vec![("test", Prop::str("test11"))]), None).unwrap();
    let view = g.view();
    let e = view.edge(1, 2).unwrap();
    assert_eq!(e.window(10, 12).property("test"), Some(Prop::str("test11")));
    assert_eq!(
        e.window(5, 12).temporal_values("test"),
        vec![(5, Prop::str("test")), (11i64, Prop::str("test11"))],
    );
}

#[test]
fn test_edge_history() {
    let mut g = PersistentGraph::new();
    g.add_edge(0, 1, 2, no_props(), None).unwrap();
    g.delete_edge(5, 1, 2, None).unwrap();
    g.add_edge(10, 1, 2, no_props(), None).unwrap();
    let view = g.view();
    let e = view.edge(1, 2).unwrap();
    assert_eq!(e.history(), [0, 10]);
    assert_eq!(e.after(1).history(), [10]);
    assert!(e.window(1, 4).history().is_empty());

    // the exploded edge still exists
    let earliest: Vec<i64> = e.window(1, 4).explode().iter().flat_map(|x| x.earliest_time()).collect();
    assert_eq!(earliest, [1]);
}

#[test]
fn test_ordering_of_addition_and_deletion() {
    let mut g = PersistentGraph::new();

    // deletion before addition: the edge exists on (-inf, 1) and [1, inf)
    g.delete_edge(1, 1, 2, None).unwrap();
    g.add_edge(1, 1, 2, props(vec![("test", Prop::str("test"))]), None).unwrap();

    // addition before deletion: the edge exists only at 2
    g.add_edge(2, 3, 4, props(vec![("test", Prop::str("test"))]), None).unwrap();
    g.delete_edge(2, 3, 4, None).unwrap();

    let view = g.view();
    let e_1_2 = view.edge(1, 2).unwrap();
    let e_3_4 = view.edge(3, 4).unwrap();

    assert_eq!(e_1_2.at(0).property("test"), None);
    assert_eq!(e_1_2.at(1).property("test"), Some(Prop::str("test")));
    assert_eq!(e_1_2.at(2).property("test"), Some(Prop::str("test")));

    assert_eq!(e_3_4.at(0).property("test"), None);
    assert_eq!(e_3_4.at(2).property("test"), Some(Prop::str("test")));
    assert_eq!(e_3_4.at(3).property("test"), None);

    assert!(g.window(0, 1).has_edge(1, 2));
    assert!(!g.window(0, 2).has_edge(3, 4));
    assert!(g.window(1, 2).has_edge(1, 2));
    assert!(g.window(2, 3).has_edge(3, 4));
    assert!(!g.window(3, 4).has_edge(3, 4));
}

#[test]
fn test_deletions() {
    let edges = [(1, 1, 2), (2, 1, 3), (-1, 2, 1), (0, 1, 1), (7, 3, 2), (1, 1, 1)];
    let mut g = PersistentGraph::new();
    for (t, s, d) in edges.iter() {
        g.add_edge(*t, *s, *d, no_props(), None).unwrap();
    }
    g.delete_edge(10, edges[0].1, edges[0].2, None).unwrap();

    for (t, s, d) in &edges {
        assert!(g.at(*t).has_edge(*s, *d));
    }
    assert!(!g.after(10).has_edge(edges[0].1, edges[0].2));
    for (_, s, d) in &edges[1..] {
        assert!(g.after(10).has_edge(*s, *d));
    }
    let view = g.view();
    let e = view.edge(edges[0].1, edges[0].2).unwrap();
    assert_eq!(times(&e.explode(), |x| x.latest_time()), [Some(10)]);
}

#[test]
fn test_deletion_multiple_layers() {
    let mut g = PersistentGraph::new();

    g.add_edge(1, 1, 2, no_props(), Some("1")).unwrap();
    g.delete_edge(2, 1, 2, Some("2")).unwrap();
    g.delete_edge(10, 1, 2, Some("1")).unwrap();
    g.add_edge(10, 1, 2, no_props(), Some("2")).unwrap();

    let view = g.view();
    let e = view.edge(1, 2).unwrap();
    let e_layer_1 = e.layers(&vec!["1"]).unwrap();
    let e_layer_2 = e.layers(&vec!["2"]).unwrap();

    for t in 0..11 {
        assert!(g.at(t).has_edge(1, 2));
    }

    assert!(e.is_valid());
    assert!(!e_layer_1.is_valid());
    assert!(e_layer_2.is_valid());
    assert!(!e_layer_1.at(10).is_valid());
    for t in 0..11 {
        assert!(e.at(t).is_valid());
    }
}

fn check_valid(e: &EdgeView) {
    let (src, dst) = e.id();
    assert!(e.is_valid());
    assert!(!e.is_deleted());
    assert!(e.graph().has_edge(src, dst));
    assert!(e.graph().edge(src, dst).is_some());
}

fn check_deleted(e: &EdgeView) {
    let (src, dst) = e.id();
    assert!(!e.is_valid());
    assert!(e.is_deleted());
    let t = e.latest_time().unwrap_or(i64::MAX);
    let g = e.graph().at(t); // latest view of the graph
    assert!(!g.has_edge(src, dst));
    assert!(g.edge(src, dst).is_none());
}

#[test]
fn test_edge_is_valid() {
    let mut g = PersistentGraph::new();

    g.add_edge(1, 1, 2, no_props(), None).unwrap();
    {
        let view = g.view();
        let e = view.edge(1, 2).unwrap();
        check_deleted(&e.before(1));
        check_valid(&e.after(1));
        check_valid(&e);
    }

    g.add_edge(2, 1, 2, no_props(), Some("1")).unwrap();
    check_valid(&g.view().edge(1, 2).unwrap());

    g.delete_edge(3, 1, 2, Some("1")).unwrap();
    {
        let view = g.view();
        let e = view.edge(1, 2).unwrap();
        let layer_1 = e.layers(&vec!["1"]).unwrap();
        check_valid(&e);
        check_deleted(&layer_1);
        check_deleted(&layer_1.at(3));
        check_deleted(&layer_1.after(3));
        check_valid(&layer_1.before(3));
        check_valid(&e.default_layer());
    }

    g.delete_edge(4, 1, 2, None).unwrap();
    {
        let view = g.view();
        let e = view.edge(1, 2).unwrap();
        check_deleted(&e);
        check_deleted(&e.layers(&vec!["1"]).unwrap());
        check_deleted(&e.default_layer());
    }

    g.add_edge(5, 1, 2, no_props(), None).unwrap();
    {
        let view = g.view();
        let e = view.edge(1, 2).unwrap();
        check_valid(&e);
        check_valid(&e.default_layer());
        check_deleted(&e.layers(&vec!["1"]).unwrap());
    }
}

#[test]
fn test_explode_multiple_layers() {
    let mut g = PersistentGraph::new();
    g.delete_edge(1, 1, 2, Some("1")).unwrap();
    g.delete_edge(2, 1, 2, Some("2")).unwrap();
    g.delete_edge(3, 1, 2, Some("3")).unwrap();

    let view = g.view();
    let e = view.edge(1, 2).unwrap();
    assert_eq!(e.explode().iter().count(), 3);
    assert_eq!(e.before(4).explode().iter().count(), 3);
    assert_eq!(e.window(2, 3).explode().iter().count(), 1);
}

#[test]
fn test_edge_latest_time() {
    let mut g = PersistentGraph::new();
    g.add_edge(0, 1, 2, no_props(), None).unwrap();
    g.delete_edge(2, 1, 2, None).unwrap();
    {
        let view = g.view();
        let e = view.edge(1, 2).unwrap();
        assert_eq!(e.at(2).earliest_time(), None);
        assert_eq!(e.at(2).latest_time(), None);
        assert!(e.at(2).is_deleted());
        assert_eq!(e.latest_time(), Some(2));
    }
    g.add_edge(4, 1, 2, no_props(), None).unwrap();
    let view = g.view();
    let e = view.edge(1, 2).unwrap();
    assert_eq!(e.latest_time(), Some(i64::MAX));

    assert_eq!(e.window(0, 3).latest_time(), Some(2));
}

#[test]
fn test_view_start_end() {
    let mut g = PersistentGraph::new();
    g.add_edge(0, 1, 2, no_props(), None).unwrap();
    assert_eq!(g.view().start(), None);
    assert_eq!(g.view().timeline_start(), Some(0));
    assert_eq!(g.view().end(), None);
    assert_eq!(g.view().timeline_end(), Some(1));
    g.delete_edge(2, 1, 2, None).unwrap();
    assert_eq!(g.view().timeline_start(), Some(0));
    assert_eq!(g.view().timeline_end(), Some(3));
    {
        let w = g.window(g.view().timeline_start().unwrap(), g.view().timeline_end().unwrap());
        assert!(g.view().has_edge(1, 2));
        assert!(w.has_edge(1, 2));
        assert_eq!(w.start(), Some(0));
        assert_eq!(w.timeline_start(), Some(0));
        assert_eq!(w.end(), Some(3));
        assert_eq!(w.timeline_end(), Some(3));
    }

    g.add_edge(4, 1, 2, no_props(), None).unwrap();
    assert_eq!(g.view().timeline_start(), Some(0));
    assert_eq!(g.view().timeline_end(), Some(5));
}

#[test]
fn test_node_property_semantics() {
    let mut g = PersistentGraph::new();
    g.add_node(1, 1, props(vec![("test_prop", Prop::str("test value"))])).unwrap();
    g.add_node(11, 1, props(vec![("test_prop", Prop::str("test value 2"))])).unwrap();
    let at_10 = g.at(10);
    let v_from_graph = at_10.node(1).unwrap();
    let view = g.view();
    let v = view.node(1).unwrap();
    assert_eq!(v.property("test_prop"), Some(Prop::str("test value 2")));
    assert_eq!(v.at(10).property("test_prop"), Some(Prop::str("test value")));
    assert_eq!(v.at(11).property("test_prop"), Some(Prop::str("test value 2")));
    assert_eq!(v_from_graph.property("test_prop"), Some(Prop::str("test value")));

    assert_eq!(v.before(11).property("test_prop"), Some(Prop::str("test value")));

    let history: Vec<i64> = v.temporal_values("test_prop").iter().map(|(t, _)| *t).collect();
    assert_eq!(history, [1, 11]);
    let history: Vec<i64> = v_from_graph.temporal_values("test_prop").iter().map(|(t, _)| *t).collect();
    assert_eq!(history, [10]);

    assert_eq!(v_from_graph.earliest_time(), Some(10));
    assert_eq!(v.earliest_time(), Some(1));
    assert_eq!(v.at(10).earliest_time(), Some(10));
    assert_eq!(v.at(10).latest_time(), Some(10));
    assert_eq!(v.latest_time(), Some(i64::MAX));
}

#[test]
fn test_jira() {
    let g = jira_graph();
    let layers = vec!["assigned", "has", "blocks"];

    let view = g.window(0, 1701786285758).layers(&layers).unwrap();
    println!("windowed edges = {:?}", view.edges());
    println!("windowed nodes = {:?}", names(&view));

    let view = g.at(1701786285758).layers(&layers).unwrap();
    println!("at edges = {:?}", view.edges());
    println!("at nodes = {:?}", view.nodes());
}

#[test]
fn test_event_graph() {
    let mut pg = PersistentGraph::new();
    pg.add_edge(0, 0, 1, props(vec![("added", Prop::I64(0))]), None).unwrap();
    pg.delete_edge(10, 0, 1, None).unwrap();
    assert_eq!(pg.view().edges(), vec![(0, 1)]);

    let g = pg.event_graph();
    assert_eq!(g.edges(), vec![(0, 1)]);
}
