/// Ordered sets of time-index entries and the windows over them.
pub mod time_index;
/// Selections of edge layers.
pub mod layer_ids;
/// Property values and temporal property logs.
pub mod prop;
/// Single temporal cells.
pub mod tcell;
/// Append-only sequences of temporal cells with a time index.
pub mod tvec;
/// Node and edge records.
pub mod entities;
/// The records and registries of a graph, and its mutations.
pub mod storage;
/// Folds and merges over the layers of an edge.
pub mod layered;
/// The persistent semantics: when an edge is in force.
pub mod persistent;
/// Views of a graph restricted to a window and to layers.
pub mod view;
/// Views of single edges.
pub mod edge_view;
/// Views of single nodes.
pub mod node_view;
/// Event and persistent graph handles.
pub mod graph;
/// The snapshot format.
pub mod codec;
/// Properties that hold of every graph and view.
pub mod laws;
/// Items drawn from an owned value.
pub mod iter;
