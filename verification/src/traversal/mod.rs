//! Traversals of an octree's cells, faces and edges.

pub mod minimal_edges;
