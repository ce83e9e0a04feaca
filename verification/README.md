# isosurface

Octree machinery for isosurface extraction, verified with Verus.

- `src/morton.rs`: Morton codes of octree nodes (root `1`, children
  `8 * k + i`), with lemmas on parents, children and levels.
- `src/octree_topology.rs`: cells, the faces between face-adjacent cells
  and the edges shared by four cells; subdivision of each, with contracts
  over the codes of the cells involved and laws on the shape of a cell's
  interior.
- `src/linear_hashed_octree.rs`: an octree stored as an fxhash map from
  leaf codes to data, built breadth-first from a node oracle; the build is
  proved to terminate and to store exactly the leaves of the octree that
  the oracle describes, and `get_node` reads them back.
- `src/traversal/minimal_edges.rs`: a stack-based walk over cells, faces
  and edges. It ends only when the root is reported as a leaf (a face
  between two leaves splits into copies of itself), so that is what it
  requires; it is proved to ask about the root alone.
- `src/implicit/csg.rs`, `src/adaptive_dual_contouring.rs`: the CSG
  combinators and the extractor's settings.

`app/` holds what works on floating point numbers (the implicit shapes,
their sampling, the mesh outputs and the demo shapes) and the demo program.
