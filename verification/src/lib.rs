//! Octree topology, linear hashed octrees and their traversal, the
//! building blocks of isosurface extraction.

pub mod adaptive_dual_contouring;
pub mod implicit;
pub mod linear_hashed_octree;
pub mod morton;
pub mod octree_topology;
pub mod traversal;

pub use adaptive_dual_contouring::AdaptiveDualContouring;
