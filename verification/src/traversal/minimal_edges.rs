//! A depth-first walk over the cells of an octree together with the faces
//! and edges between them.

use crate::morton::Morton;
use crate::octree_topology::{Cell, Edge, Face};
use vstd::prelude::*;

verus! {

/// A depth-first walk over an octree's cells, faces and edges, meant to
/// report its minimal edges. As it stands it splits cells and faces but
/// drops every edge it reaches without reporting it, and it returns only
/// when the root is a leaf (see `traverse`).
pub struct MinimalEdges;

/// An element of the octree waiting on the traversal's stack.
enum Primitive {
    Cell(Cell),
    Face(Face),
    Edge(Edge),
}

impl MinimalEdges {
    /// Walks the octree that `is_leaf` describes from the root, keeping
    /// the cells, faces and edges still to visit on a stack: a cell that
    /// is not a leaf has its sub-cells, interior faces and interior edges
    /// pushed; a face that `Face::subdivide_by` splits has its four
    /// sub-faces pushed; an edge is dropped. `edge_callback` is never
    /// called.
    ///
    /// The walk ends only when `is_leaf` reports the root as a leaf: any
    /// face whose two cells are both leaves splits into four copies of
    /// itself, and a face with a single leaf cell splits into faces that
    /// again touch that leaf, so once the root has been split the stack
    /// never empties. The root must therefore be reported as a leaf, and
    /// `is_leaf` is asked about the root alone.
    pub fn traverse<L, E>(&self, is_leaf: L, edge_callback: E) where
        L: Fn(Morton) -> bool,
        E: FnMut(&[Morton; 4]),

        requires
            call_requires(is_leaf, (Morton(1),)),
            forall|answer: bool| call_ensures(is_leaf, (Morton(1),), answer) ==> answer,
        ensures
            call_ensures(is_leaf, (Morton(1),), true),
    {
        let mut stack: Vec<Primitive> = Vec::new();
        let root = Cell::new(Morton::new()).unwrap();
        stack.push(Primitive::Cell(root));

        let leaf_of_key = &is_leaf;
        let is_leaf = move |cell: &Cell| -> (answer: bool)
            requires
                call_requires(leaf_of_key, (Morton(cell@),)),
            ensures
                call_ensures(leaf_of_key, (Morton(cell@),), answer),
            {
                let key = cell.key();
                assert(key == Morton(cell@));
                leaf_of_key(key)
            };

        loop
            invariant
                call_requires(leaf_of_key, (Morton(1),)),
                forall|answer: bool| call_ensures(leaf_of_key, (Morton(1),), answer) ==> answer,
                forall|cell: &Cell| cell@ == 1 ==> call_requires(is_leaf, (cell,)),
                forall|cell: &Cell, answer: bool|
                    call_ensures(is_leaf, (cell,), answer) ==> call_ensures(
                        leaf_of_key,
                        (Morton(cell@),),
                        answer,
                    ),
                stack@.len() <= 1,
                stack@.len() == 1 ==> (stack@[0] matches Primitive::Cell(c) && c@ == 1),
                stack@.len() == 0 ==> call_ensures(leaf_of_key, (Morton(1),), true),
            ensures
                call_ensures(leaf_of_key, (Morton(1),), true),
            decreases stack@.len(),
        {
            let primitive = match stack.pop() {
                Some(primitive) => primitive,
                None => {
                    break;
                },
            };
            match primitive {
                Primitive::Cell(cell) => {
                    let answer = is_leaf(&cell);
                    if answer {
                        proof {
                            assert(call_ensures(leaf_of_key, (Morton(cell@),), answer));
                            assert(Morton(cell@) == Morton(1));
                        }
                        continue;
                    }
                    proof {
                        // Only the root is ever on the stack here, and it is a leaf.
                        assert(call_ensures(leaf_of_key, (Morton(cell@),), answer));
                        assert(Morton(cell@) == Morton(1));
                    }
                    for sub_cell in cell.subdivide() {
                        stack.push(Primitive::Cell(sub_cell));
                    }
                    for interior_face in cell.interior_faces() {
                        stack.push(Primitive::Face(interior_face));
                    }
                    for interior_edge in cell.interior_edges() {
                        stack.push(Primitive::Edge(interior_edge));
                    }
                },
                Primitive::Face(face) => {
                    if let Some(sub_faces) = face.subdivide_by(&is_leaf) {
                        for i in 0..4usize {
                            stack.push(Primitive::Face(sub_faces[i]));
                        }
                    }
                },
                Primitive::Edge(_edge) => {},
            }
        }
    }
}

} // verus!
