use isosurface::morton::Morton;
use isosurface::octree_topology::{Cell, Edge, Face};

fn keys(cells: &[Cell]) -> Vec<u64> {
    cells.iter().map(|c| c.key().0).collect()
}

fn edge_keys(edge: &Edge) -> Vec<u64> {
    keys(edge.neighbors())
}

fn root() -> Cell {
    Cell::new(Morton::new()).unwrap()
}

#[test]
fn morton_root_and_children() {
    let r = Morton::new();
    assert_eq!(r.0, 1);
    assert!(!r.is_none());
    assert!(Morton(0).is_none());
    assert!(Morton(7).is_none());
    assert!(Morton(16).is_none());
    assert!(!Morton(8).is_none());
    assert!(!Morton(0x8000_0000_0000_0000).is_none());
    assert_eq!(r.child(0).0, 8);
    assert_eq!(r.child(7).0, 15);
    assert_eq!(Morton(9).child(3).0, 75);
}

#[test]
fn morton_child_drops_top_bits() {
    // A code with no room for children loses its top three bits.
    let top = Morton(0x8000_0000_0000_0000);
    assert_eq!(top.child(5).0, 5);
}

#[test]
fn cell_new_rejects_codes_of_no_node() {
    assert!(Cell::new(Morton(0)).is_none());
    assert!(Cell::new(Morton(2)).is_none());
    assert!(Cell::new(Morton(42)).is_none());
    assert_eq!(Cell::new(Morton(1)).unwrap().key().0, 1);
    assert_eq!(Cell::new(Morton(73)).unwrap().key().0, 73);
}

#[test]
fn subdivide_yields_the_eight_children() {
    assert_eq!(keys(&root().subdivide()), vec![8, 9, 10, 11, 12, 13, 14, 15]);
    let cell = Cell::new(Morton(9)).unwrap();
    assert_eq!(keys(&cell.subdivide()), (72..80).collect::<Vec<u64>>());
}

#[test]
fn interior_faces_are_twelve_distinct_faces() {
    let faces = root().interior_faces();
    assert_eq!(faces.len(), 12);
    for i in 0..12 {
        for j in 0..i {
            assert_ne!(faces[i], faces[j]);
        }
    }
}

#[test]
fn interior_edges_surround_four_sub_cells() {
    let edges = root().interior_edges();
    assert_eq!(edges.len(), 6);
    // left, right, bottom, top, back, front
    assert_eq!(edge_keys(&edges[0]), vec![8, 10, 14, 12]);
    assert_eq!(edge_keys(&edges[1]), vec![9, 11, 15, 13]);
    assert_eq!(edge_keys(&edges[2]), vec![8, 9, 13, 12]);
    assert_eq!(edge_keys(&edges[3]), vec![10, 11, 15, 14]);
    assert_eq!(edge_keys(&edges[4]), vec![8, 10, 11, 9]);
    assert_eq!(edge_keys(&edges[5]), vec![12, 14, 15, 13]);
}

#[test]
fn face_interior_edges_of_an_x_face() {
    // The first interior face of the root lies between sub-cells 8 and 9.
    let face = root().interior_faces()[0];
    let edges = face.interior_edges();
    assert_eq!(edges.len(), 4);
    assert_eq!(edge_keys(&edges[0]), vec![65, 72, 76, 69]);
    assert_eq!(edge_keys(&edges[1]), vec![67, 74, 78, 71]);
    assert_eq!(edge_keys(&edges[2]), vec![65, 72, 74, 67]);
    assert_eq!(edge_keys(&edges[3]), vec![69, 76, 78, 71]);
}

#[test]
fn face_subdivide_by_two_interior_cells_is_none() {
    let face = root().interior_faces()[0];
    assert!(face.subdivide_by(|_| false).is_none());
}

#[test]
fn face_subdivide_by_two_leaves_repeats_the_face() {
    let face = root().interior_faces()[0];
    let sub = face.subdivide_by(|_| true).unwrap();
    for f in sub.iter() {
        assert_eq!(*f, face);
    }
}

#[test]
fn face_subdivide_by_one_leaf_splits_the_other_cell() {
    // Cell 8 is a leaf, cell 9 is not: cell 9 is replaced by its
    // sub-cells on its right face.
    let face = root().interior_faces()[0];
    let sub = face.subdivide_by(|c: &Cell| c.key().0 == 8).unwrap();
    let expected_second = [73u64, 75, 79, 77];
    for (j, f) in sub.iter().enumerate() {
        // Each sub-face is the face between cell 8 and one sub-cell of 9;
        // its interior edges name both.
        let edges = f.interior_edges();
        let first_edge = edge_keys(&edges[0]);
        assert!(first_edge.contains(&(8 * 8 + 1)));
        assert!(first_edge.iter().any(|k| *k / 8 == expected_second[j]));
    }
}

#[test]
fn face_subdivide_by_asks_each_cell_twice() {
    let face = root().interior_faces()[0];
    let mut asked: Vec<u64> = Vec::new();
    let _ = face.subdivide_by(|c: &Cell| {
        asked.push(c.key().0);
        c.key().0 == 8
    });
    assert_eq!(asked, vec![8, 9, 8, 9]);
}

#[test]
fn edge_subdivide_by_all_leaves_is_none() {
    let edge = root().interior_edges()[0];
    assert!(edge.subdivide_by(|_| true).is_none());
}

#[test]
fn edge_subdivide_by_splits_under_the_mask() {
    // Neighbour 0 (cell 8) is not a leaf, so the mask is 1: the
    // neighbours with index 1 and 3 (whose index shares a bit with the
    // mask) are split along X, the others stay whole.
    let edge = root().interior_edges()[0];
    let halves = edge.subdivide_by(|c: &Cell| c.key().0 != 8).unwrap();
    assert_eq!(edge_keys(&halves[0]), vec![8, 82, 14, 100]);
    assert_eq!(edge_keys(&halves[1]), vec![8, 83, 14, 101]);
}

#[test]
fn edge_subdivide_by_no_leaves() {
    // Mask 15: neighbours 1, 2 and 3 are split, neighbour 0 is not.
    let edge = root().interior_edges()[0];
    let halves = edge.subdivide_by(|_| false).unwrap();
    assert_eq!(edge_keys(&halves[0]), vec![8, 82, 118, 100]);
    assert_eq!(edge_keys(&halves[1]), vec![8, 83, 119, 101]);
}

#[test]
fn face_equality_is_by_value() {
    let a: Face = root().interior_faces()[3];
    let b: Face = root().interior_faces()[3];
    assert_eq!(a, b);
}

#[test]
fn interior_faces_pair_each_adjacent_sub_cells_once() {
    // The cells on both sides of a face show up, one level down, in the
    // codes of the face's interior edges.
    let mut pairs: Vec<(u64, u64)> = Vec::new();
    for face in root().interior_faces() {
        let mut sides: Vec<u64> = Vec::new();
        for edge in face.interior_edges() {
            for k in edge_keys(&edge) {
                if !sides.contains(&(k / 8)) {
                    sides.push(k / 8);
                }
            }
        }
        sides.sort();
        assert_eq!(sides.len(), 2);
        let (a, b) = (sides[0] - 8, sides[1] - 8);
        assert_eq!((a ^ b).count_ones(), 1);
        assert_eq!(a & (a ^ b), 0);
        pairs.push((a, b));
    }
    pairs.sort();
    pairs.dedup();
    assert_eq!(pairs.len(), 12);
}
