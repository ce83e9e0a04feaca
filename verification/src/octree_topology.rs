//! The topology of an octree: its cells, the faces shared by two
//! face-adjacent cells, and the edges shared by four cells around them.
//!
//! A cell is addressed by its Morton code. The eight sub-cells of a cell
//! are indexed by a corner code of three bits, one per axis (`STEP_X`,
//! `STEP_Y`, `STEP_Z`): a set bit puts the sub-cell on the high side of
//! that axis.

use crate::morton::{child_code, corner_in_parent, is_node_code, lemma_child_code_bits, Morton};
use vstd::prelude::*;

verus! {

/// The bit of a corner code that moves along the X axis.
pub const STEP_X: u8 = 0x1;

/// The bit of a corner code that moves along the Y axis.
pub const STEP_Y: u8 = 0x2;

/// The bit of a corner code that moves along the Z axis.
pub const STEP_Z: u8 = 0x4;

pub const LEFT_BOTTOM_BACK: u8 = 0;

pub const RIGHT_BOTTOM_BACK: u8 = 1;

pub const LEFT_TOP_BACK: u8 = 2;

pub const LEFT_BOTTOM_FRONT: u8 = 4;

pub const RIGHT_TOP_BACK: u8 = 3;

pub const LEFT_TOP_FRONT: u8 = 6;

pub const RIGHT_BOTTOM_FRONT: u8 = 5;

pub const RIGHT_TOP_FRONT: u8 = 7;

/// One of the three coordinate axes.
#[derive(Debug, Copy, Clone, Eq, PartialEq, Hash)]
pub enum Axis {
    X,
    Y,
    Z,
}

// ---------------------------------------------------------------------------
// The tables that describe a cell's interior, as mathematical sequences.
// ---------------------------------------------------------------------------

/// The axis along which the corner-code bit `step` moves.
pub open spec fn axis_of_step(step: u8) -> Axis {
    if step == STEP_X {
        Axis::X
    } else if step == STEP_Y {
        Axis::Y
    } else {
        Axis::Z
    }
}

/// The corner-code bit that moves along `axis`.
pub open spec fn step_of_axis(axis: Axis) -> u8 {
    match axis {
        Axis::X => STEP_X,
        Axis::Y => STEP_Y,
        Axis::Z => STEP_Z,
    }
}

/// The position of `axis` in the order X, Y, Z.
pub open spec fn axis_index(axis: Axis) -> int {
    match axis {
        Axis::X => 0,
        Axis::Y => 1,
        Axis::Z => 2,
    }
}

/// The twelve edges of a cell, each as its start corner and the step
/// along which it runs.
pub open spec fn cell_edge_table() -> Seq<(u8, u8)> {
    seq![
        (LEFT_BOTTOM_BACK, STEP_X),
        (LEFT_BOTTOM_BACK, STEP_Y),
        (LEFT_BOTTOM_BACK, STEP_Z),
        (RIGHT_BOTTOM_BACK, STEP_Y),
        (RIGHT_BOTTOM_BACK, STEP_Z),
        (LEFT_TOP_BACK, STEP_X),
        (LEFT_TOP_BACK, STEP_Z),
        (LEFT_BOTTOM_FRONT, STEP_X),
        (LEFT_BOTTOM_FRONT, STEP_Y),
        (LEFT_TOP_FRONT, STEP_X),
        (RIGHT_BOTTOM_FRONT, STEP_Y),
        (RIGHT_TOP_BACK, STEP_Z),
    ]
}

/// The four corners of each of the six faces of a cell, in the order
/// left, right, bottom, top, back, front.
pub open spec fn face_corner_table() -> Seq<Seq<u8>> {
    seq![
        seq![LEFT_BOTTOM_BACK, LEFT_TOP_BACK, LEFT_TOP_FRONT, LEFT_BOTTOM_FRONT],
        seq![RIGHT_BOTTOM_BACK, RIGHT_TOP_BACK, RIGHT_TOP_FRONT, RIGHT_BOTTOM_FRONT],
        seq![LEFT_BOTTOM_BACK, RIGHT_BOTTOM_BACK, RIGHT_BOTTOM_FRONT, LEFT_BOTTOM_FRONT],
        seq![LEFT_TOP_BACK, RIGHT_TOP_BACK, RIGHT_TOP_FRONT, LEFT_TOP_FRONT],
        seq![LEFT_BOTTOM_BACK, LEFT_TOP_BACK, RIGHT_TOP_BACK, RIGHT_BOTTOM_BACK],
        seq![LEFT_BOTTOM_FRONT, LEFT_TOP_FRONT, RIGHT_TOP_FRONT, RIGHT_BOTTOM_FRONT],
    ]
}

/// The axis normal to the face with the given position in the order
/// left, right, bottom, top, back, front.
pub open spec fn face_normal_of(face: int) -> Axis {
    if face < 2 {
        Axis::X
    } else if face < 4 {
        Axis::Y
    } else {
        Axis::Z
    }
}

/// For a face between two cells along `normal`, the face of the first
/// (`side == 0`) or second (`side == 1`) cell whose sub-cells the
/// subdivision uses.
pub open spec fn face_neighbor_index(normal: Axis, side: int) -> int {
    axis_index(normal) * 2 + side
}

/// The four edges along `axis` whose sub-cells meet the sub-cells of the
/// neighbours of an edge along `axis`, as start corner and step.
pub open spec fn edge_neighbor_table(axis: Axis) -> Seq<(u8, u8)> {
    match axis {
        Axis::X => seq![
            (LEFT_BOTTOM_BACK, STEP_X),
            (LEFT_TOP_BACK, STEP_X),
            (LEFT_TOP_FRONT, STEP_X),
            (LEFT_BOTTOM_FRONT, STEP_X),
        ],
        Axis::Y => seq![
            (LEFT_BOTTOM_BACK, STEP_Y),
            (RIGHT_BOTTOM_BACK, STEP_Y),
            (RIGHT_BOTTOM_FRONT, STEP_Y),
            (LEFT_BOTTOM_FRONT, STEP_Y),
        ],
        Axis::Z => seq![
            (LEFT_BOTTOM_BACK, STEP_Z),
            (RIGHT_BOTTOM_BACK, STEP_Z),
            (RIGHT_TOP_BACK, STEP_Z),
            (LEFT_TOP_BACK, STEP_Z),
        ],
    }
}

/// The axis of the interior edges of a face along `normal`: the `k`-th
/// group of two.
pub open spec fn face_edge_axis(normal: Axis, k: int) -> Axis {
    match normal {
        Axis::X => if k == 0 { Axis::Y } else { Axis::Z },
        Axis::Y => if k == 0 { Axis::X } else { Axis::Z },
        Axis::Z => if k == 0 { Axis::X } else { Axis::Y },
    }
}

/// The cells around the interior edges of a face along `normal`: entry
/// `4 * e + j` gives, for the `j`-th cell around the `e`-th edge, which of
/// the face's two cells it lies in and at which corner.
pub open spec fn face_edge_table(normal: Axis) -> Seq<(int, u8)> {
    match normal {
        Axis::X => seq![
            (0, RIGHT_BOTTOM_BACK), (1, LEFT_BOTTOM_BACK), (1, LEFT_BOTTOM_FRONT), (0, RIGHT_BOTTOM_FRONT),
            (0, RIGHT_TOP_BACK), (1, LEFT_TOP_BACK), (1, LEFT_TOP_FRONT), (0, RIGHT_TOP_FRONT),
            (0, RIGHT_BOTTOM_BACK), (1, LEFT_BOTTOM_BACK), (1, LEFT_TOP_BACK), (0, RIGHT_TOP_BACK),
            (0, RIGHT_BOTTOM_FRONT), (1, LEFT_BOTTOM_FRONT), (1, LEFT_TOP_FRONT), (0, RIGHT_TOP_FRONT),
        ],
        Axis::Y => seq![
            (0, LEFT_TOP_BACK), (1, LEFT_BOTTOM_BACK), (1, LEFT_BOTTOM_FRONT), (0, LEFT_TOP_FRONT),
            (0, RIGHT_TOP_BACK), (1, RIGHT_BOTTOM_BACK), (1, RIGHT_BOTTOM_FRONT), (0, RIGHT_TOP_FRONT),
            (0, LEFT_TOP_BACK), (0, RIGHT_TOP_BACK), (1, RIGHT_BOTTOM_BACK), (1, LEFT_BOTTOM_BACK),
            (0, LEFT_TOP_FRONT), (0, RIGHT_TOP_FRONT), (1, RIGHT_BOTTOM_FRONT), (1, LEFT_BOTTOM_FRONT),
        ],
        Axis::Z => seq![
            (0, LEFT_BOTTOM_FRONT), (0, LEFT_TOP_FRONT), (1, LEFT_TOP_BACK), (1, LEFT_BOTTOM_BACK),
            (0, RIGHT_BOTTOM_FRONT), (0, RIGHT_TOP_FRONT), (1, RIGHT_TOP_BACK), (1, RIGHT_BOTTOM_BACK),
            (0, LEFT_BOTTOM_FRONT), (0, RIGHT_BOTTOM_FRONT), (1, RIGHT_BOTTOM_BACK), (1, LEFT_BOTTOM_BACK),
            (0, LEFT_TOP_FRONT), (0, RIGHT_TOP_FRONT), (1, RIGHT_TOP_BACK), (1, LEFT_TOP_BACK),
        ],
    }
}

// ---------------------------------------------------------------------------
// What the operations compute, over Morton codes.
// ---------------------------------------------------------------------------

/// A face as its normal and the codes of the cell before and after it.
pub type FaceView = (Axis, u64, u64);

/// An edge as its axis and the codes of the four cells around it.
pub type EdgeView = (Axis, Seq<u64>);

/// The codes of the four sub-cells of the cell `code` that touch its
/// face with position `face` (left, right, bottom, top, back, front).
pub open spec fn face_sub_codes(code: u64, face: int) -> Seq<u64> {
    Seq::new(4, |j: int| child_code(code, face_corner_table()[face][j]))
}

/// The `i`-th interior face of the cell `code`: between the sub-cells at
/// both ends of the `i`-th cell edge (the end corner is one step past the
/// start corner, whose bit for that step is clear).
pub open spec fn interior_face(code: u64, i: int) -> FaceView {
    let (corner, step) = cell_edge_table()[i];
    (axis_of_step(step), child_code(code, corner), child_code(code, (corner + step) as u8))
}

/// The `i`-th interior edge of the cell `code`: around the four
/// sub-cells touching the `i`-th face, along that face's normal.
pub open spec fn interior_edge(code: u64, i: int) -> EdgeView {
    (face_normal_of(i), face_sub_codes(code, i))
}

/// The four faces that a face splits into, given whether each of its two
/// cells counts as a leaf: a cell that is not a leaf is replaced by its
/// four sub-cells on the chosen face, a leaf is kept as it is.
pub open spec fn split_face(face: FaceView, first_is_leaf: bool, second_is_leaf: bool) -> Seq<
    FaceView,
> {
    let (normal, first, second) = face;
    let first_face = face_neighbor_index(normal, 0);
    let second_face = face_neighbor_index(normal, 1);
    Seq::new(
        4,
        |j: int|
            (
                normal,
                if first_is_leaf {
                    first
                } else {
                    child_code(first, face_corner_table()[first_face][j])
                },
                if second_is_leaf {
                    second
                } else {
                    child_code(second, face_corner_table()[second_face][j])
                },
            ),
    )
}

/// The `e`-th interior edge of a face.
pub open spec fn face_interior_edge(face: FaceView, e: int) -> EdgeView {
    let (normal, first, second) = face;
    (
        face_edge_axis(normal, e / 2),
        Seq::new(
            4,
            |j: int|
                {
                    let (which, corner) = face_edge_table(normal)[4 * e + j];
                    child_code(if which == 0 { first } else { second }, corner)
                },
        ),
    )
}

/// The mask of an edge's neighbours: bit `j` is set when the `j`-th
/// neighbour is not a leaf.
pub open spec fn leaf_mask(leaves: Seq<bool>) -> u8 {
    ((if leaves[0] { 0int } else { 1 }) + (if leaves[1] { 0int } else { 2 }) + (if leaves[2] {
        0int
    } else {
        4
    }) + (if leaves[3] { 0int } else { 8 })) as u8
}

/// A mask of an edge's neighbours is empty exactly when every neighbour is
/// a leaf: the mask that `EdgeNeighborsMask::from_fn` builds from four
/// answers of `is_leaf` (`leaf_mask`) is zero, which is what
/// `EdgeNeighborsMask::is_empty` tests, exactly when every answer is
/// `true`.
pub proof fn lemma_leaf_mask_empty(leaves: Seq<bool>)
    requires
        leaves.len() == 4,
    ensures
        (leaf_mask(leaves) == 0) <==> (forall|i: int| 0 <= i < 4 ==> #[trigger] leaves[i]),
{
    assert((leaf_mask(leaves) == 0) == (leaves[0] && leaves[1] && leaves[2] && leaves[3]));
}

/// The two halves of an edge split under `mask`: neighbour `i` is split
/// into the two sub-cells at the ends of its matching edge when
/// `mask & i` is non-zero, and kept whole in both halves otherwise.
pub open spec fn split_edge(edge: EdgeView, mask: u8) -> Seq<EdgeView> {
    let (axis, cells) = edge;
    Seq::new(
        2,
        |half: int|
            (
                axis,
                Seq::new(
                    4,
                    |i: int|
                        if mask & (i as u8) != 0 {
                            let (corner, step) = edge_neighbor_table(axis)[i];
                            if half == 0 {
                                child_code(cells[i], corner)
                            } else {
                                child_code(cells[i], (corner + step) as u8)
                            }
                        } else {
                            cells[i]
                        },
                ),
            ),
    )
}

// ---------------------------------------------------------------------------
// Bit facts about the small codes.
// ---------------------------------------------------------------------------

/// Splitting an edge code gives back its corner and step: the code that
/// `EdgeKind::new` builds from a start corner below 32 and a step below 8
/// (`(start << 3) | step`) yields the start corner above its three low
/// bits (what `EdgeKind::into_parts` reads) and the step in them (what
/// `EdgeKind::dir` reads).
pub proof fn lemma_edge_kind_round_trip(start: u8, step: u8)
    requires
        start < 32,
        step < 8,
    ensures
        ((start << 3u8) | step) >> 3u8 == start,
        ((start << 3u8) | step) & 7u8 == step,
        start < 8 ==> ((start << 3u8) | step) < 64,
{
    assert(((start << 3u8) | step) >> 3u8 == start && ((start << 3u8) | step) & 7u8 == step && (
    start < 8u8 ==> ((start << 3u8) | step) < 64)) by (bit_vector)
        requires
            start < 32u8,
            step < 8u8,
    ;
}

proof fn lemma_edge_code_parts(e: u8)
    requires
        e < 64,
    ensures
        e >> 3u8 < 8,
        (e >> 3u8) | (e & 7u8) < 8,
        e & 7u8 < 8,
{
    assert(e >> 3u8 < 8 && (e >> 3u8) | (e & 7u8) < 8 && e & 7u8 < 8) by (bit_vector)
        requires
            e < 64u8,
    ;
}

/// The side of a cell, along `axis`, on which the sub-cell at `corner`
/// lies: 0 for the low side, 1 for the high side.
pub open spec fn corner_side(corner: u8, axis: Axis) -> u8 {
    match axis {
        Axis::X => corner % 2,
        Axis::Y => (corner / 2) % 2,
        Axis::Z => (corner / 4) % 2,
    }
}

/// Whether two corners are neighbours: they lie on different sides of
/// exactly one axis.
pub open spec fn one_axis_apart(a: u8, b: u8) -> bool {
    (if corner_side(a, Axis::X) != corner_side(b, Axis::X) { 1int } else { 0 }) + (if corner_side(
        a,
        Axis::Y,
    ) != corner_side(b, Axis::Y) { 1int } else { 0 }) + (if corner_side(a, Axis::Z) != corner_side(
        b,
        Axis::Z,
    ) { 1int } else { 0 }) == 1
}

proof fn lemma_corner_step(corner: u8, step: u8)
    requires
        corner < 8,
        step == STEP_X || step == STEP_Y || step == STEP_Z,
    ensures
        (corner & step == 0) == (corner_side(corner, axis_of_step(step)) == 0),
        corner & step == 0 ==> corner | step == corner + step,
{
    if step == STEP_X {
        assert((corner & 1u8 == 0) == (corner % 2 == 0) && (corner & 1u8 == 0 ==> corner | 1u8
            == corner + 1)) by (bit_vector)
            requires
                corner < 8u8,
        ;
    } else if step == STEP_Y {
        assert((corner & 2u8 == 0) == ((corner / 2) % 2 == 0) && (corner & 2u8 == 0 ==> corner
            | 2u8 == corner + 2)) by (bit_vector)
            requires
                corner < 8u8,
        ;
    } else {
        assert((corner & 4u8 == 0) == ((corner / 4) % 2 == 0) && (corner & 4u8 == 0 ==> corner
            | 4u8 == corner + 4)) by (bit_vector)
            requires
                corner < 8u8,
        ;
    }
}

/// The interior faces of a cell are the faces between face-adjacent pairs
/// of its sub-cells, each pair once: every interior face runs from a
/// sub-cell on the low side of its normal to the sub-cell one step
/// along the normal, no two interior faces are the same, and every
/// sub-cell on the low side of an axis has an interior face to its
/// neighbour along that axis.
pub proof fn lemma_interior_faces_are_adjacent_pairs()
    ensures
        forall|i: int|
            0 <= i < 12 ==> {
                let (corner, step) = #[trigger] cell_edge_table()[i];
                &&& corner < 8
                &&& step == STEP_X || step == STEP_Y || step == STEP_Z
                &&& step == step_of_axis(axis_of_step(step))
                &&& corner_side(corner, axis_of_step(step)) == 0
                &&& corner | step == corner + step
            },
        forall|i: int, j: int|
            0 <= i < j < 12 ==> #[trigger] cell_edge_table()[i] != #[trigger] cell_edge_table()[j],
        forall|corner: u8, axis: Axis|
            corner < 8 && corner_side(corner, axis) == 0 ==> exists|i: int|
                0 <= i < 12 && #[trigger] cell_edge_table()[i] == (corner, step_of_axis(axis)),
{
    assert forall|i: int| 0 <= i < 12 implies {
        let (corner, step) = #[trigger] cell_edge_table()[i];
        &&& corner < 8
        &&& step == STEP_X || step == STEP_Y || step == STEP_Z
        &&& step == step_of_axis(axis_of_step(step))
        &&& corner_side(corner, axis_of_step(step)) == 0
        &&& corner | step == corner + step
    } by {
        let (corner, step) = cell_edge_table()[i];
        lemma_corner_step(corner, step);
    }
    assert forall|corner: u8, axis: Axis|
        corner < 8 && corner_side(corner, axis) == 0 implies exists|i: int|
            0 <= i < 12 && #[trigger] cell_edge_table()[i] == (corner, step_of_axis(axis)) by {
        // Every corner is one of eight, and each table entry is a witness.
        let t = cell_edge_table();
        assert(corner == 0 || corner == 1 || corner == 2 || corner == 3 || corner == 4 || corner
            == 5 || corner == 6 || corner == 7);
        assert(t[0] == t[0] && t[1] == t[1] && t[2] == t[2] && t[3] == t[3] && t[4] == t[4]
            && t[5] == t[5] && t[6] == t[6] && t[7] == t[7] && t[8] == t[8] && t[9] == t[9]
            && t[10] == t[10] && t[11] == t[11]);
    }
}

/// The four sub-cells around each interior edge of a cell are the four
/// distinct sub-cells on one side of the edge's axis: the low side for the
/// left, bottom and back faces, the high side for the others.
pub proof fn lemma_interior_edges_surround_axis()
    ensures
        forall|face: int, j: int|
            0 <= face < 6 && 0 <= j < 4 ==> {
                let corner = #[trigger] face_corner_table()[face][j];
                &&& corner < 8
                &&& corner_side(corner, face_normal_of(face)) == face % 2
            },
        forall|face: int, j: int, k: int|
            0 <= face < 6 && 0 <= j < k < 4 ==> #[trigger] face_corner_table()[face][j]
                != #[trigger] face_corner_table()[face][k],
{
    assert forall|face: int, j: int| 0 <= face < 6 && 0 <= j < 4 implies {
        let corner = #[trigger] face_corner_table()[face][j];
        &&& corner < 8
        &&& corner_side(corner, face_normal_of(face)) == face % 2
    } by {
        assert(face == 0 || face == 1 || face == 2 || face == 3 || face == 4 || face == 5);
    }
    assert forall|face: int, j: int, k: int| 0 <= face < 6 && 0 <= j < k < 4 implies #[trigger] face_corner_table()[face][j]
        != #[trigger] face_corner_table()[face][k] by {
        assert(face == 0 || face == 1 || face == 2 || face == 3 || face == 4 || face == 5);
    }
}

/// The interior edges of a face lie in the face's plane: each of the four
/// cells around an interior edge touches the plane from the side of the
/// face's cell it lies in, all four lie on the same side along the edge's
/// axis, and no two are the same.
pub proof fn lemma_face_interior_edges_surround_axis()
    ensures
        forall|normal: Axis, e: int, j: int|
            0 <= e < 4 && 0 <= j < 4 ==> {
                let (which, corner) = #[trigger] face_edge_table(normal)[4 * e + j];
                &&& which == 0 || which == 1
                &&& corner < 8
                &&& corner_side(corner, normal) == 1 - which
                &&& corner_side(corner, face_edge_axis(normal, e / 2)) == corner_side(
                    face_edge_table(normal)[4 * e].1,
                    face_edge_axis(normal, e / 2),
                )
            },
        forall|normal: Axis, e: int, j: int, k: int|
            0 <= e < 4 && 0 <= j < k < 4 ==> #[trigger] face_edge_table(normal)[4 * e + j]
                != #[trigger] face_edge_table(normal)[4 * e + k],
{
    assert forall|normal: Axis, e: int, j: int| 0 <= e < 4 && 0 <= j < 4 implies {
        let (which, corner) = #[trigger] face_edge_table(normal)[4 * e + j];
        &&& which == 0 || which == 1
        &&& corner < 8
        &&& corner_side(corner, normal) == 1 - which
        &&& corner_side(corner, face_edge_axis(normal, e / 2)) == corner_side(
            face_edge_table(normal)[4 * e].1,
            face_edge_axis(normal, e / 2),
        )
    } by {
        assert(e == 0 || e == 1 || e == 2 || e == 3);
        assert(j == 0 || j == 1 || j == 2 || j == 3);
    }
    assert forall|normal: Axis, e: int, j: int, k: int|
        0 <= e < 4 && 0 <= j < k < 4 implies #[trigger] face_edge_table(normal)[4 * e + j]
        != #[trigger] face_edge_table(normal)[4 * e + k] by {
        assert(e == 0 || e == 1 || e == 2 || e == 3);
        assert(j == 0 || j == 1 || j == 2);
        assert(k == 1 || k == 2 || k == 3);
    }
}

/// The sub-cells that split a neighbour of an edge are the two halves of
/// that neighbour along the edge's axis: each entry starts on the low side
/// of the axis and steps along it, the four entries start at distinct
/// corners, and consecutive entries go around the axis one step at a time.
pub proof fn lemma_edge_neighbors_step_along_axis()
    ensures
        forall|axis: Axis, i: int|
            0 <= i < 4 ==> {
                let (corner, step) = #[trigger] edge_neighbor_table(axis)[i];
                &&& corner < 8
                &&& step == step_of_axis(axis)
                &&& corner_side(corner, axis) == 0
            },
        forall|axis: Axis, i: int, k: int|
            0 <= i < k < 4 ==> (#[trigger] edge_neighbor_table(axis)[i]).0 != (
            #[trigger] edge_neighbor_table(axis)[k]).0,
{
}

/// Consecutive entries of the edge-neighbour table go around the edge's
/// axis one step at a time.
pub proof fn lemma_edge_neighbors_go_around()
    ensures
        forall|axis: Axis, i: int|
            0 <= i < 4 ==> one_axis_apart(
                (#[trigger] edge_neighbor_table(axis)[i]).0,
                edge_neighbor_table(axis)[(i + 1) % 4].0,
            ),
{
    assert forall|axis: Axis, i: int| 0 <= i < 4 implies one_axis_apart(
        (#[trigger] edge_neighbor_table(axis)[i]).0,
        edge_neighbor_table(axis)[(i + 1) % 4].0,
    ) by {
        lemma_edge_neighbor_around(axis, i);
    }
}

proof fn lemma_edge_neighbor_around(axis: Axis, i: int)
    requires
        0 <= i < 4,
    ensures
        one_axis_apart(edge_neighbor_table(axis)[i].0, edge_neighbor_table(axis)[(i + 1) % 4].0),
{
    assert(i == 0 || i == 1 || i == 2 || i == 3);
    match axis {
        Axis::X => {},
        Axis::Y => {},
        Axis::Z => {},
    }
}

proof fn lemma_face_edge_around(normal: Axis, e: int, j: int)
    requires
        0 <= e < 4,
        0 <= j < 4,
    ensures
        one_axis_apart(face_edge_table(normal)[4 * e + j].1, face_edge_table(normal)[4 * e + (j + 1) % 4].1),
{
    assert(e == 0 || e == 1 || e == 2 || e == 3);
    assert(j == 0 || j == 1 || j == 2 || j == 3);
    match normal {
        Axis::X => {},
        Axis::Y => {},
        Axis::Z => {},
    }
}

/// An interior face lies between two sub-cells of the same cell that
/// differ along the face's normal alone: the first on the low side of the
/// normal, the second one step past it along the normal.
pub proof fn lemma_interior_face_normal(code: u64, i: int)
    requires
        0 <= i < 12,
    ensures
        ({
            let (normal, first, second) = interior_face(code, i);
            &&& first / 8 == second / 8
            &&& corner_side(corner_in_parent(first), normal) == 0
            &&& corner_in_parent(second) == corner_in_parent(first) + step_of_axis(normal)
        }),
{
    lemma_interior_faces_are_adjacent_pairs();
    let (corner, step) = cell_edge_table()[i];
    assert(corner_side(corner, axis_of_step(step)) == 0);
    assert(corner + step < 8);
    lemma_child_code_bits(code, corner);
    lemma_child_code_bits(code, (corner + step) as u8);
}

/// The interior faces of a cell are twelve different faces.
pub proof fn lemma_interior_faces_distinct(code: u64, i: int, k: int)
    requires
        0 <= i < k < 12,
    ensures
        interior_face(code, i) != interior_face(code, k),
{
    lemma_interior_faces_are_adjacent_pairs();
    let (ci, si) = cell_edge_table()[i];
    let (ck, sk) = cell_edge_table()[k];
    lemma_child_code_bits(code, ci);
    lemma_child_code_bits(code, ck);
    assert(cell_edge_table()[i] != cell_edge_table()[k]);
}

/// An interior edge of a cell runs along the axis on which its four cells
/// agree: all four are sub-cells of the same cell, lying on the same side
/// of that axis, no two are the same, and they go around the edge one
/// step at a time.
pub proof fn lemma_interior_edge_axis(code: u64, i: int)
    requires
        0 <= i < 6,
    ensures
        ({
            let (axis, cells) = interior_edge(code, i);
            &&& cells.len() == 4
            &&& forall|j: int, k: int|
                0 <= j < 4 && 0 <= k < 4 ==> #[trigger] cells[j] / 8 == #[trigger] cells[k] / 8
                    && corner_side(corner_in_parent(cells[j]), axis) == corner_side(
                    corner_in_parent(cells[k]),
                    axis,
                )
            &&& forall|j: int, k: int| 0 <= j < k < 4 ==> #[trigger] cells[j] != #[trigger] cells[k]
            &&& forall|j: int|
                0 <= j < 4 ==> one_axis_apart(
                    corner_in_parent(#[trigger] cells[j]),
                    corner_in_parent(cells[(j + 1) % 4]),
                )
        }),
{
    lemma_interior_edges_surround_axis();
    let (axis, cells) = interior_edge(code, i);
    assert forall|j: int| 0 <= j < 4 implies #[trigger] corner_in_parent(cells[j])
        == face_corner_table()[i][j] && cells[j] / 8 == child_code(code, 0) / 8 && corner_side(
        corner_in_parent(cells[j]),
        axis,
    ) == i % 2 by {
        lemma_child_code_bits(code, face_corner_table()[i][j]);
    }
    assert forall|j: int, k: int|
        0 <= j < 4 && 0 <= k < 4 implies #[trigger] cells[j] / 8 == #[trigger] cells[k] / 8
        && corner_side(corner_in_parent(cells[j]), axis) == corner_side(
        corner_in_parent(cells[k]),
        axis,
    ) by {
        assert(corner_in_parent(cells[j]) == face_corner_table()[i][j]);
        assert(corner_in_parent(cells[k]) == face_corner_table()[i][k]);
    }
    assert forall|j: int, k: int| 0 <= j < k < 4 implies #[trigger] cells[j] != #[trigger] cells[k] by {
        assert(corner_in_parent(cells[j]) == face_corner_table()[i][j]);
        assert(corner_in_parent(cells[k]) == face_corner_table()[i][k]);
    }    assert forall|j: int| 0 <= j < 4 implies one_axis_apart(
        corner_in_parent(#[trigger] cells[j]),
        corner_in_parent(cells[(j + 1) % 4]),
    ) by {
        assert(corner_in_parent(cells[j]) == face_corner_table()[i][j]);
        assert(corner_in_parent(cells[(j + 1) % 4]) == face_corner_table()[i][(j + 1) % 4]);
        assert(i == 0 || i == 1 || i == 2 || i == 3 || i == 4 || i == 5);
        assert(j == 0 || j == 1 || j == 2 || j == 3);
    }
}

/// The faces that split the two cells of a face along `normal` are faces
/// of those cells along that same normal, on opposite sides: the first
/// cell's sub-cells lie on the low side of the normal, the second cell's
/// on the high side, and the `j`-th of each differ along the normal alone.
proof fn lemma_face_neighbor_corners(normal: Axis, j: int)
    requires
        0 <= j < 4,
    ensures
        ({
            let low = face_corner_table()[face_neighbor_index(normal, 0)][j];
            let high = face_corner_table()[face_neighbor_index(normal, 1)][j];
            &&& low < 8
            &&& corner_side(low, normal) == 0
            &&& high == low + step_of_axis(normal)
            &&& corner_side(high, normal) == 1
        }),
{
    assert(j == 0 || j == 1 || j == 2 || j == 3);
}

/// How a face splits: every sub-face has the face's normal; a cell of the
/// face that is not a leaf is replaced, in the four sub-faces, by its four
/// different sub-cells on one side of the normal (the low side for the
/// first cell, the high side for the second); a leaf cell stays in all
/// four. When both cells split, the two sub-cells of each sub-face differ
/// along the normal alone.
pub proof fn lemma_split_face_sides(face: FaceView, first_is_leaf: bool, second_is_leaf: bool)
    ensures
        ({
            let (normal, first, second) = face;
            let sub = split_face(face, first_is_leaf, second_is_leaf);
            &&& sub.len() == 4
            &&& forall|j: int| 0 <= j < 4 ==> (#[trigger] sub[j]).0 == normal
            &&& first_is_leaf ==> forall|j: int| 0 <= j < 4 ==> (#[trigger] sub[j]).1 == first
            &&& second_is_leaf ==> forall|j: int| 0 <= j < 4 ==> (#[trigger] sub[j]).2 == second
            &&& !first_is_leaf ==> forall|j: int|
                0 <= j < 4 ==> (#[trigger] sub[j]).1 / 8 == child_code(first, 0) / 8
                    && corner_side(corner_in_parent(sub[j].1), normal) == 0
            &&& !second_is_leaf ==> forall|j: int|
                0 <= j < 4 ==> (#[trigger] sub[j]).2 / 8 == child_code(second, 0) / 8
                    && corner_side(corner_in_parent(sub[j].2), normal) == 1
            &&& !first_is_leaf ==> forall|j: int, k: int|
                0 <= j < k < 4 ==> (#[trigger] sub[j]).1 != (#[trigger] sub[k]).1
            &&& !second_is_leaf ==> forall|j: int, k: int|
                0 <= j < k < 4 ==> (#[trigger] sub[j]).2 != (#[trigger] sub[k]).2
            &&& !first_is_leaf && !second_is_leaf ==> forall|j: int|
                0 <= j < 4 ==> corner_in_parent((#[trigger] sub[j]).2) == corner_in_parent(sub[j].1)
                    + step_of_axis(normal)
        }),
{
    let (normal, first, second) = face;
    let sub = split_face(face, first_is_leaf, second_is_leaf);
    assert forall|j: int| 0 <= j < 4 implies {
        &&& corner_in_parent((#[trigger] sub[j]).1) == (if first_is_leaf {
            corner_in_parent(first)
        } else {
            face_corner_table()[face_neighbor_index(normal, 0)][j]
        })
        &&& corner_in_parent(sub[j].2) == (if second_is_leaf {
            corner_in_parent(second)
        } else {
            face_corner_table()[face_neighbor_index(normal, 1)][j]
        })
        &&& !first_is_leaf ==> sub[j].1 / 8 == child_code(first, 0) / 8
        &&& !second_is_leaf ==> sub[j].2 / 8 == child_code(second, 0) / 8
    } by {
        lemma_face_neighbor_corners(normal, j);
        lemma_child_code_bits(first, face_corner_table()[face_neighbor_index(normal, 0)][j]);
        lemma_child_code_bits(second, face_corner_table()[face_neighbor_index(normal, 1)][j]);
    }
    assert forall|j: int, k: int| 0 <= j < k < 4 implies face_corner_table()[face_neighbor_index(
        normal,
        0,
    )][j] != face_corner_table()[face_neighbor_index(normal, 0)][k]
        && face_corner_table()[face_neighbor_index(normal, 1)][j]
        != face_corner_table()[face_neighbor_index(normal, 1)][k] by {
        assert(j == 0 || j == 1 || j == 2);
        assert(k == 1 || k == 2 || k == 3);
    }
}

/// The four interior edges of a face are four different edges: each runs
/// along an axis on which its four cells lie on the same side, the two
/// edges of each pair run along the same axis on opposite sides of it, and
/// the two pairs run along different axes.
pub proof fn lemma_face_interior_edges_distinct(face: FaceView)
    ensures
        forall|e: int, j: int, k: int|
            #![trigger face_interior_edge(face, e).1[j], face_interior_edge(face, e).1[k]]
            0 <= e < 4 && 0 <= j < 4 && 0 <= k < 4 ==> corner_side(
                corner_in_parent(face_interior_edge(face, e).1[j]),
                face_interior_edge(face, e).0,
            ) == corner_side(corner_in_parent(face_interior_edge(face, e).1[k]), face_interior_edge(face, e).0),
        forall|m: int|
            0 <= m < 2 ==> #[trigger] face_interior_edge(face, 2 * m).0 == face_interior_edge(face, 2 * m + 1).0
                && corner_side(
                corner_in_parent(face_interior_edge(face, 2 * m).1[0]),
                face_interior_edge(face, 2 * m).0,
            ) != corner_side(
                corner_in_parent(face_interior_edge(face, 2 * m + 1).1[0]),
                face_interior_edge(face, 2 * m + 1).0,
            ),
        face_interior_edge(face, 0).0 != face_interior_edge(face, 2).0,
        forall|e: int, f: int|
            0 <= e < f < 4 ==> #[trigger] face_interior_edge(face, e) != #[trigger] face_interior_edge(face, f),
{
    let (normal, first, second) = face;
    lemma_face_interior_edges_surround_axis();
    assert forall|e: int, j: int| 0 <= e < 4 && 0 <= j < 4 implies corner_in_parent(
        #[trigger] face_interior_edge(face, e).1[j],
    ) == face_edge_table(normal)[4 * e + j].1 by {
        let (which, corner) = face_edge_table(normal)[4 * e + j];
        lemma_child_code_bits(first, corner);
        lemma_child_code_bits(second, corner);
    }
    assert forall|m: int| 0 <= m < 2 implies corner_side(
        face_edge_table(normal)[8 * m].1,
        face_edge_axis(normal, m),
    ) != corner_side(face_edge_table(normal)[8 * m + 4].1, face_edge_axis(normal, m)) by {
        assert(m == 0 || m == 1);
    }
    assert forall|e: int, f: int| 0 <= e < f < 4 implies #[trigger] face_interior_edge(face, e)
        != #[trigger] face_interior_edge(face, f) by {
        if e / 2 == f / 2 {
            let m = e / 2;
            assert(e == 2 * m && f == 2 * m + 1);
            assert(face_interior_edge(face, e).1[0] != face_interior_edge(face, f).1[0]);
        } else {
            assert(face_interior_edge(face, e).0 != face_interior_edge(face, f).0);
        }
    }
}

/// The four cells around each interior edge of a face go around the edge
/// one step at a time.
pub proof fn lemma_face_interior_edges_go_around(face: FaceView)
    ensures
        forall|e: int, j: int|
            0 <= e < 4 && 0 <= j < 4 ==> one_axis_apart(
                corner_in_parent(#[trigger] face_interior_edge(face, e).1[j]),
                corner_in_parent(face_interior_edge(face, e).1[(j + 1) % 4]),
            ),
{
    let (normal, first, second) = face;
    assert forall|e: int, j: int| 0 <= e < 4 && 0 <= j < 4 implies one_axis_apart(
        corner_in_parent(#[trigger] face_interior_edge(face, e).1[j]),
        corner_in_parent(face_interior_edge(face, e).1[(j + 1) % 4]),
    ) by {
        let (w0, c0) = face_edge_table(normal)[4 * e + j];
        let (w1, c1) = face_edge_table(normal)[4 * e + (j + 1) % 4];
        lemma_child_code_bits(first, c0);
        lemma_child_code_bits(second, c0);
        lemma_child_code_bits(first, c1);
        lemma_child_code_bits(second, c1);
        lemma_face_interior_edges_surround_axis();
        assert(corner_in_parent(face_interior_edge(face, e).1[(j + 1) % 4]) == face_edge_table(
            normal,
        )[4 * e + (j + 1) % 4].1);
        lemma_face_edge_around(normal, e, j);
    }
}

/// How an edge splits: both halves run along the edge's axis; each
/// neighbour is either kept whole in both halves, or replaced by two
/// sub-cells of it that differ along the edge's axis alone, the one in the
/// first half on the low side of the axis.
pub proof fn lemma_split_edge_halves(edge: EdgeView, mask: u8)
    requires
        edge.1.len() == 4,
    ensures
        ({
            let (axis, cells) = edge;
            let halves = split_edge(edge, mask);
            &&& halves.len() == 2
            &&& halves[0].0 == axis && halves[1].0 == axis
            &&& halves[0].1.len() == 4 && halves[1].1.len() == 4
            &&& forall|i: int|
                0 <= i < 4 ==> {
                    ||| #[trigger] halves[0].1[i] == cells[i] && halves[1].1[i] == cells[i]
                    ||| {
                        &&& halves[0].1[i] / 8 == child_code(cells[i], 0) / 8
                        &&& halves[1].1[i] / 8 == child_code(cells[i], 0) / 8
                        &&& corner_side(corner_in_parent(halves[0].1[i]), axis) == 0
                        &&& corner_in_parent(halves[1].1[i]) == corner_in_parent(halves[0].1[i])
                            + step_of_axis(axis)
                    }
                }
        }),
{
    let (axis, cells) = edge;
    let halves = split_edge(edge, mask);
    lemma_edge_neighbors_step_along_axis();
    assert forall|i: int| 0 <= i < 4 implies {
        ||| #[trigger] halves[0].1[i] == cells[i] && halves[1].1[i] == cells[i]
        ||| {
            &&& halves[0].1[i] / 8 == child_code(cells[i], 0) / 8
            &&& halves[1].1[i] / 8 == child_code(cells[i], 0) / 8
            &&& corner_side(corner_in_parent(halves[0].1[i]), axis) == 0
            &&& corner_in_parent(halves[1].1[i]) == corner_in_parent(halves[0].1[i])
                + step_of_axis(axis)
        }
    } by {
        let (corner, step) = edge_neighbor_table(axis)[i];
        lemma_corner_step(corner, step);
        assert(corner + step < 8);
        lemma_child_code_bits(cells[i], corner);
        lemma_child_code_bits(cells[i], (corner + step) as u8);
    }
}

/// A face splits into faces along the same normal, and a face whose two
/// cells are both leaves splits into four copies of itself.
pub proof fn lemma_split_face_shape(face: FaceView, first_is_leaf: bool, second_is_leaf: bool)
    ensures
        split_face(face, first_is_leaf, second_is_leaf).len() == 4,
        forall|j: int|
            0 <= j < 4 ==> (#[trigger] split_face(face, first_is_leaf, second_is_leaf)[j]).0
                == face.0,
        split_face(face, true, true) == Seq::new(4, |j: int| face),
{
    assert(split_face(face, true, true) =~= Seq::new(4, |j: int| face));
}

// ---------------------------------------------------------------------------
// Cells.
// ---------------------------------------------------------------------------

/// An octree node/cell.
#[derive(Debug, Copy, Clone, Eq, PartialEq, Hash)]
pub struct Cell(Morton);

impl View for Cell {
    type V = u64;

    closed spec fn view(&self) -> u64 {
        self.0.0
    }
}

impl Cell {
    /// Creates a new `Cell` from its morton code.
    ///
    /// If `key` doesn't represent a valid octree node, returns None.
    pub fn new(key: Morton) -> (cell: Option<Cell>)
        ensures
            cell is Some <==> is_node_code(key.0),
            cell matches Some(c) ==> c@ == key.0,
    {
        if !key.is_none() {
            Some(Cell(key))
        } else {
            None
        }
    }

    /// Retrieves the morton code ("key") corresponding this cell.
    pub fn key(&self) -> (key: Morton)
        ensures
            key.0 == self@,
    {
        self.0
    }

    /// Retrieves the sub-cell of this cell adjacent to `corner`.
    fn sub_cell(&self, corner: Corner) -> (cell: Cell)
        requires
            corner.0 < 8,
        ensures
            cell@ == child_code(self@, corner.0),
    {
        Cell(self.0.child(corner.0))
    }

    /// This cell's eight sub-cells, the `i`-th at corner `i`.
    ///
    /// This method does not distinguish between interior and leaf cells,
    /// so it always yields 8 cells.
    pub fn subdivide(&self) -> (cells: Vec<Cell>)
        ensures
            cells@.len() == 8,
            forall|i: int| 0 <= i < 8 ==> #[trigger] cells@[i]@ == child_code(self@, i as u8),
    {
        let mut cells: Vec<Cell> = Vec::new();
        for i in 0..8u8
            invariant
                cells@.len() == i,
                forall|j: int| 0 <= j < i ==> #[trigger] cells@[j]@ == child_code(self@, j as u8),
        {
            cells.push(Cell(self.0.child(i)));
        }
        cells
    }

    /// This cell's interior faces, i.e., those between the face-adjacent
    /// pairs of its sub-cells.
    ///
    /// This method does not distinguish between interior and leaf cells,
    /// so it always yields 12 faces.
    pub fn interior_faces(&self) -> (faces: Vec<Face>)
        ensures
            faces@.len() == 12,
            forall|i: int| 0 <= i < 12 ==> #[trigger] faces@[i]@ == interior_face(self@, i),
    {
        let mut faces: Vec<Face> = Vec::new();
        for i in 0..12usize
            invariant
                faces@.len() == i,
                forall|j: int| 0 <= j < i ==> #[trigger] faces@[j]@ == interior_face(self@, j),
        {
            proof {
                let (corner, step) = cell_edge_table()[i as int];
                lemma_corner_step(corner, step);
            }
            faces.push(Face::from_edge(self, cell_edge(i)));
        }
        faces
    }

    /// This cell's interior edges, i.e., those adjacent to 4 sub-cells of
    /// this cell at a time.
    ///
    /// This method does not distinguish between interior and leaf cells,
    /// so it always yields 6 edges.
    pub fn interior_edges(&self) -> (edges: Vec<Edge>)
        ensures
            edges@.len() == 6,
            forall|i: int| 0 <= i < 6 ==> #[trigger] edges@[i]@ == interior_edge(self@, i),
    {
        let mut edges: Vec<Edge> = Vec::new();
        for i in 0..6usize
            invariant
                edges@.len() == i,
                forall|j: int| 0 <= j < i ==> #[trigger] edges@[j]@ == interior_edge(self@, j),
        {
            edges.push(Edge::from_face(self, cell_face(i)));
        }
        edges
    }

    /// Retrieves the sub-cells of this cell adjacent to the given face.
    fn face_sub_cells(&self, face: FaceKind) -> (cells: [Cell; 4])
        ensures
            forall|j: int| 0 <= j < 4 ==> #[trigger] cells[j]@ == face_sub_codes(self@, face.index())[j],
    {
        let corners = face_corners(face);
        [
            self.sub_cell(corners[0]),
            self.sub_cell(corners[1]),
            self.sub_cell(corners[2]),
            self.sub_cell(corners[3]),
        ]
    }

    /// Retrieves the sub-cells of this cell adjacent to the given edge.
    fn edge_sub_cells(&self, edge: EdgeKind) -> (cells: [Cell; 2])
        requires
            edge.0 < 64,
        ensures
            cells[0]@ == child_code(self@, edge.0 >> 3u8),
            cells[1]@ == child_code(self@, (edge.0 >> 3u8) | (edge.0 & 7u8)),
    {
        proof {
            lemma_edge_code_parts(edge.0);
        }
        let (start, dir) = edge.into_parts();
        [self.sub_cell(start), self.sub_cell(start.step(dir))]
    }
}

// ---------------------------------------------------------------------------
// Directions, corners, edge and face kinds.
// ---------------------------------------------------------------------------

/// A step along one axis, as its corner-code bit.
#[derive(Debug, Copy, Clone)]
struct Dir(u8);

impl Dir {
    fn axis(&self) -> (axis: Axis)
        requires
            self.0 == STEP_X || self.0 == STEP_Y || self.0 == STEP_Z,
        ensures
            axis == axis_of_step(self.0),
    {
        match self.0 {
            STEP_X => Axis::X,
            STEP_Y => Axis::Y,
            _ => Axis::Z,
        }
    }
}

/// A corner of a cell, as the corner code of the sub-cell there.
#[derive(Debug, Default, Copy, Clone)]
struct Corner(u8);

impl Corner {
    fn step(&self, dir: Dir) -> (corner: Corner)
        ensures
            corner.0 == self.0 | dir.0,
    {
        Corner(self.0 | dir.0)
    }
}

/// An edge of a cell, as its start corner above the step it runs along.
#[derive(Debug, Copy, Clone)]
struct EdgeKind(u8);

impl EdgeKind {
    fn new(start: Corner, dir: Dir) -> (edge: EdgeKind)
        requires
            start.0 < 32,
            dir.0 < 8,
        ensures
            edge.0 == (start.0 << 3u8) | dir.0,
            edge.0 >> 3u8 == start.0,
            edge.0 & 7u8 == dir.0,
            start.0 < 8 ==> edge.0 < 64,
    {
        proof {
            lemma_edge_kind_round_trip(start.0, dir.0);
        }
        EdgeKind(start.0 << 3 | dir.0)
    }

    fn dir(&self) -> (dir: Dir)
        ensures
            dir.0 == self.0 & 7u8,
    {
        Dir(self.0 & 0x7)
    }

    fn into_parts(self) -> (parts: (Corner, Dir))
        ensures
            parts.0.0 == self.0 >> 3u8,
            parts.1.0 == self.0 & 7u8,
    {
        (Corner(self.0 >> 3), self.dir())
    }
}

/// A face of a cell.
#[derive(Debug, Copy, Clone)]
enum FaceKind {
    Left,
    Right,
    Bottom,
    Top,
    Back,
    Front,
}

impl FaceKind {
    /// The position of this face in the order left, right, bottom, top,
    /// back, front.
    spec fn index(self) -> int {
        match self {
            FaceKind::Left => 0,
            FaceKind::Right => 1,
            FaceKind::Bottom => 2,
            FaceKind::Top => 3,
            FaceKind::Back => 4,
            FaceKind::Front => 5,
        }
    }

    fn normal(&self) -> (axis: Axis)
        ensures
            axis == face_normal_of(self.index()),
    {
        match self {
            FaceKind::Left | FaceKind::Right => Axis::X,
            FaceKind::Bottom | FaceKind::Top => Axis::Y,
            FaceKind::Back | FaceKind::Front => Axis::Z,
        }
    }
}

// ---------------------------------------------------------------------------
// The tables, as executable lookups.
// ---------------------------------------------------------------------------

/// The `i`-th edge of a cell.
fn cell_edge(i: usize) -> (edge: EdgeKind)
    requires
        i < 12,
    ensures
        edge.0 < 64,
        edge.0 >> 3u8 == cell_edge_table()[i as int].0,
        edge.0 & 7u8 == cell_edge_table()[i as int].1,
{
    let table: [(u8, u8); 12] = [
        (LEFT_BOTTOM_BACK, STEP_X),
        (LEFT_BOTTOM_BACK, STEP_Y),
        (LEFT_BOTTOM_BACK, STEP_Z),
        (RIGHT_BOTTOM_BACK, STEP_Y),
        (RIGHT_BOTTOM_BACK, STEP_Z),
        (LEFT_TOP_BACK, STEP_X),
        (LEFT_TOP_BACK, STEP_Z),
        (LEFT_BOTTOM_FRONT, STEP_X),
        (LEFT_BOTTOM_FRONT, STEP_Y),
        (LEFT_TOP_FRONT, STEP_X),
        (RIGHT_BOTTOM_FRONT, STEP_Y),
        (RIGHT_TOP_BACK, STEP_Z),
    ];
    let (start, step) = table[i];
    proof {
        lemma_edge_kind_round_trip(start, step);
    }
    EdgeKind::new(Corner(start), Dir(step))
}

/// The `i`-th face of a cell.
fn cell_face(i: usize) -> (face: FaceKind)
    requires
        i < 6,
    ensures
        face.index() == i,
{
    let table: [FaceKind; 6] = [
        FaceKind::Left,
        FaceKind::Right,
        FaceKind::Bottom,
        FaceKind::Top,
        FaceKind::Back,
        FaceKind::Front,
    ];
    table[i]
}

/// The corners of a cell that touch `face`.
fn face_corners(face: FaceKind) -> (corners: [Corner; 4])
    ensures
        forall|j: int| 0 <= j < 4 ==> #[trigger] corners[j].0 == face_corner_table()[face.index()][j],
        forall|j: int| 0 <= j < 4 ==> #[trigger] corners[j].0 < 8,
{
    match face {
        FaceKind::Left => [
            Corner(LEFT_BOTTOM_BACK),
            Corner(LEFT_TOP_BACK),
            Corner(LEFT_TOP_FRONT),
            Corner(LEFT_BOTTOM_FRONT),
        ],
        FaceKind::Right => [
            Corner(RIGHT_BOTTOM_BACK),
            Corner(RIGHT_TOP_BACK),
            Corner(RIGHT_TOP_FRONT),
            Corner(RIGHT_BOTTOM_FRONT),
        ],
        FaceKind::Bottom => [
            Corner(LEFT_BOTTOM_BACK),
            Corner(RIGHT_BOTTOM_BACK),
            Corner(RIGHT_BOTTOM_FRONT),
            Corner(LEFT_BOTTOM_FRONT),
        ],
        FaceKind::Top => [
            Corner(LEFT_TOP_BACK),
            Corner(RIGHT_TOP_BACK),
            Corner(RIGHT_TOP_FRONT),
            Corner(LEFT_TOP_FRONT),
        ],
        FaceKind::Back => [
            Corner(LEFT_BOTTOM_BACK),
            Corner(LEFT_TOP_BACK),
            Corner(RIGHT_TOP_BACK),
            Corner(RIGHT_BOTTOM_BACK),
        ],
        FaceKind::Front => [
            Corner(LEFT_BOTTOM_FRONT),
            Corner(LEFT_TOP_FRONT),
            Corner(RIGHT_TOP_FRONT),
            Corner(RIGHT_BOTTOM_FRONT),
        ],
    }
}

/// The `i`-th edge along `axis` that meets the neighbours of an edge
/// along `axis`.
fn edge_neighbor(axis: Axis, i: usize) -> (edge: EdgeKind)
    requires
        i < 4,
    ensures
        edge.0 < 64,
        edge.0 >> 3u8 == edge_neighbor_table(axis)[i as int].0,
        edge.0 & 7u8 == edge_neighbor_table(axis)[i as int].1,
{
    let table: [(u8, u8); 4] = match axis {
        Axis::X => [
            (LEFT_BOTTOM_BACK, STEP_X),
            (LEFT_TOP_BACK, STEP_X),
            (LEFT_TOP_FRONT, STEP_X),
            (LEFT_BOTTOM_FRONT, STEP_X),
        ],
        Axis::Y => [
            (LEFT_BOTTOM_BACK, STEP_Y),
            (RIGHT_BOTTOM_BACK, STEP_Y),
            (RIGHT_BOTTOM_FRONT, STEP_Y),
            (LEFT_BOTTOM_FRONT, STEP_Y),
        ],
        Axis::Z => [
            (LEFT_BOTTOM_BACK, STEP_Z),
            (RIGHT_BOTTOM_BACK, STEP_Z),
            (RIGHT_TOP_BACK, STEP_Z),
            (LEFT_TOP_BACK, STEP_Z),
        ],
    };
    let (start, step) = table[i];
    proof {
        lemma_edge_kind_round_trip(start, step);
    }
    EdgeKind::new(Corner(start), Dir(step))
}

/// The face of the first (`side == 0`) or second (`side == 1`) cell of a
/// face along `normal` that its subdivision uses.
fn face_neighbor(normal: Axis, side: usize) -> (face: FaceKind)
    requires
        side < 2,
    ensures
        face.index() == face_neighbor_index(normal, side as int),
{
    match normal {
        Axis::X => if side == 0 { FaceKind::Left } else { FaceKind::Right },
        Axis::Y => if side == 0 { FaceKind::Bottom } else { FaceKind::Top },
        Axis::Z => if side == 0 { FaceKind::Back } else { FaceKind::Front },
    }
}

/// The axis of the `k`-th pair of interior edges of a face along `normal`.
fn face_edge_axis_of(normal: Axis, k: usize) -> (axis: Axis)
    requires
        k < 2,
    ensures
        axis == face_edge_axis(normal, k as int),
{
    match normal {
        Axis::X => if k == 0 { Axis::Y } else { Axis::Z },
        Axis::Y => if k == 0 { Axis::X } else { Axis::Z },
        Axis::Z => if k == 0 { Axis::X } else { Axis::Y },
    }
}

/// Entry `n` of the table of cells around the interior edges of a face
/// along `normal`.
fn face_edge_entry(normal: Axis, n: usize) -> (entry: (usize, Corner))
    requires
        n < 16,
    ensures
        entry.0 as int == face_edge_table(normal)[n as int].0,
        entry.1.0 == face_edge_table(normal)[n as int].1,
        entry.0 < 2,
        entry.1.0 < 8,
{
    let table: [(usize, u8); 16] = match normal {
        Axis::X => [
            (0, RIGHT_BOTTOM_BACK), (1, LEFT_BOTTOM_BACK), (1, LEFT_BOTTOM_FRONT), (0, RIGHT_BOTTOM_FRONT),
            (0, RIGHT_TOP_BACK), (1, LEFT_TOP_BACK), (1, LEFT_TOP_FRONT), (0, RIGHT_TOP_FRONT),
            (0, RIGHT_BOTTOM_BACK), (1, LEFT_BOTTOM_BACK), (1, LEFT_TOP_BACK), (0, RIGHT_TOP_BACK),
            (0, RIGHT_BOTTOM_FRONT), (1, LEFT_BOTTOM_FRONT), (1, LEFT_TOP_FRONT), (0, RIGHT_TOP_FRONT),
        ],
        Axis::Y => [
            (0, LEFT_TOP_BACK), (1, LEFT_BOTTOM_BACK), (1, LEFT_BOTTOM_FRONT), (0, LEFT_TOP_FRONT),
            (0, RIGHT_TOP_BACK), (1, RIGHT_BOTTOM_BACK), (1, RIGHT_BOTTOM_FRONT), (0, RIGHT_TOP_FRONT),
            (0, LEFT_TOP_BACK), (0, RIGHT_TOP_BACK), (1, RIGHT_BOTTOM_BACK), (1, LEFT_BOTTOM_BACK),
            (0, LEFT_TOP_FRONT), (0, RIGHT_TOP_FRONT), (1, RIGHT_BOTTOM_FRONT), (1, LEFT_BOTTOM_FRONT),
        ],
        Axis::Z => [
            (0, LEFT_BOTTOM_FRONT), (0, LEFT_TOP_FRONT), (1, LEFT_TOP_BACK), (1, LEFT_BOTTOM_BACK),
            (0, RIGHT_BOTTOM_FRONT), (0, RIGHT_TOP_FRONT), (1, RIGHT_TOP_BACK), (1, RIGHT_BOTTOM_BACK),
            (0, LEFT_BOTTOM_FRONT), (0, RIGHT_BOTTOM_FRONT), (1, RIGHT_BOTTOM_BACK), (1, LEFT_BOTTOM_BACK),
            (0, LEFT_TOP_FRONT), (0, RIGHT_TOP_FRONT), (1, RIGHT_TOP_BACK), (1, LEFT_TOP_BACK),
        ],
    };
    let (which, corner) = table[n];
    (which, Corner(corner))
}

// ---------------------------------------------------------------------------
// Faces.
// ---------------------------------------------------------------------------

/// A face between two face-adjacent cells.
#[derive(Debug, Copy, Clone, Eq, PartialEq, Hash)]
pub struct Face {
    normal: Axis,
    neighbors: [Cell; 2],
}

impl View for Face {
    type V = FaceView;

    closed spec fn view(&self) -> FaceView {
        (self.normal, self.neighbors[0]@, self.neighbors[1]@)
    }
}

impl Face {
    /// The cell before (`i == 0`) or after (`i == 1`) this face.
    pub closed spec fn neighbor(self, i: int) -> Cell {
        self.neighbors[i]
    }

    pub proof fn lemma_neighbor_view(self)
        ensures
            self.neighbor(0)@ == self@.1,
            self.neighbor(1)@ == self@.2,
    {
    }

    /// The four faces this face splits into, decided by `is_leaf`; `None`
    /// when neither of its cells is reported as a leaf.
    ///
    /// `is_leaf` is asked about the first and then the second cell; when
    /// either answer is `true`, it is asked about both again, and each
    /// cell for which the second answer is `false` is replaced by its four
    /// sub-cells on the face that the subdivision uses, while a cell
    /// reported as a leaf stands in all four sub-faces.
    pub fn subdivide_by<F>(&self, mut is_leaf: F) -> (sub_faces: Option<[Face; 4]>) where
        F: FnMut(&Cell) -> bool,

        requires
            forall|c: &Cell| call_requires(is_leaf, (c,)),
        ensures
            sub_faces is None ==> call_ensures(is_leaf, (&self.neighbor(0),), false)
                && call_ensures(is_leaf, (&self.neighbor(1),), false),
            sub_faces is Some ==> call_ensures(is_leaf, (&self.neighbor(0),), true)
                || call_ensures(is_leaf, (&self.neighbor(1),), true),
            sub_faces matches Some(faces) ==> exists|first_is_leaf: bool, second_is_leaf: bool|
                {
                    &&& call_ensures(is_leaf, (&self.neighbor(0),), first_is_leaf)
                    &&& call_ensures(is_leaf, (&self.neighbor(1),), second_is_leaf)
                    &&& faces@.map_values(|f: Face| f@) == split_face(
                        self@,
                        first_is_leaf,
                        second_is_leaf,
                    )
                },
    {
        let first = self.neighbors[0];
        let second = self.neighbors[1];

        let subdivide_first = is_leaf(&first);
        let subdivide_second = is_leaf(&second);

        if !subdivide_first && !subdivide_second {
            return None;
        }

        let first_is_leaf = is_leaf(&first);
        let sub_cells_first = if !first_is_leaf {
            first.face_sub_cells(face_neighbor(self.normal, 0))
        } else {
            [first, first, first, first]
        };

        let second_is_leaf = is_leaf(&second);
        let sub_cells_second = if !second_is_leaf {
            second.face_sub_cells(face_neighbor(self.normal, 1))
        } else {
            [second, second, second, second]
        };

        let sub_faces = [
            Face { normal: self.normal, neighbors: [sub_cells_first[0], sub_cells_second[0]] },
            Face { normal: self.normal, neighbors: [sub_cells_first[1], sub_cells_second[1]] },
            Face { normal: self.normal, neighbors: [sub_cells_first[2], sub_cells_second[2]] },
            Face { normal: self.normal, neighbors: [sub_cells_first[3], sub_cells_second[3]] },
        ];
        assert(sub_faces@.map_values(|f: Face| f@) =~= split_face(
            self@,
            first_is_leaf,
            second_is_leaf,
        ));
        Some(sub_faces)
    }

    /// The four edges inside this face, where the sub-cells on both sides
    /// of it meet.
    pub fn interior_edges(&self) -> (edges: Vec<Edge>)
        ensures
            edges@.len() == 4,
            forall|e: int| 0 <= e < 4 ==> #[trigger] edges@[e]@ == face_interior_edge(self@, e),
    {
        let mut edges: Vec<Edge> = Vec::new();
        for k in 0..2usize
            invariant
                edges@.len() == 2 * k,
                forall|e: int| 0 <= e < 2 * k ==> #[trigger] edges@[e]@ == face_interior_edge(self@, e),
        {
            let axis = face_edge_axis_of(self.normal, k);
            for m in 0..2usize
                invariant
                    k < 2,
                    axis == face_edge_axis(self.normal, k as int),
                    edges@.len() == 2 * k + m,
                    forall|e: int| 0 <= e < 2 * k + m ==> #[trigger] edges@[e]@ == face_interior_edge(self@, e),
            {
                let base = 8 * k + 4 * m;
                let (w0, c0) = face_edge_entry(self.normal, base);
                let (w1, c1) = face_edge_entry(self.normal, base + 1);
                let (w2, c2) = face_edge_entry(self.normal, base + 2);
                let (w3, c3) = face_edge_entry(self.normal, base + 3);
                let neighbors = [
                    self.neighbors[w0].sub_cell(c0),
                    self.neighbors[w1].sub_cell(c1),
                    self.neighbors[w2].sub_cell(c2),
                    self.neighbors[w3].sub_cell(c3),
                ];
                let edge = Edge::new(axis, neighbors);
                assert(edge@.1 =~= face_interior_edge(self@, (2 * k + m) as int).1);
                edges.push(edge);
            }
        }
        edges
    }

    fn from_edge(cell: &Cell, edge: EdgeKind) -> (face: Face)
        requires
            edge.0 < 64,
            edge.0 & 7u8 == STEP_X || edge.0 & 7u8 == STEP_Y || edge.0 & 7u8 == STEP_Z,
        ensures
            face@ == (
                axis_of_step(edge.0 & 7u8),
                child_code(cell@, edge.0 >> 3u8),
                child_code(cell@, (edge.0 >> 3u8) | (edge.0 & 7u8)),
            ),
    {
        let neighbors = cell.edge_sub_cells(edge);
        Face { neighbors, normal: edge.dir().axis() }
    }
}

// ---------------------------------------------------------------------------
// Edges.
// ---------------------------------------------------------------------------

/// An edge shared by four cells around it.
#[derive(Debug, Copy, Clone, Eq, PartialEq, Hash)]
pub struct Edge {
    axis: Axis,
    neighbors: [Cell; 4],
}

impl View for Edge {
    type V = EdgeView;

    closed spec fn view(&self) -> EdgeView {
        (
            self.axis,
            seq![
                self.neighbors[0]@,
                self.neighbors[1]@,
                self.neighbors[2]@,
                self.neighbors[3]@,
            ],
        )
    }
}

impl Edge {
    /// The `i`-th cell around this edge.
    pub closed spec fn neighbor(self, i: int) -> Cell {
        self.neighbors[i]
    }

    pub proof fn lemma_neighbor_view(self)
        ensures
            forall|i: int| 0 <= i < 4 ==> #[trigger] self.neighbor(i)@ == self@.1[i],
            self@.1.len() == 4,
    {
    }

    /// The four cells around this edge.
    pub fn neighbors(&self) -> (cells: &[Cell; 4])
        ensures
            forall|i: int| 0 <= i < 4 ==> #[trigger] cells[i] == self.neighbor(i),
            forall|i: int| 0 <= i < 4 ==> #[trigger] cells[i]@ == self@.1[i],
    {
        &self.neighbors
    }

    /// The two halves of this edge under `mask`; `None` when the mask is
    /// empty.
    fn subdivide(&self, mask: EdgeNeighborsMask) -> (halves: Option<[Edge; 2]>)
        ensures
            halves is None <==> mask.0 == 0,
            halves matches Some(es) ==> es@.map_values(|e: Edge| e@) == split_edge(self@, mask.0),
    {
        if mask.is_empty() {
            return None;
        }

        let mut first: [Cell; 4] = self.neighbors;
        let mut second: [Cell; 4] = self.neighbors;

        for i in 0..4usize
            invariant
                mask.0 != 0,
                forall|j: int|
                    0 <= j < i ==> #[trigger] first[j]@ == split_edge(self@, mask.0)[0].1[j],
                forall|j: int|
                    0 <= j < i ==> #[trigger] second[j]@ == split_edge(self@, mask.0)[1].1[j],
        {
            let (a, b) = if mask.contains(i as u8) {
                let edge = edge_neighbor(self.axis, i);
                let halves = self.neighbors[i].edge_sub_cells(edge);
                (halves[0], halves[1])
            } else {
                (self.neighbors[i], self.neighbors[i])
            };
            proof {
                let (corner, step) = edge_neighbor_table(self.axis)[i as int];
                lemma_corner_step(corner, step);
            }
            let ghost split = split_edge(self@, mask.0);
            assert(a@ == split[0].1[i as int] && b@ == split[1].1[i as int]);
            first[i] = a;
            second[i] = b;
        }

        let halves = [Edge { axis: self.axis, neighbors: first }, Edge { axis: self.axis, neighbors: second }];
        assert(halves[0]@.1 =~= split_edge(self@, mask.0)[0].1);
        assert(halves[1]@.1 =~= split_edge(self@, mask.0)[1].1);
        assert(halves@.map_values(|e: Edge| e@) =~= split_edge(self@, mask.0));
        Some(halves)
    }

    /// The two halves of this edge, decided by `is_leaf`: `is_leaf` is
    /// asked about the four cells in order, their answers make the mask
    /// of [`leaf_mask`], and the edge is split under it as in
    /// [`split_edge`]; `None` when every cell is reported as a leaf.
    pub fn subdivide_by<F>(&self, is_leaf: F) -> (halves: Option<[Edge; 2]>) where
        F: FnMut(&Cell) -> bool,

        requires
            forall|c: &Cell| call_requires(is_leaf, (c,)),
        ensures
            exists|leaves: Seq<bool>|
                {
                    &&& leaves.len() == 4
                    &&& forall|i: int|
                        0 <= i < 4 ==> call_ensures(is_leaf, (&self.neighbor(i),), #[trigger] leaves[i])
                    &&& halves is None <==> leaf_mask(leaves) == 0
                    &&& halves is None <==> forall|i: int| 0 <= i < 4 ==> #[trigger] leaves[i]
                    &&& halves matches Some(es) ==> es@.map_values(|e: Edge| e@) == split_edge(
                        self@,
                        leaf_mask(leaves),
                    )
                },
    {
        let (mask, Ghost(leaves)) = EdgeNeighborsMask::from_fn(self, is_leaf);
        let halves = self.subdivide(mask);
        proof {
            lemma_leaf_mask_empty(leaves);
        }
        halves
    }

    fn new(axis: Axis, neighbors: [Cell; 4]) -> (edge: Edge)
        ensures
            edge.axis == axis,
            edge.neighbors == neighbors,
    {
        Self { axis, neighbors }
    }

    fn from_face(cell: &Cell, face: FaceKind) -> (edge: Edge)
        ensures
            edge@ == (face_normal_of(face.index()), face_sub_codes(cell@, face.index())),
    {
        let neighbors = cell.face_sub_cells(face);
        let axis = face.normal();
        let edge = Self { axis, neighbors };
        assert(edge@.1 =~= face_sub_codes(cell@, face.index()));
        edge
    }
}

/// Which of an edge's four neighbours are not leaves: bit `i` for the
/// `i`-th neighbour.
#[derive(Debug, Default, Copy, Clone)]
struct EdgeNeighborsMask(u8);

impl EdgeNeighborsMask {
    fn from_fn<F>(edge: &Edge, mut f: F) -> (mask: (EdgeNeighborsMask, Ghost<Seq<bool>>)) where
        F: FnMut(&Cell) -> bool,

        requires
            forall|c: &Cell| call_requires(f, (c,)),
        ensures
            mask.1@.len() == 4,
            forall|i: int|
                0 <= i < 4 ==> call_ensures(f, (&edge.neighbor(i),), #[trigger] mask.1@[i]),
            mask.0.0 == leaf_mask(mask.1@),
            mask.0.0 == 0 <==> forall|i: int| 0 <= i < 4 ==> #[trigger] mask.1@[i],
    {
        let ghost f0 = f;
        let ghost mut leaves: Seq<bool> = seq![true, true, true, true];
        let mut bits: u8 = 0;
        for i in 0..4usize
            invariant
                f == f0,
                forall|c: &Cell| call_requires(f, (c,)),
                leaves.len() == 4,
                forall|j: int|
                    0 <= j < i ==> call_ensures(f, (&edge.neighbor(j),), #[trigger] leaves[j]),
                forall|j: int| i <= j < 4 ==> #[trigger] leaves[j],
                bits as int == leaf_mask(leaves) as int,
                bits < 16,
        {
            let leaf = f(&edge.neighbors[i]);
            let bit: u8 = if leaf { 0 } else { 1 };
            proof {
                assert(bit << (i as u8) == if leaf { 0u8 } else if i == 0 { 1u8 } else if i == 1 {
                    2u8
                } else if i == 2 {
                    4u8
                } else {
                    8u8
                }) by (bit_vector)
                    requires
                        bit == (if leaf { 0u8 } else { 1u8 }),
                        i < 4,
                ;
                leaves = leaves.update(i as int, leaf);
            }
            bits = bits + (bit << (i as u8));
        }
        proof {
            lemma_leaf_mask_empty(leaves);
        }
        (EdgeNeighborsMask(bits), Ghost(leaves))
    }

    fn is_empty(&self) -> (b: bool)
        ensures
            b == (self.0 == 0),
    {
        self.0 == 0
    }

    fn contains(&self, i: u8) -> (b: bool)
        ensures
            b == (self.0 & i != 0),
    {
        (self.0 & i) != 0
    }
}

} // verus!
