use isosurface::linear_hashed_octree::{LinearHashedOctree, OctreeNode};
use isosurface::morton::Morton;

#[test]
fn into_leaf_gives_the_leaf_data() {
    assert_eq!(OctreeNode::Leaf(7u32).into_leaf(), Some(7));
    assert_eq!(OctreeNode::<u32>::Internal.into_leaf(), None);
    assert_eq!(OctreeNode::<u32>::Empty.into_leaf(), None);
}

#[test]
fn new_octree_answers_internal_for_node_codes() {
    let octree: LinearHashedOctree<u32> = LinearHashedOctree::new();
    assert!(matches!(octree.get_node(Morton(1)), OctreeNode::Internal));
    assert!(matches!(octree.get_node(Morton(0)), OctreeNode::Empty));
    assert!(matches!(octree.get_node(Morton(2)), OctreeNode::Empty));
}

#[test]
fn get_node_reads_back_a_leaf_root() {
    let mut octree: LinearHashedOctree<u32> = LinearHashedOctree::new();
    octree.build(|k: Morton| {
        if k == Morton::new() {
            OctreeNode::Leaf(7u32)
        } else {
            OctreeNode::Empty
        }
    });
    assert!(matches!(octree.get_node(Morton::new()), OctreeNode::Leaf(&7)));
}

#[test]
fn get_node_reads_back_the_leaves_of_a_build() {
    let mut octree: LinearHashedOctree<u64> = LinearHashedOctree::new();
    octree.build(|key: Morton| {
        if key.0 == 1 {
            OctreeNode::Internal
        } else {
            OctreeNode::Leaf(key.0)
        }
    });
    assert!(matches!(octree.get_node(Morton(1)), OctreeNode::Internal));
    for code in 8..16u64 {
        assert!(matches!(octree.get_node(Morton(code)), OctreeNode::Leaf(n) if *n == code));
    }
    assert!(matches!(octree.get_node(Morton(64)), OctreeNode::Internal));
    assert!(matches!(octree.get_node(Morton(0)), OctreeNode::Empty));
    assert!(matches!(octree.get_node(Morton(3)), OctreeNode::Empty));
}

#[test]
fn build_leaves_out_empty_nodes_and_keeps_earlier_leaves() {
    let mut octree: LinearHashedOctree<u64> = LinearHashedOctree::new();
    octree.build(|key: Morton| {
        if key.0 == 1 {
            OctreeNode::Internal
        } else if key.0 % 2 == 0 {
            OctreeNode::Leaf(key.0)
        } else {
            OctreeNode::Empty
        }
    });
    octree.build(|key: Morton| {
        if key.0 == 1 {
            OctreeNode::Internal
        } else if key.0 == 9 {
            OctreeNode::Leaf(90)
        } else {
            OctreeNode::Empty
        }
    });
    assert!(matches!(octree.get_node(Morton(8)), OctreeNode::Leaf(&8)));
    assert!(matches!(octree.get_node(Morton(9)), OctreeNode::Leaf(&90)));
    assert!(matches!(octree.get_node(Morton(11)), OctreeNode::Internal));
}

#[test]
fn build_visits_breadth_first() {
    let mut visited: Vec<u64> = Vec::new();
    let mut octree: LinearHashedOctree<u64> = LinearHashedOctree::new();
    octree.build(|key: Morton| {
        visited.push(key.0);
        if key.0 == 1 || key.0 == 9 {
            OctreeNode::Internal
        } else if key.0 % 2 == 0 {
            OctreeNode::Leaf(key.0)
        } else {
            OctreeNode::Empty
        }
    });
    let mut expected: Vec<u64> = (8..16).collect();
    expected.insert(0, 1);
    expected.extend(72..80);
    assert_eq!(visited, expected);
}

#[test]
fn build_of_a_single_leaf_visits_only_the_root() {
    let mut visited: Vec<u64> = Vec::new();
    let mut octree: LinearHashedOctree<&str> = LinearHashedOctree::new();
    octree.build(|key: Morton| {
        visited.push(key.0);
        OctreeNode::Leaf("root")
    });
    assert_eq!(visited, vec![1]);
}
