use isosurface::morton::Morton;
use isosurface::traversal::minimal_edges::MinimalEdges;

#[test]
fn traverse_of_a_leaf_root_asks_once() {
    let asked = std::cell::RefCell::new(Vec::new());
    let mut edges_seen = 0;
    MinimalEdges.traverse(
        |key: Morton| {
            asked.borrow_mut().push(key.0);
            true
        },
        |_: &[Morton; 4]| edges_seen += 1,
    );
    assert_eq!(asked.into_inner(), vec![1]);
    assert_eq!(edges_seen, 0);
}
