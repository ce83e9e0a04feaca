use isosurface::implicit::csg::{Difference, Intersection, Union};
use isosurface::AdaptiveDualContouring;

#[test]
fn csg_operations_hold_their_operands() {
    let u = Union::new(1u8, "b");
    assert_eq!((u.a, u.b), (1, "b"));
    let i = Intersection::new(2u8, 3u16);
    assert_eq!((i.a, i.b), (2, 3));
    let d = Difference::new('x', 4i32);
    assert_eq!((d.a, d.b), ('x', 4));
}

#[test]
fn adaptive_dual_contouring_new() {
    let _contouring = AdaptiveDualContouring::new(8, ());
}
