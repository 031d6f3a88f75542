//! ShapeTracker view operations.

use luminal::expr::Expr;
use luminal::shape::ShapeTracker;

fn num(n: usize) -> Expr {
    Expr::Num(n)
}

fn dims2(a: usize, b: usize) -> Vec<Expr> {
    vec![num(a), num(b)]
}

#[test]
fn fresh_tracker_is_contiguous() {
    let t = ShapeTracker::new(dims2(2, 3));
    assert_eq!(t.len(), 2);
    assert!(t.is_contiguous());
    assert!(!t.is_sliced());
    assert!(!t.is_padded());
}

#[test]
fn permute_breaks_contiguity() {
    let mut t = ShapeTracker::new(dims2(2, 3));
    t.permute(&vec![1, 0]);
    assert!(!t.is_contiguous());
    assert_eq!(t.indexes, vec![1, 0]);
    // the logical dims travelled with the permutation
    assert!(matches!(t.dims[0], Expr::Num(3)));
    assert!(matches!(t.dims[1], Expr::Num(2)));
    t.permute(&vec![1, 0]);
    assert!(t.is_contiguous());
}

#[test]
fn expand_inserts_fake_axis() {
    let mut t = ShapeTracker::new(vec![num(4)]);
    t.expand(0, num(7));
    assert_eq!(t.len(), 2);
    assert!(t.fake[0]);
    assert!(!t.fake[1]);
    assert!(matches!(t.dims[0], Expr::Num(7)));
}

#[test]
fn remove_dim_needs_unit_or_fake() {
    let mut t = ShapeTracker::new(dims2(1, 3));
    assert!(!t.remove_dim(1));
    assert_eq!(t.len(), 2);
    assert!(t.remove_dim(0));
    assert_eq!(t.len(), 1);
    let mut t2 = ShapeTracker::new(vec![num(4)]);
    t2.expand(1, num(9));
    assert!(t2.remove_dim(1));
    assert_eq!(t2.len(), 1);
}

#[test]
fn slice_and_pad_are_tracked() {
    let mut t = ShapeTracker::new(dims2(4, 6));
    assert!(!t.is_sliced());
    t.slice(&vec![(num(0), num(4)), (num(1), num(5))]);
    assert!(t.is_sliced());
    assert!(!t.is_padded());
    t.pad(&vec![(num(0), num(0)), (num(2), num(0))]);
    assert!(t.is_padded());
    assert!(!t.is_contiguous());
}

#[test]
fn shape_reports_extents() {
    let mut t = ShapeTracker::new(dims2(4, 6));
    t.slice(&vec![(num(0), num(4)), (num(1), num(5))]);
    let env: Vec<(char, usize)> = Vec::new();
    let s = t.shape();
    assert_eq!(s[0].eval(&env), Some(4));
    // window 1..5 of six elements leaves four
    assert_eq!(s[1].eval(&env), Some(4));
}

#[test]
fn contiguous_resets_the_view() {
    let mut t = ShapeTracker::new(dims2(4, 6));
    t.permute(&vec![1, 0]);
    let c = t.contiguous();
    assert!(c.is_contiguous());
    assert_eq!(c.len(), 2);
    let env: Vec<(char, usize)> = Vec::new();
    assert_eq!(c.dims[0].eval(&env), Some(6));
    assert_eq!(c.dims[1].eval(&env), Some(4));
}

#[test]
fn reshape_requires_contiguous() {
    let mut t = ShapeTracker::new(dims2(4, 6));
    t.reshape(vec![num(3), num(8)]);
    assert_eq!(t.len(), 2);
    assert!(t.is_contiguous());
}
