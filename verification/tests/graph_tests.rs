//! Graph building, edges and pattern matching.

use luminal::expr::Expr;
use luminal::graph::{Graph, Op};
use luminal::select::{has_input_exec, DimPat};
use luminal::shape::ShapeTracker;

fn num(n: usize) -> Expr {
    Expr::Num(n)
}

#[test]
fn add_op_and_edges() {
    let mut g = Graph::new();
    let a = g.add_op(Op::Mul);
    let b = g.add_op(Op::SumReduce(2));
    assert!(g.contains(a));
    assert!(g.contains(b));
    assert_ne!(a, b);
    g.add_edge(a, b, 0, 0, ShapeTracker::new(vec![num(2), num(3)]));
    let outs = g.out_edges(a);
    assert_eq!(outs.len(), 1);
    assert_eq!(outs[0].dst, b);
    let ins = g.in_edges(b);
    assert_eq!(ins.len(), 1);
    assert_eq!(ins[0].src, a);
}

#[test]
fn remove_node_drops_incident_edges() {
    let mut g = Graph::new();
    let a = g.add_op(Op::Mul);
    let b = g.add_op(Op::Contiguous);
    g.add_edge(a, b, 0, 0, ShapeTracker::new(vec![num(2)]));
    g.remove_node(a);
    assert!(!g.contains(a));
    assert!(g.contains(b));
    assert_eq!(g.in_edges(b).len(), 0);
}

#[test]
fn get_sources_orders_by_slot() {
    let mut g = Graph::new();
    let x = g.add_op(Op::Contiguous);
    let y = g.add_op(Op::Contiguous);
    let m = g.add_op(Op::Mul);
    g.add_edge(y, m, 0, 1, ShapeTracker::new(vec![num(3)]));
    g.add_edge(x, m, 0, 0, ShapeTracker::new(vec![num(2)]));
    let srcs = g.get_sources(m);
    assert_eq!(srcs.len(), 2);
    assert_eq!(srcs[0].src, x);
    assert_eq!(srcs[0].input_idx, 0);
    assert_eq!(srcs[1].src, y);
    assert_eq!(srcs[1].input_idx, 1);
}

#[test]
fn has_input_matches_shapes_and_fakes() {
    let mut g = Graph::new();
    let x = g.add_op(Op::Contiguous);
    let m = g.add_op(Op::Mul);
    let mut sh = ShapeTracker::new(vec![num(1), num(5)]);
    sh.expand(1, num(9));
    // view is now [1, 9 (fake), 5]
    g.add_edge(x, m, 0, 0, sh);
    let dims = vec![DimPat::Exact(1), DimPat::Wild, DimPat::Wild];
    let fks = vec![None, Some(true), Some(false)];
    assert!(has_input_exec(&g, m, 0, &dims, &fks));
    // wrong slot
    assert!(!has_input_exec(&g, m, 1, &dims, &fks));
    // wrong flag pattern
    let fks2 = vec![None, Some(false), Some(false)];
    assert!(!has_input_exec(&g, m, 0, &dims, &fks2));
    // wrong constant
    let dims2 = vec![DimPat::Exact(2), DimPat::Wild, DimPat::Wild];
    assert!(!has_input_exec(&g, m, 0, &dims2, &fks));
}

#[test]
fn pin_and_retrieve_are_recorded() {
    let mut g = Graph::new();
    let a = g.add_op(Op::Mul);
    g.pin(a);
    g.mark_retrieve(a);
    assert_eq!(g.no_delete, vec![a]);
    assert_eq!(g.to_retrieve, vec![a]);
}
