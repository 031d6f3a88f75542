//! The reference executor: generators, broadcasts, views, reductions.

use luminal::executor::{execute, ExecError};
use luminal::expr::Expr;
use luminal::graph::{Graph, Op};
use luminal::shape::ShapeTracker;

fn num(n: usize) -> Expr {
    Expr::Num(n)
}

/// An arange over a symbolic size plus a broadcast symbolic offset:
/// binding the symbols produces the shifted sequence.
#[test]
fn arange_plus_offset() {
    let mut g = Graph::new();
    g.set_dyn('S', 8);
    g.set_dyn('P', 5);
    let t = g.arange(Expr::Sym('S'));
    let o = g.sym_value('P');
    let o = o.expand(0, Expr::Sym('S'), &g);
    let o = o.squeeze(1, &g);
    let r = t.add(o, &mut g).retrieve(&mut g);
    let outs = execute(&g).unwrap();
    assert_eq!(
        outs.get(r.id).unwrap().as_slice(),
        &[5, 6, 7, 8, 9, 10, 11, 12]
    );
}

/// An unbound symbol aborts execution.
#[test]
fn unbound_symbol_fails() {
    let mut g = Graph::new();
    let t = g.arange(Expr::Sym('S'));
    let _r = t.retrieve(&mut g);
    assert_eq!(execute(&g).err(), Some(ExecError::SymbolUnbound));
}

/// A source node without data cannot be executed.
#[test]
fn missing_input_fails() {
    let mut g = Graph::new();
    let t = g.tensor(vec![num(3)]);
    let _t = t.retrieve(&mut g);
    assert_eq!(execute(&g).err(), Some(ExecError::MissingInput));
}

/// Materialising a permuted view reorders the elements; materialising
/// the materialised copy changes nothing more.
#[test]
fn contiguous_read_is_pure() {
    let mut g = Graph::new();
    let x = g.tensor(vec![num(2), num(3)]).set(vec![1, 2, 3, 4, 5, 6], &mut g);
    let xt = x.transpose(&g);
    let c1 = g.add_op(Op::Contiguous);
    g.add_edge(xt.id, c1, 0, 0, xt.shape);
    g.mark_retrieve(c1);
    let c2 = g.add_op(Op::Contiguous);
    g.add_edge(c1, c2, 0, 0, ShapeTracker::new(vec![num(3), num(2)]));
    g.mark_retrieve(c2);
    let outs = execute(&g).unwrap();
    assert_eq!(outs.get(c1).unwrap().as_slice(), &[1, 4, 2, 5, 3, 6]);
    assert_eq!(outs.get(c2).unwrap().as_slice(), &[1, 4, 2, 5, 3, 6]);
}

/// A sliced view reads only its window; a padded view reads zeros
/// around the data.
#[test]
fn slice_and_pad_reads() {
    let mut g = Graph::new();
    let x = g.tensor(vec![num(5)]).set(vec![10, 20, 30, 40, 50], &mut g);
    let mut sh = ShapeTracker::new(vec![num(5)]);
    sh.slice(&vec![(num(1), num(4))]);
    let c1 = g.add_op(Op::Contiguous);
    g.add_edge(x.id, c1, 0, 0, sh);
    g.mark_retrieve(c1);
    let mut sh2 = ShapeTracker::new(vec![num(5)]);
    sh2.pad(&vec![(num(1), num(2))]);
    let c2 = g.add_op(Op::Contiguous);
    g.add_edge(x.id, c2, 0, 0, sh2);
    g.mark_retrieve(c2);
    let outs = execute(&g).unwrap();
    assert_eq!(outs.get(c1).unwrap().as_slice(), &[20, 30, 40]);
    assert_eq!(
        outs.get(c2).unwrap().as_slice(),
        &[0, 10, 20, 30, 40, 50, 0, 0]
    );
}

/// Sum and max reductions over an axis.
#[test]
fn reductions() {
    let mut g = Graph::new();
    let x = g.tensor(vec![num(2), num(3)]).set(vec![1, 5, 2, 7, 0, -3], &mut g);
    let s0 = g.add_op(Op::SumReduce(1));
    g.add_edge(x.id, s0, 0, 0, ShapeTracker::new(vec![num(2), num(3)]));
    g.mark_retrieve(s0);
    let m0 = g.add_op(Op::MaxReduce(1));
    g.add_edge(x.id, m0, 0, 0, ShapeTracker::new(vec![num(2), num(3)]));
    g.mark_retrieve(m0);
    let outs = execute(&g).unwrap();
    assert_eq!(outs.get(s0).unwrap().as_slice(), &[8, 4]);
    assert_eq!(outs.get(m0).unwrap().as_slice(), &[5, 7]);
}

/// Transcendental primitives have no integer meaning here.
#[test]
fn unsupported_op_fails() {
    let mut g = Graph::new();
    let x = g.tensor(vec![num(2)]).set(vec![1, 2], &mut g);
    let e = g.add_op(Op::Exp);
    g.add_edge(x.id, e, 0, 0, ShapeTracker::new(vec![num(2)]));
    g.mark_retrieve(e);
    assert_eq!(execute(&g).err(), Some(ExecError::Unsupported));
}

/// A view beyond the backend's limits is rejected.
#[test]
fn oversized_view_fails() {
    let mut g = Graph::new();
    let x = g.tensor(vec![num(8000)]).set(vec![0; 1], &mut g);
    let c = g.add_op(Op::Contiguous);
    g.add_edge(x.id, c, 0, 0, ShapeTracker::new(vec![num(8000)]));
    g.mark_retrieve(c);
    assert_eq!(execute(&g).err(), Some(ExecError::Unsupported));
}
