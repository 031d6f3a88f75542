//! The matmul rewrite pass: lowering, pinning, contiguous insertion.

use luminal::executor::execute;
use luminal::expr::Expr;
use luminal::graph::{Graph, Op};
use luminal::hl::GraphTensor;
use luminal::matmul::MetalMatMulCompiler;
use luminal::select::{search, DimPat, OpPat, SelectOp};

fn num(n: usize) -> Expr {
    Expr::Num(n)
}

fn find_op<F: Fn(&Op) -> bool>(g: &Graph, f: F) -> Vec<usize> {
    let mut r = Vec::new();
    for id in g.node_ids() {
        if let Some(op) = g.op_of(id) {
            if f(&op) {
                r.push(id);
            }
        }
    }
    r
}

fn count_muls(g: &Graph) -> usize {
    find_op(g, |o| matches!(o, Op::Mul)).len()
}

/// `A in R^{1xK}` times `B^T` lowers to a matrix-vector kernel and the
/// compiled graph computes the same values as the primitive graph.
#[test]
fn matrix_vector_values() {
    let m: usize = 1;
    let k: usize = 53;
    let n: usize = 256;
    let av: Vec<i64> = (0..m * k).map(|i| (i as i64 % 13) - 6).collect();
    let bv: Vec<i64> = (0..n * k).map(|i| (i as i64 % 7) - 3).collect();
    // reference: c[j] = sum_t a[t] * b[j, t]
    let mut expect = vec![0i64; n];
    for j in 0..n {
        for t in 0..k {
            expect[j] += av[t] * bv[j * k + t];
        }
    }

    let mut g = Graph::new();
    let a = g.named_tensor("Vec", vec![num(m), num(k)]);
    let a = a.set(av.clone(), &mut g);
    let b = g.named_tensor("Mat", vec![num(n), num(k)]);
    let b = b.set(bv.clone(), &mut g);
    let bt = b.transpose(&g);
    let c = a.matmul(bt, &mut g);
    let c = c.retrieve(&mut g);

    let before = execute(&g).unwrap();
    assert_eq!(before.get(c.id).unwrap().as_slice(), expect.as_slice());

    let comp = MetalMatMulCompiler::default();
    let mut handles = vec![c.id];
    comp.compile(&mut g, &mut handles);
    let cid = handles[0];

    // the idiom was lowered: no multiply is left, a kernel node exists
    assert_eq!(count_muls(&g), 0);
    let kernels = find_op(&g, |o| {
        matches!(o, Op::MatVec(_) | Op::MatVec1Row(_) | Op::Matmul(_))
    });
    assert_eq!(kernels.len(), 1);

    let after = execute(&g).unwrap();
    assert_eq!(after.get(cid).unwrap().as_slice(), expect.as_slice());
}

/// A batched vector against a matrix takes the batched path and keeps
/// its values through compilation.
#[test]
fn batch_matrix_vector_values() {
    let k: usize = 256;
    let n: usize = 256;
    let av: Vec<i64> = (0..k).map(|i| (i as i64 % 11) - 5).collect();
    let bv: Vec<i64> = (0..k * n).map(|i| (i as i64 % 5) - 2).collect();
    // reference: c[j] = sum_t a[t] * b[t, j]
    let mut expect = vec![0i64; n];
    for j in 0..n {
        for t in 0..k {
            expect[j] += av[t] * bv[t * n + j];
        }
    }

    let mut g = Graph::new();
    let a = g.named_tensor("Vec", vec![num(1), num(1), num(k)]);
    let a = a.set(av.clone(), &mut g);
    let b = g.named_tensor("Mat", vec![num(k), num(n)]);
    let b = b.set(bv.clone(), &mut g);
    let c = a.matmul_batched(b, &mut g);
    let c = c.retrieve(&mut g);

    let before = execute(&g).unwrap();
    assert_eq!(before.get(c.id).unwrap().as_slice(), expect.as_slice());

    let comp = MetalMatMulCompiler::default();
    let mut handles = vec![c.id];
    comp.compile(&mut g, &mut handles);
    let cid = handles[0];

    assert_eq!(count_muls(&g), 0);
    let after = execute(&g).unwrap();
    assert_eq!(after.get(cid).unwrap().as_slice(), expect.as_slice());
}

/// A full matrix product lowers to the matrix-matrix kernel with the
/// same values.
#[test]
fn matrix_matrix_values() {
    let m: usize = 4;
    let k: usize = 5;
    let n: usize = 6;
    let av: Vec<i64> = (0..m * k).map(|i| (i as i64 % 9) - 4).collect();
    let bv: Vec<i64> = (0..k * n).map(|i| (i as i64 % 8) - 3).collect();
    let mut expect = vec![0i64; m * n];
    for r in 0..m {
        for c in 0..n {
            for t in 0..k {
                expect[r * n + c] += av[r * k + t] * bv[t * n + c];
            }
        }
    }

    let mut g = Graph::new();
    let a = g.tensor(vec![num(m), num(k)]).set(av.clone(), &mut g);
    let b = g.tensor(vec![num(k), num(n)]).set(bv.clone(), &mut g);
    let c = a.matmul(b, &mut g).retrieve(&mut g);

    let before = execute(&g).unwrap();
    assert_eq!(before.get(c.id).unwrap().as_slice(), expect.as_slice());

    let comp = MetalMatMulCompiler::default();
    let mut handles = vec![c.id];
    comp.compile(&mut g, &mut handles);
    let cid = handles[0];

    assert_eq!(count_muls(&g), 0);
    assert_eq!(find_op(&g, |o| matches!(o, Op::Matmul(_))).len(), 1);

    let after = execute(&g).unwrap();
    assert_eq!(after.get(cid).unwrap().as_slice(), expect.as_slice());
}

/// Pinning the intermediate multiply keeps the idiom intact.
#[test]
fn pinned_mul_is_respected() {
    let mut g = Graph::new();
    let a = g.tensor(vec![num(4), num(5)]);
    let b = g.tensor(vec![num(5), num(6)]);
    let c = a.matmul(b, &mut g).retrieve(&mut g);
    let muls = find_op(&g, |o| matches!(o, Op::Mul));
    assert_eq!(muls.len(), 1);
    let mul_id = muls[0];
    g.pin(mul_id);

    let comp = MetalMatMulCompiler::default();
    let mut handles = vec![c.id];
    comp.compile(&mut g, &mut handles);

    // the idiom is still there, node for node and edge for edge
    assert!(g.contains(mul_id));
    assert!(g.contains(c.id));
    assert!(matches!(g.op_of(c.id), Some(Op::SumReduce(2))));
    assert!(g.out_edges(mul_id).iter().any(|e| e.dst == c.id));
    assert_eq!(find_op(&g, |o| matches!(o, Op::Matmul(_))).len(), 0);
}

/// A sliced second operand gets an explicit contiguous copy between it
/// and the emitted kernel.
#[test]
fn sliced_operand_gets_contiguous_copy() {
    let k: usize = 7;
    let n: usize = 5;
    let mut g = Graph::new();
    let a = g.tensor(vec![num(k)]);
    let mut b = g.tensor(vec![num(k), num(n)]);
    b.shape.slice(&vec![(num(0), num(4)), (num(0), num(n))]);
    let bid = b.id;
    let c = a.matvec(b, &mut g).retrieve(&mut g);

    let comp = MetalMatMulCompiler::default();
    let mut handles = vec![c.id];
    comp.compile(&mut g, &mut handles);

    assert_eq!(count_muls(&g), 0);
    let contigs = find_op(&g, |o| matches!(o, Op::Contiguous));
    assert_eq!(contigs.len(), 1);
    let cg = contigs[0];
    // the copy reads the sliced operand and feeds the kernel
    assert!(g.in_edges(cg).iter().any(|e| e.src == bid));
    let kernels = find_op(&g, |o| matches!(o, Op::MatVec(_) | Op::MatVec1Row(_)));
    assert_eq!(kernels.len(), 1);
    assert!(g.out_edges(cg).iter().any(|e| e.dst == kernels[0]));
}

/// Handles passed to compile keep naming a present node.
#[test]
fn handles_stay_valid() {
    let mut g = Graph::new();
    let a = g.tensor(vec![num(3), num(4)]);
    let b = g.tensor(vec![num(4), num(2)]);
    let c = a.matmul(b, &mut g).retrieve(&mut g);
    let comp = MetalMatMulCompiler::default();
    let mut handles = vec![c.id];
    comp.compile(&mut g, &mut handles);
    assert!(g.contains(handles[0]));
    // the old reduce node is gone, redirected through the remap table
    assert!(!g.contains(c.id));
    assert!(g.id_remap.iter().any(|&(from, to)| from == c.id && to == handles[0]));
}

/// The declarative selector finds the idiom before the pass and no
/// longer finds it afterwards.
#[test]
fn selector_sees_the_rewrite() {
    let mut g = Graph::new();
    let a = g.tensor(vec![num(4), num(5)]);
    let b = g.tensor(vec![num(5), num(6)]);
    let c = a.matmul(b, &mut g).retrieve(&mut g);

    let pattern = || {
        SelectOp::new()
            .ty(OpPat::Mul)
            .shapes(vec![
                vec![DimPat::Wild, DimPat::Wild, DimPat::Wild],
                vec![DimPat::Wild, DimPat::Wild, DimPat::Wild],
            ])
            .fakes(vec![
                vec![Some(false), Some(true), Some(false)],
                vec![Some(true), Some(false), Some(false)],
            ])
            .edge(SelectOp::new().ty(OpPat::SumReduce(2)))
    };
    let found = search(&g, &pattern());
    assert!(found.is_some());
    let (_mul, sr) = found.unwrap();
    assert_eq!(sr, c.id);

    let comp = MetalMatMulCompiler::default();
    let mut handles = vec![c.id];
    comp.compile(&mut g, &mut handles);
    assert!(search(&g, &pattern()).is_none());
}
