//! High-level tensor building: typed cursors over the graph.
//!
//! A `GraphTensor` pairs a node id with the view its holder reads the
//! node's output through.  View operations change only the tracker;
//! arithmetic appends primitive nodes to the graph.  `matmul` desugars
//! into the canonical broadcast-multiply + sum-reduce idiom that the
//! kernel-lowering pass recognises: its contract states that the built
//! subgraph matches one of the recognised idioms rooted at the result.

use vstd::prelude::*;

use crate::expr::Expr;
use crate::graph::{Edge, FunctionKind, Graph, Op};
use crate::matmul::{is_bgemm_match, is_gemm_match, is_gemv_match};
use crate::shape::ShapeTracker;

verus! {

/// A builder cursor: a node of the graph together with the view its
/// holder reads that node's output through.
pub struct GraphTensor {
    /// The producing node.
    pub id: usize,
    /// The view over the node's output buffer.
    pub shape: ShapeTracker,
}

impl GraphTensor {
    /// The handle names a present node and carries a well-formed view.
    pub open spec fn valid_in(self, g: Graph) -> bool {
        &&& g.nodes().dom().contains(self.id)
        &&& self.shape.wf()
    }

    /// No axis of the view is a broadcast axis.
    pub open spec fn no_fake(self) -> bool {
        forall|k: int| 0 <= k < self.shape.rank() ==> !(#[trigger] self.shape.lview()[k]).fake
    }

    /// Marks the node so its buffer is kept for the caller after
    /// execution.
    pub fn retrieve(self, g: &mut Graph) -> (r: GraphTensor)
        requires
            old(g).wf(),
            self.valid_in(*old(g)),
        ensures
            final(g).wf(),
            r == self,
            r.valid_in(*final(g)),
            final(g).to_retrieve@ == old(g).to_retrieve@.push(self.id),
            final(g).nodes() == old(g).nodes(),
            final(g).edges() == old(g).edges(),
            final(g).no_delete@ == old(g).no_delete@,
            final(g).tensors@ == old(g).tensors@,
            final(g).dyn_map@ == old(g).dyn_map@,
    {
        g.mark_retrieve(self.id);
        self
    }

    /// Pins the node against removal by rewrite passes.
    pub fn keep(self, g: &mut Graph) -> (r: GraphTensor)
        requires
            old(g).wf(),
            self.valid_in(*old(g)),
        ensures
            final(g).wf(),
            r == self,
            r.valid_in(*final(g)),
            final(g).no_delete@ == old(g).no_delete@.push(self.id),
            final(g).nodes() == old(g).nodes(),
            final(g).edges() == old(g).edges(),
            final(g).to_retrieve@ == old(g).to_retrieve@,
    {
        g.pin(self.id);
        self
    }

    /// Attaches input data to the node.
    pub fn set(self, data: Vec<i64>, g: &mut Graph) -> (r: GraphTensor)
        requires
            old(g).wf(),
            self.valid_in(*old(g)),
        ensures
            final(g).wf(),
            r == self,
            r.valid_in(*final(g)),
            final(g).tensors@ == seq![(self.id, data)] + old(g).tensors@,
            final(g).nodes() == old(g).nodes(),
            final(g).edges() == old(g).edges(),
    {
        g.set_tensor(self.id, data);
        self
    }

    /// Swaps the two axes of a rank-two view; data does not move.
    pub fn transpose(self, g: &Graph) -> (r: GraphTensor)
        requires
            self.valid_in(*g),
            self.shape.rank() == 2,
        ensures
            r.valid_in(*g),
            r.id == self.id,
            r.shape.rank() == 2,
            r.shape.lview()[0] == self.shape.lview()[1],
            r.shape.lview()[1] == self.shape.lview()[0],
    {
        let mut s = self.shape;
        let mut axes: Vec<usize> = Vec::new();
        axes.push(1);
        axes.push(0);
        proof {
            assert(axes@[0] == 1usize && axes@[1] == 0usize);
            assert forall|p: int|
                0 <= p < axes@.len() implies #[trigger] crate::shape::contains_slot(
                axes@,
                p,
            ) by {
                if p == 0 {
                    assert(axes@[1] == 0usize);
                } else {
                    assert(axes@[0] == 1usize);
                }
            }
        }
        s.permute(&axes);
        GraphTensor { id: self.id, shape: s }
    }

    /// Inserts a broadcast axis of size `d` at position `i`; data does
    /// not move.
    pub fn expand(self, i: usize, d: Expr, g: &Graph) -> (r: GraphTensor)
        requires
            self.valid_in(*g),
            i <= self.shape.rank(),
        ensures
            r.valid_in(*g),
            r.id == self.id,
            r.shape.lview() =~= self.shape.lview().insert(
                i as int,
                crate::shape::fake_axis(d),
            ),
    {
        let mut s = self.shape;
        s.expand(i, d);
        GraphTensor { id: self.id, shape: s }
    }

    /// Drops a unit or broadcast axis; data does not move.
    pub fn squeeze(self, i: usize, g: &Graph) -> (r: GraphTensor)
        requires
            self.valid_in(*g),
            i < self.shape.rank(),
            self.shape.lview()[i as int].fake || self.shape.lview()[i as int].dim == Expr::Num(1),
        ensures
            r.valid_in(*g),
            r.id == self.id,
            r.shape.lview() =~= self.shape.lview().remove(i as int),
    {
        let mut s = self.shape;
        let ok = s.remove_dim(i);
        proof {
            assert(ok);
        }
        GraphTensor { id: self.id, shape: s }
    }

    /// Elementwise sum: appends exactly an `Add` node reading this
    /// operand at slot zero and the other at slot one, each through its
    /// own view; the result is a fresh contiguous cursor over this
    /// operand's logical extents.
    pub fn add(self, rhs: GraphTensor, g: &mut Graph) -> (r: GraphTensor)
        requires
            old(g).wf(),
            self.valid_in(*old(g)),
            rhs.valid_in(*old(g)),
            self.shape.rank() == rhs.shape.rank(),
        ensures
            final(g).wf(),
            r.valid_in(*final(g)),
            !old(g).nodes().dom().contains(r.id),
            final(g).nodes() == old(g).nodes().insert(r.id, Op::Add),
            final(g).edges() == old(g).edges().insert(
                (Edge { src: self.id, dst: r.id, src_out: 0, input_idx: 0, shape: self.shape }),
            ).insert(
                (Edge { src: rhs.id, dst: r.id, src_out: 0, input_idx: 1, shape: rhs.shape }),
            ),
            r.shape.rank() == self.shape.rank(),
            r.shape.is_contiguous_spec(),
            forall|k: int| 0 <= k < self.shape.rank() ==> #[trigger] r.shape.lview()[k]
                == crate::shape::default_axis(crate::shape::ext_expr(self.shape.lview()[k])),
            final(g).to_retrieve@ == old(g).to_retrieve@,
            final(g).no_delete@ == old(g).no_delete@,
            final(g).tensors@ == old(g).tensors@,
            final(g).dyn_map@ == old(g).dyn_map@,
    {
        let out_dims = self.shape.shape();
        let add = g.add_op(Op::Add);
        g.add_edge(self.id, add, 0, 0, self.shape);
        g.add_edge(rhs.id, add, 0, 1, rhs.shape);
        GraphTensor { id: add, shape: ShapeTracker::new(out_dims) }
    }

    /// Elementwise product: appends exactly a `Mul` node reading this
    /// operand at slot zero and the other at slot one, each through its
    /// own view; the result is a fresh contiguous cursor over this
    /// operand's logical extents.
    pub fn mul(self, rhs: GraphTensor, g: &mut Graph) -> (r: GraphTensor)
        requires
            old(g).wf(),
            self.valid_in(*old(g)),
            rhs.valid_in(*old(g)),
            self.shape.rank() == rhs.shape.rank(),
        ensures
            final(g).wf(),
            r.valid_in(*final(g)),
            !old(g).nodes().dom().contains(r.id),
            final(g).nodes() == old(g).nodes().insert(r.id, Op::Mul),
            final(g).edges() == old(g).edges().insert(
                (Edge { src: self.id, dst: r.id, src_out: 0, input_idx: 0, shape: self.shape }),
            ).insert(
                (Edge { src: rhs.id, dst: r.id, src_out: 0, input_idx: 1, shape: rhs.shape }),
            ),
            r.shape.rank() == self.shape.rank(),
            r.shape.is_contiguous_spec(),
            forall|k: int| 0 <= k < self.shape.rank() ==> #[trigger] r.shape.lview()[k]
                == crate::shape::default_axis(crate::shape::ext_expr(self.shape.lview()[k])),
            final(g).to_retrieve@ == old(g).to_retrieve@,
            final(g).no_delete@ == old(g).no_delete@,
            final(g).tensors@ == old(g).tensors@,
            final(g).dyn_map@ == old(g).dyn_map@,
    {
        let out_dims = self.shape.shape();
        let mul = g.add_op(Op::Mul);
        g.add_edge(self.id, mul, 0, 0, self.shape);
        g.add_edge(rhs.id, mul, 0, 1, rhs.shape);
        GraphTensor { id: mul, shape: ShapeTracker::new(out_dims) }
    }

    /// Appends exactly a sum-reduction node over logical axis `axis`,
    /// reading this operand at slot zero through its view; the result
    /// is a fresh contiguous cursor over the extents with that axis
    /// dropped.
    pub fn sum_reduce(self, axis: usize, g: &mut Graph) -> (r: GraphTensor)
        requires
            old(g).wf(),
            self.valid_in(*old(g)),
            axis < self.shape.rank(),
        ensures
            final(g).wf(),
            r.valid_in(*final(g)),
            !old(g).nodes().dom().contains(r.id),
            final(g).nodes() == old(g).nodes().insert(r.id, Op::SumReduce(axis)),
            final(g).edges() == old(g).edges().insert(
                (Edge { src: self.id, dst: r.id, src_out: 0, input_idx: 0, shape: self.shape }),
            ),
            r.shape.rank() == self.shape.rank() - 1,
            r.shape.is_contiguous_spec(),
            forall|k: int| 0 <= k < r.shape.rank() ==> #[trigger] r.shape.lview()[k]
                == crate::shape::default_axis(
                crate::shape::ext_expr(
                    self.shape.lview()[if k < axis {
                        k
                    } else {
                        k + 1
                    }],
                ),
            ),
            final(g).to_retrieve@ == old(g).to_retrieve@,
            final(g).no_delete@ == old(g).no_delete@,
            final(g).tensors@ == old(g).tensors@,
            final(g).dyn_map@ == old(g).dyn_map@,
    {
        let mut out_dims = self.shape.shape();
        let sr = g.add_op(Op::SumReduce(axis));
        g.add_edge(self.id, sr, 0, 0, self.shape);
        out_dims.remove(axis);
        GraphTensor { id: sr, shape: ShapeTracker::new(out_dims) }
    }

    /// Matrix product, desugared into the canonical idiom: the first
    /// operand gains a broadcast axis over the other's columns, the
    /// second is reoriented and broadcast over the first's rows, the
    /// two are multiplied elementwise and the contraction axis is
    /// sum-reduced.  The built subgraph is exactly a recognised
    /// matrix-matrix idiom rooted at the result.
    pub fn matmul(self, rhs: GraphTensor, g: &mut Graph) -> (r: GraphTensor)
        requires
            old(g).wf(),
            self.valid_in(*old(g)),
            rhs.valid_in(*old(g)),
            self.shape.rank() == 2,
            rhs.shape.rank() == 2,
            self.no_fake(),
            rhs.no_fake(),
        ensures
            final(g).wf(),
            r.valid_in(*final(g)),
            r.shape.rank() == 2,
            exists|m: usize| is_gemm_match(final(g).nodes(), final(g).edges(), m, r.id),
            forall|x: usize|
                #[trigger] old(g).nodes().dom().contains(x) ==> final(g).nodes().dom().contains(x),
            final(g).to_retrieve@ == old(g).to_retrieve@,
            final(g).no_delete@ == old(g).no_delete@,
            final(g).tensors@ == old(g).tensors@,
            final(g).dyn_map@ == old(g).dyn_map@,
    {
        let ghost aorig = self.shape.lview();
        let ghost borig = rhs.shape.lview();
        let a_exts = self.shape.shape();
        let b_exts = rhs.shape.shape();
        let m_e = a_exts[0].clone();
        let n_e = b_exts[1].clone();

        let mut a_sh = self.shape;
        a_sh.expand(1, n_e.clone());
        let mut b_sh = rhs.shape;
        let mut axes: Vec<usize> = Vec::new();
        axes.push(1);
        axes.push(0);
        proof {
            assert(axes@[0] == 1usize && axes@[1] == 0usize);
            assert forall|p: int|
                0 <= p < axes@.len() implies #[trigger] crate::shape::contains_slot(
                axes@,
                p,
            ) by {
                if p == 0 {
                    assert(axes@[1] == 0usize);
                } else {
                    assert(axes@[0] == 1usize);
                }
            }
        }
        b_sh.permute(&axes);
        b_sh.expand(0, m_e.clone());

        let ghost gne = n_e;
        let ghost gme = m_e;
        let ghost ga = a_sh;
        let ghost gb = b_sh;
        let mul = g.add_op(Op::Mul);
        g.add_edge(self.id, mul, 0, 0, a_sh);
        g.add_edge(rhs.id, mul, 0, 1, b_sh);
        let mut mul_dims: Vec<Expr> = Vec::new();
        mul_dims.push(a_exts[0].clone());
        mul_dims.push(b_exts[1].clone());
        mul_dims.push(a_exts[1].clone());
        let msh = ShapeTracker::new(mul_dims);
        let ghost gms = msh;
        let sr = g.add_op(Op::SumReduce(2));
        g.add_edge(mul, sr, 0, 0, msh);
        let mut out_dims: Vec<Expr> = Vec::new();
        out_dims.push(a_exts[0].clone());
        out_dims.push(b_exts[1].clone());
        let out = ShapeTracker::new(out_dims);
        proof {
            assert(ga.lview() =~= aorig.insert(1, crate::shape::fake_axis(gne)));
            assert(!aorig[0].fake && !aorig[1].fake);
            assert(!borig[0].fake && !borig[1].fake);
            lemma_gemm_operand_a(ga.lview(), aorig, gne);
            assert(gb.lview().len() == 3);
            assert(gb.lview()[0] == crate::shape::fake_axis(gme));
            assert(gb.lview()[1] == borig[1]);
            assert(gb.lview()[2] == borig[0]);
            lemma_gemm_operand_b(gb.lview(), borig);
            assert(g.edges().contains(
                (Edge { src: self.id, dst: mul, src_out: 0usize, input_idx: 0usize, shape: ga }),
            ));
            assert(g.edges().contains(
                (Edge { src: rhs.id, dst: mul, src_out: 0usize, input_idx: 1usize, shape: gb }),
            ));
            assert(g.edges().contains(
                (Edge { src: mul, dst: sr, src_out: 0usize, input_idx: 0usize, shape: gms }),
            ));
            lemma_built_idiom(*g, mul, sr, ga.lview(), gb.lview());
        }
        GraphTensor { id: sr, shape: out }
    }

    /// Vector-matrix product: the vector is lifted to a single
    /// broadcast row, multiplied against the reoriented matrix and
    /// contracted; the result is the bare output vector.  The built
    /// subgraph is exactly the recognised matrix-vector idiom.
    pub fn matvec(self, rhs: GraphTensor, g: &mut Graph) -> (r: GraphTensor)
        requires
            old(g).wf(),
            self.valid_in(*old(g)),
            rhs.valid_in(*old(g)),
            self.shape.rank() == 1,
            rhs.shape.rank() == 2,
            self.no_fake(),
            rhs.no_fake(),
        ensures
            final(g).wf(),
            r.valid_in(*final(g)),
            r.shape.rank() == 1,
            exists|m: usize| is_gemv_match(final(g).nodes(), final(g).edges(), m, r.id),
            forall|x: usize|
                #[trigger] old(g).nodes().dom().contains(x) ==> final(g).nodes().dom().contains(x),
            final(g).to_retrieve@ == old(g).to_retrieve@,
            final(g).no_delete@ == old(g).no_delete@,
            final(g).tensors@ == old(g).tensors@,
            final(g).dyn_map@ == old(g).dyn_map@,
    {
        let ghost aorig = self.shape.lview();
        let ghost borig = rhs.shape.lview();
        let a_exts = self.shape.shape();
        let b_exts = rhs.shape.shape();
        let n_e = b_exts[1].clone();

        let mut a_sh = self.shape;
        a_sh.expand(0, Expr::Num(1));
        let ghost amid = a_sh.lview();
        a_sh.expand(1, n_e.clone());
        let mut b_sh = rhs.shape;
        let mut axes: Vec<usize> = Vec::new();
        axes.push(1);
        axes.push(0);
        proof {
            assert(axes@[0] == 1usize && axes@[1] == 0usize);
            assert forall|p: int|
                0 <= p < axes@.len() implies #[trigger] crate::shape::contains_slot(
                axes@,
                p,
            ) by {
                if p == 0 {
                    assert(axes@[1] == 0usize);
                } else {
                    assert(axes@[0] == 1usize);
                }
            }
        }
        b_sh.permute(&axes);
        b_sh.expand(0, Expr::Num(1));

        let ghost gne = n_e;
        let ghost ga = a_sh;
        let ghost gb = b_sh;
        let mul = g.add_op(Op::Mul);
        g.add_edge(self.id, mul, 0, 0, a_sh);
        g.add_edge(rhs.id, mul, 0, 1, b_sh);
        let mut mul_dims: Vec<Expr> = Vec::new();
        mul_dims.push(Expr::Num(1));
        mul_dims.push(b_exts[1].clone());
        mul_dims.push(a_exts[0].clone());
        let msh = ShapeTracker::new(mul_dims);
        let ghost gms = msh;
        let sr = g.add_op(Op::SumReduce(2));
        g.add_edge(mul, sr, 0, 0, msh);
        let mut out_dims: Vec<Expr> = Vec::new();
        out_dims.push(Expr::Num(1));
        out_dims.push(b_exts[1].clone());
        let mut out = ShapeTracker::new(out_dims);
        let ok = out.remove_dim(0);
        proof {
            assert(ok);
            assert(ga.lview() =~= amid.insert(1, crate::shape::fake_axis(gne)));
            assert(amid =~= aorig.insert(0, crate::shape::fake_axis(Expr::Num(1))));
            assert(ga.lview().len() == 3);
            assert(ga.lview()[0] == crate::shape::fake_axis(Expr::Num(1)));
            assert(ga.lview()[1] == crate::shape::fake_axis(gne));
            assert(ga.lview()[2] == aorig[0]);
            assert(!aorig[0].fake);
            lemma_gemv_operand_a(ga.lview(), aorig, gne);
            assert(!borig[0].fake && !borig[1].fake);
            assert(gb.lview().len() == 3);
            assert(gb.lview()[0] == crate::shape::fake_axis(Expr::Num(1)));
            assert(gb.lview()[1] == borig[1]);
            assert(gb.lview()[2] == borig[0]);
            lemma_gemv_operand_b(gb.lview(), borig);
            assert(g.edges().contains(
                (Edge { src: self.id, dst: mul, src_out: 0usize, input_idx: 0usize, shape: ga }),
            ));
            assert(g.edges().contains(
                (Edge { src: rhs.id, dst: mul, src_out: 0usize, input_idx: 1usize, shape: gb }),
            ));
            assert(g.edges().contains(
                (Edge { src: mul, dst: sr, src_out: 0usize, input_idx: 0usize, shape: gms }),
            ));
            lemma_built_gemv_idiom(*g, mul, sr, ga.lview(), gb.lview());
        }
        GraphTensor { id: sr, shape: out }
    }

    /// Batched matrix product of a rank-three operand with a matrix:
    /// both leading axes are carried as batch axes; the built subgraph
    /// is exactly the recognised batched matrix-matrix idiom.
    pub fn matmul_batched(self, rhs: GraphTensor, g: &mut Graph) -> (r: GraphTensor)
        requires
            old(g).wf(),
            self.valid_in(*old(g)),
            rhs.valid_in(*old(g)),
            self.shape.rank() == 3,
            rhs.shape.rank() == 2,
            self.no_fake(),
            rhs.no_fake(),
        ensures
            final(g).wf(),
            r.valid_in(*final(g)),
            r.shape.rank() == 3,
            exists|m: usize| is_bgemm_match(final(g).nodes(), final(g).edges(), m, r.id),
            forall|x: usize|
                #[trigger] old(g).nodes().dom().contains(x) ==> final(g).nodes().dom().contains(x),
            final(g).to_retrieve@ == old(g).to_retrieve@,
            final(g).no_delete@ == old(g).no_delete@,
            final(g).tensors@ == old(g).tensors@,
            final(g).dyn_map@ == old(g).dyn_map@,
    {
        let ghost aorig = self.shape.lview();
        let ghost borig = rhs.shape.lview();
        let a_exts = self.shape.shape();
        let b_exts = rhs.shape.shape();
        let n_e = b_exts[1].clone();

        let mut a_sh = self.shape;
        a_sh.expand(2, n_e.clone());
        let mut b_sh = rhs.shape;
        let mut axes: Vec<usize> = Vec::new();
        axes.push(1);
        axes.push(0);
        proof {
            assert(axes@[0] == 1usize && axes@[1] == 0usize);
            assert forall|p: int|
                0 <= p < axes@.len() implies #[trigger] crate::shape::contains_slot(
                axes@,
                p,
            ) by {
                if p == 0 {
                    assert(axes@[1] == 0usize);
                } else {
                    assert(axes@[0] == 1usize);
                }
            }
        }
        b_sh.permute(&axes);
        let ghost bmid = b_sh.lview();
        b_sh.expand(0, a_exts[1].clone());
        let ghost bmid2 = b_sh.lview();
        b_sh.expand(0, a_exts[0].clone());

        let ghost gne = n_e;
        let ghost ga = a_sh;
        let ghost gb = b_sh;
        let mul = g.add_op(Op::Mul);
        g.add_edge(self.id, mul, 0, 0, a_sh);
        g.add_edge(rhs.id, mul, 0, 1, b_sh);
        let mut mul_dims: Vec<Expr> = Vec::new();
        mul_dims.push(a_exts[0].clone());
        mul_dims.push(a_exts[1].clone());
        mul_dims.push(b_exts[1].clone());
        mul_dims.push(a_exts[2].clone());
        let msh = ShapeTracker::new(mul_dims);
        let ghost gms = msh;
        let sr = g.add_op(Op::SumReduce(3));
        g.add_edge(mul, sr, 0, 0, msh);
        let mut out_dims: Vec<Expr> = Vec::new();
        out_dims.push(a_exts[0].clone());
        out_dims.push(a_exts[1].clone());
        out_dims.push(b_exts[1].clone());
        let out = ShapeTracker::new(out_dims);
        proof {
            assert(ga.lview() =~= aorig.insert(2, crate::shape::fake_axis(gne)));
            assert(ga.lview().len() == 4);
            assert(ga.lview()[0] == aorig[0]);
            assert(ga.lview()[1] == aorig[1]);
            assert(ga.lview()[2] == crate::shape::fake_axis(gne));
            assert(ga.lview()[3] == aorig[2]);
            assert(!aorig[0].fake && !aorig[1].fake && !aorig[2].fake);
            lemma_bgemm_operand_a(ga.lview(), aorig, gne);
            assert(!borig[0].fake && !borig[1].fake);
            assert(bmid.len() == 2 && bmid[0] == borig[1] && bmid[1] == borig[0]);
            assert(gb.lview().len() == 4);
            assert(gb.lview()[0].fake);
            assert(gb.lview()[1].fake);
            assert(gb.lview()[2] == borig[1]);
            assert(gb.lview()[3] == borig[0]);
            lemma_bgemm_operand_b(gb.lview(), borig);
            assert(g.edges().contains(
                (Edge { src: self.id, dst: mul, src_out: 0usize, input_idx: 0usize, shape: ga }),
            ));
            assert(g.edges().contains(
                (Edge { src: rhs.id, dst: mul, src_out: 0usize, input_idx: 1usize, shape: gb }),
            ));
            assert(g.edges().contains(
                (Edge { src: mul, dst: sr, src_out: 0usize, input_idx: 0usize, shape: gms }),
            ));
            lemma_built_bgemm_idiom(*g, mul, sr, ga.lview(), gb.lview());
        }
        GraphTensor { id: sr, shape: out }
    }
}

/// The first operand's view after the broadcast: it fits the
/// matrix-matrix pattern for operand `a`.
proof fn lemma_gemm_operand_a(
    asv: Seq<crate::shape::AxisView>,
    orig: Seq<crate::shape::AxisView>,
    d: Expr,
)
    requires
        orig.len() == 2,
        !orig[0].fake,
        !orig[1].fake,
        asv == orig.insert(1, crate::shape::fake_axis(d)),
    ensures
        crate::select::input_matches(
            asv,
            crate::matmul::gemm_a_dims(),
            crate::matmul::gemm_a_fakes(),
        ),
{
    assert(asv.len() == 3);
    assert(asv[0] == orig[0]);
    assert(asv[1] == crate::shape::fake_axis(d));
    assert(asv[2] == orig[1]);
}

/// The second operand's view after reorientation and broadcast: it
/// fits the matrix-matrix pattern for operand `b`.
proof fn lemma_gemm_operand_b(bsv: Seq<crate::shape::AxisView>, orig: Seq<crate::shape::AxisView>)
    requires
        orig.len() == 2,
        !orig[0].fake,
        !orig[1].fake,
        bsv.len() == 3,
        bsv[0].fake,
        bsv[1] == orig[1],
        bsv[2] == orig[0],
    ensures
        crate::select::input_matches(
            bsv,
            crate::matmul::gemm_b_dims(),
            crate::matmul::gemm_b_fakes(),
        ),
{
}


/// The lifted vector's view fits the matrix-vector pattern for
/// operand `a`.
proof fn lemma_gemv_operand_a(
    asv: Seq<crate::shape::AxisView>,
    orig: Seq<crate::shape::AxisView>,
    d: Expr,
)
    requires
        orig.len() == 1,
        !orig[0].fake,
        asv.len() == 3,
        asv[0] == crate::shape::fake_axis(Expr::Num(1)),
        asv[1] == crate::shape::fake_axis(d),
        asv[2] == orig[0],
    ensures
        crate::select::input_matches(
            asv,
            crate::matmul::gemv_a_dims(),
            crate::matmul::gemv_a_fakes(),
        ),
{
}

/// The reoriented matrix's view fits the matrix-vector pattern for
/// operand `b`.
proof fn lemma_gemv_operand_b(bsv: Seq<crate::shape::AxisView>, orig: Seq<crate::shape::AxisView>)
    requires
        orig.len() == 2,
        !orig[0].fake,
        !orig[1].fake,
        bsv.len() == 3,
        bsv[0] == crate::shape::fake_axis(Expr::Num(1)),
        bsv[1] == orig[1],
        bsv[2] == orig[0],
    ensures
        crate::select::input_matches(
            bsv,
            crate::matmul::gemv_b_dims(),
            crate::matmul::gemv_b_fakes(),
        ),
{
}

/// The batched first operand's view fits the batched matrix-matrix
/// pattern for operand `a`.
proof fn lemma_bgemm_operand_a(
    asv: Seq<crate::shape::AxisView>,
    orig: Seq<crate::shape::AxisView>,
    d: Expr,
)
    requires
        orig.len() == 3,
        !orig[0].fake,
        !orig[1].fake,
        !orig[2].fake,
        asv.len() == 4,
        asv[0] == orig[0],
        asv[1] == orig[1],
        asv[2] == crate::shape::fake_axis(d),
        asv[3] == orig[2],
    ensures
        crate::select::input_matches(
            asv,
            crate::matmul::bgemm_a_dims(),
            crate::matmul::bgemm_a_fakes(),
        ),
{
}

/// The reoriented, doubly broadcast matrix's view fits the batched
/// matrix-matrix pattern for operand `b`.
proof fn lemma_bgemm_operand_b(bsv: Seq<crate::shape::AxisView>, orig: Seq<crate::shape::AxisView>)
    requires
        orig.len() == 2,
        !orig[0].fake,
        !orig[1].fake,
        bsv.len() == 4,
        bsv[0].fake,
        bsv[1].fake,
        bsv[2] == orig[1],
        bsv[3] == orig[0],
    ensures
        crate::select::input_matches(
            bsv,
            crate::matmul::bgemm_b_dims(),
            crate::matmul::bgemm_b_fakes(),
        ),
{
}

/// After appending the multiply and its edges, the pair forms the
/// matrix-vector idiom.
proof fn lemma_built_gemv_idiom(
    g: Graph,
    mul: usize,
    sr: usize,
    asv: Seq<crate::shape::AxisView>,
    bsv: Seq<crate::shape::AxisView>,
)
    requires
        g.nodes().dom().contains(mul),
        g.nodes()[mul] is Mul,
        g.nodes().dom().contains(sr),
        g.nodes()[sr] == Op::SumReduce(2),
        exists|e: Edge| #[trigger] g.edges().contains(e) && e.src == mul && e.dst == sr,
        exists|e: Edge|
            #[trigger] g.edges().contains(e) && e.dst == mul && e.input_idx == 0usize
                && e.shape.wf() && e.shape.lview() == asv,
        exists|e: Edge|
            #[trigger] g.edges().contains(e) && e.dst == mul && e.input_idx == 1usize
                && e.shape.wf() && e.shape.lview() == bsv,
        crate::select::input_matches(asv, crate::matmul::gemv_a_dims(), crate::matmul::gemv_a_fakes()),
        crate::select::input_matches(bsv, crate::matmul::gemv_b_dims(), crate::matmul::gemv_b_fakes()),
    ensures
        is_gemv_match(g.nodes(), g.edges(), mul, sr),
{
    let ea = choose|e: Edge|
        #[trigger] g.edges().contains(e) && e.dst == mul && e.input_idx == 0usize && e.shape.wf()
            && e.shape.lview() == asv;
    assert(crate::select::has_input(
        g.edges(),
        mul,
        0,
        crate::matmul::gemv_a_dims(),
        crate::matmul::gemv_a_fakes(),
    ));
    let eb = choose|e: Edge|
        #[trigger] g.edges().contains(e) && e.dst == mul && e.input_idx == 1usize && e.shape.wf()
            && e.shape.lview() == bsv;
    assert(crate::select::has_input(
        g.edges(),
        mul,
        1,
        crate::matmul::gemv_b_dims(),
        crate::matmul::gemv_b_fakes(),
    ));
}

/// After appending the multiply and its edges, the pair forms the
/// batched matrix-matrix idiom.
proof fn lemma_built_bgemm_idiom(
    g: Graph,
    mul: usize,
    sr: usize,
    asv: Seq<crate::shape::AxisView>,
    bsv: Seq<crate::shape::AxisView>,
)
    requires
        g.nodes().dom().contains(mul),
        g.nodes()[mul] is Mul,
        g.nodes().dom().contains(sr),
        g.nodes()[sr] == Op::SumReduce(3),
        exists|e: Edge| #[trigger] g.edges().contains(e) && e.src == mul && e.dst == sr,
        exists|e: Edge|
            #[trigger] g.edges().contains(e) && e.dst == mul && e.input_idx == 0usize
                && e.shape.wf() && e.shape.lview() == asv,
        exists|e: Edge|
            #[trigger] g.edges().contains(e) && e.dst == mul && e.input_idx == 1usize
                && e.shape.wf() && e.shape.lview() == bsv,
        crate::select::input_matches(asv, crate::matmul::bgemm_a_dims(), crate::matmul::bgemm_a_fakes()),
        crate::select::input_matches(bsv, crate::matmul::bgemm_b_dims(), crate::matmul::bgemm_b_fakes()),
    ensures
        is_bgemm_match(g.nodes(), g.edges(), mul, sr),
{
    let ea = choose|e: Edge|
        #[trigger] g.edges().contains(e) && e.dst == mul && e.input_idx == 0usize && e.shape.wf()
            && e.shape.lview() == asv;
    assert(crate::select::has_input(
        g.edges(),
        mul,
        0,
        crate::matmul::bgemm_a_dims(),
        crate::matmul::bgemm_a_fakes(),
    ));
    let eb = choose|e: Edge|
        #[trigger] g.edges().contains(e) && e.dst == mul && e.input_idx == 1usize && e.shape.wf()
            && e.shape.lview() == bsv;
    assert(crate::select::has_input(
        g.edges(),
        mul,
        1,
        crate::matmul::bgemm_b_dims(),
        crate::matmul::bgemm_b_fakes(),
    ));
}

/// After appending the multiply, its two input edges and the reduction
/// edge, the pair forms the matrix-matrix idiom.
proof fn lemma_built_idiom(
    g: Graph,
    mul: usize,
    sr: usize,
    asv: Seq<crate::shape::AxisView>,
    bsv: Seq<crate::shape::AxisView>,
)
    requires
        g.nodes().dom().contains(mul),
        g.nodes()[mul] is Mul,
        g.nodes().dom().contains(sr),
        g.nodes()[sr] == Op::SumReduce(2),
        exists|e: Edge|
            #[trigger] g.edges().contains(e) && e.src == mul && e.dst == sr,
        exists|e: Edge|
            #[trigger] g.edges().contains(e) && e.dst == mul && e.input_idx == 0usize
                && e.shape.wf() && e.shape.lview() == asv,
        exists|e: Edge|
            #[trigger] g.edges().contains(e) && e.dst == mul && e.input_idx == 1usize
                && e.shape.wf() && e.shape.lview() == bsv,
        crate::select::input_matches(asv, crate::matmul::gemm_a_dims(), crate::matmul::gemm_a_fakes()),
        crate::select::input_matches(bsv, crate::matmul::gemm_b_dims(), crate::matmul::gemm_b_fakes()),
    ensures
        is_gemm_match(g.nodes(), g.edges(), mul, sr),
{
    let ea = choose|e: Edge|
        #[trigger] g.edges().contains(e) && e.dst == mul && e.input_idx == 0usize && e.shape.wf()
            && e.shape.lview() == asv;
    assert(crate::select::has_input(
        g.edges(),
        mul,
        0,
        crate::matmul::gemm_a_dims(),
        crate::matmul::gemm_a_fakes(),
    ));
    let eb = choose|e: Edge|
        #[trigger] g.edges().contains(e) && e.dst == mul && e.input_idx == 1usize && e.shape.wf()
            && e.shape.lview() == bsv;
    assert(crate::select::has_input(
        g.edges(),
        mul,
        1,
        crate::matmul::gemm_b_dims(),
        crate::matmul::gemm_b_fakes(),
    ));
}

impl Graph {
    /// A fresh input tensor over the given dimensions; its data comes
    /// from `set` before execution.
    pub fn tensor(&mut self, dims: Vec<Expr>) -> (r: GraphTensor)
        requires
            old(self).wf(),
        ensures
            final(self).wf(),
            r.valid_in(*final(self)),
            !old(self).nodes().dom().contains(r.id),
            final(self).nodes() == old(self).nodes().insert(
                r.id,
                Op::Function(FunctionKind::Load),
            ),
            r.shape.rank() == dims@.len(),
            r.no_fake(),
            r.shape.is_contiguous_spec(),
            forall|k: int| 0 <= k < dims@.len() ==> #[trigger] r.shape.lview()[k]
                == crate::shape::default_axis(dims@[k]),
            final(self).edges() == old(self).edges(),
            final(self).to_retrieve@ == old(self).to_retrieve@,
            final(self).no_delete@ == old(self).no_delete@,
            final(self).tensors@ == old(self).tensors@,
            final(self).dyn_map@ == old(self).dyn_map@,
    {
        let shape = ShapeTracker::new(dims);
        let id = self.add_op(Op::Function(FunctionKind::Load));
        GraphTensor { id, shape }
    }

    /// A fresh named input tensor; the name is documentation only.
    pub fn named_tensor(&mut self, _name: &str, dims: Vec<Expr>) -> (r: GraphTensor)
        requires
            old(self).wf(),
        ensures
            final(self).wf(),
            r.valid_in(*final(self)),
            !old(self).nodes().dom().contains(r.id),
            final(self).nodes() == old(self).nodes().insert(
                r.id,
                Op::Function(FunctionKind::Load),
            ),
            r.shape.rank() == dims@.len(),
            r.no_fake(),
            r.shape.is_contiguous_spec(),
            forall|k: int| 0 <= k < dims@.len() ==> #[trigger] r.shape.lview()[k]
                == crate::shape::default_axis(dims@[k]),
            final(self).edges() == old(self).edges(),
            final(self).to_retrieve@ == old(self).to_retrieve@,
            final(self).no_delete@ == old(self).no_delete@,
            final(self).tensors@ == old(self).tensors@,
            final(self).dyn_map@ == old(self).dyn_map@,
    {
        self.tensor(dims)
    }

    /// A generator node producing `0, 1, .., n-1` where `n` is the
    /// runtime value of `dim`.
    pub fn arange(&mut self, dim: Expr) -> (r: GraphTensor)
        requires
            old(self).wf(),
        ensures
            final(self).wf(),
            r.valid_in(*final(self)),
            !old(self).nodes().dom().contains(r.id),
            final(self).nodes() == old(self).nodes().insert(
                r.id,
                Op::Function(FunctionKind::Arange(dim)),
            ),
            r.shape.rank() == 1,
            r.no_fake(),
            r.shape.lview()[0] == crate::shape::default_axis(dim),
            final(self).edges() == old(self).edges(),
            final(self).to_retrieve@ == old(self).to_retrieve@,
            final(self).no_delete@ == old(self).no_delete@,
            final(self).tensors@ == old(self).tensors@,
            final(self).dyn_map@ == old(self).dyn_map@,
    {
        let mut dims: Vec<Expr> = Vec::new();
        dims.push(dim.clone());
        let shape = ShapeTracker::new(dims);
        let id = self.add_op(Op::Function(FunctionKind::Arange(dim)));
        GraphTensor { id, shape }
    }

    /// A generator node producing the runtime value of the named
    /// symbol, as a single-element tensor.
    pub fn sym_value(&mut self, c: char) -> (r: GraphTensor)
        requires
            old(self).wf(),
        ensures
            final(self).wf(),
            r.valid_in(*final(self)),
            !old(self).nodes().dom().contains(r.id),
            final(self).nodes() == old(self).nodes().insert(
                r.id,
                Op::Function(FunctionKind::SymValue(c)),
            ),
            r.shape.rank() == 1,
            r.shape.lview()[0] == crate::shape::default_axis(Expr::Num(1)),
            final(self).edges() == old(self).edges(),
            final(self).to_retrieve@ == old(self).to_retrieve@,
            final(self).no_delete@ == old(self).no_delete@,
            final(self).tensors@ == old(self).tensors@,
            final(self).dyn_map@ == old(self).dyn_map@,
    {
        let mut dims: Vec<Expr> = Vec::new();
        dims.push(Expr::Num(1));
        let shape = ShapeTracker::new(dims);
        let id = self.add_op(Op::Function(FunctionKind::SymValue(c)));
        GraphTensor { id, shape }
    }
}

} // verus!
