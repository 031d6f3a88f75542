//! Matrix-multiply kernel nodes and the rewrite pass that emits them.
//!
//! The pass recognises the broadcast-multiply + sum-reduce idiom that
//! the high-level `matmul` builder produces and replaces each match by
//! a dedicated kernel node: a strided matrix-vector kernel, a tiled
//! matrix-vector kernel, or a tiled matrix-matrix kernel, chosen by the
//! contiguity of the operands.  Operands that are sliced or padded, or
//! whose batch axis is not leading, first get an explicit `Contiguous`
//! copy.

use vstd::multiset::Multiset;
use vstd::prelude::*;

use crate::expr::Expr;
use crate::graph::{ids_present, retarget, Edge, Graph, Op};
use crate::select::{has_input, input_matches, DimPat};
use crate::shape::ShapeTracker;
use crate::F16_BYTES;

verus! {

broadcast use vstd::seq_lib::group_to_multiset_ensures;

/// Matrix-vector kernel that tolerates a strided (non-contiguous)
/// matrix operand, reducing each row in one simd group.
#[derive(Clone, Copy)]
pub struct MatVec1Row {
}

/// Tiled matrix-vector kernel; `transposed` selects the variant of the
/// kernel family that expects the matrix transposed in memory.
#[derive(Clone, Copy)]
pub struct MatVec {
    /// Which member of the kernel family the node dispatches.
    pub transposed: bool,
}

/// Tiled, optionally batched matrix-matrix kernel; each flag selects
/// the transposed variant for the corresponding operand.
#[derive(Clone, Copy)]
pub struct Matmul {
    /// The first operand is not contiguous in memory.
    pub a_transposed: bool,
    /// The second operand is not contiguous in memory.
    pub b_transposed: bool,
}

impl MatVec1Row {
    /// Output size in bytes: the matrix operand's second logical extent,
    /// one half-precision scalar per element.
    pub fn output_buffer_sizes(&self, input_shapes: &Vec<ShapeTracker>) -> (r: Vec<Expr>)
        requires
            input_shapes@.len() >= 2,
            input_shapes@[1].wf(),
            input_shapes@[1].rank() >= 2,
        ensures
            r@.len() == 1,
            r@[0] == Expr::Mul(
                Box::new(crate::shape::ext_expr(input_shapes@[1].lview()[1])),
                Box::new(Expr::Num(F16_BYTES)),
            ),
    {
        let s = input_shapes[1].shape();
        let n = s[1].clone();
        let mut r: Vec<Expr> = Vec::new();
        r.push(Expr::Mul(Box::new(n), Box::new(Expr::Num(F16_BYTES))));
        r
    }
}

impl MatVec {
    /// Output size in bytes: the matrix operand's second logical extent,
    /// one half-precision scalar per element.
    pub fn output_buffer_sizes(&self, input_shapes: &Vec<ShapeTracker>) -> (r: Vec<Expr>)
        requires
            input_shapes@.len() >= 2,
            input_shapes@[1].wf(),
            input_shapes@[1].rank() >= 2,
        ensures
            r@.len() == 1,
            r@[0] == Expr::Mul(
                Box::new(crate::shape::ext_expr(input_shapes@[1].lview()[1])),
                Box::new(Expr::Num(F16_BYTES)),
            ),
    {
        let s = input_shapes[1].shape();
        let n = s[1].clone();
        let mut r: Vec<Expr> = Vec::new();
        r.push(Expr::Mul(Box::new(n), Box::new(Expr::Num(F16_BYTES))));
        r
    }
}

impl Matmul {
    /// Output size in bytes: `batch * m * n` half-precision scalars,
    /// where `n` comes from the second operand and `batch` and `m` from
    /// the first, a three-axis first operand carrying a leading batch.
    pub fn output_buffer_sizes(&self, input_shapes: &Vec<ShapeTracker>) -> (r: Vec<Expr>)
        requires
            input_shapes@.len() >= 2,
            input_shapes@[0].wf(),
            input_shapes@[1].wf(),
            input_shapes@[0].rank() >= 2,
            input_shapes@[1].rank() >= 2,
        ensures
            r@.len() == 1,
            ({
                let n = crate::shape::ext_expr(input_shapes@[1].lview()[1]);
                let batch = if input_shapes@[0].rank() == 3 {
                    crate::shape::ext_expr(input_shapes@[0].lview()[0])
                } else {
                    Expr::Num(1)
                };
                let m = if input_shapes@[0].rank() == 3 {
                    crate::shape::ext_expr(input_shapes@[0].lview()[1])
                } else {
                    crate::shape::ext_expr(input_shapes@[0].lview()[0])
                };
                r@[0] == Expr::Mul(
                    Box::new(
                        Expr::Mul(Box::new(Expr::Mul(Box::new(m), Box::new(n))), Box::new(batch)),
                    ),
                    Box::new(Expr::Num(F16_BYTES)),
                )
            }),
    {
        let s1 = input_shapes[1].shape();
        let n = s1[1].clone();
        let s0 = input_shapes[0].shape();
        let (batch, m) = if input_shapes[0].len() == 3 {
            (s0[0].clone(), s0[1].clone())
        } else {
            (Expr::Num(1), s0[0].clone())
        };
        let mut r: Vec<Expr> = Vec::new();
        r.push(
            Expr::Mul(
                Box::new(Expr::Mul(Box::new(Expr::Mul(Box::new(m), Box::new(n))), Box::new(batch))),
                Box::new(Expr::Num(F16_BYTES)),
            ),
        );
        r
    }
}


/// Which of the four recognised idioms matched.
#[derive(Clone, Copy)]
pub enum IdiomKind {
    /// Matrix-vector: rank-three operands reduced over axis 2.
    Gemv,
    /// Batched matrix-vector: rank-four operands reduced over axis 3.
    BGemv,
    /// Matrix-matrix: rank-three operands reduced over axis 2.
    Gemm,
    /// Batched matrix-matrix: rank-four operands reduced over axis 3.
    BGemm,
}

/// Shape pattern of the first matrix-vector operand.
pub open spec fn gemv_a_dims() -> Seq<DimPat> {
    seq![DimPat::Exact(1), DimPat::Wild, DimPat::Wild]
}

/// Flag pattern of the first matrix-vector operand.
pub open spec fn gemv_a_fakes() -> Seq<Option<bool>> {
    seq![None, Some(true), Some(false)]
}

/// Shape pattern of the second matrix-vector operand.
pub open spec fn gemv_b_dims() -> Seq<DimPat> {
    seq![DimPat::Exact(1), DimPat::Wild, DimPat::Wild]
}

/// Flag pattern of the second matrix-vector operand.
pub open spec fn gemv_b_fakes() -> Seq<Option<bool>> {
    seq![Some(true), Some(false), Some(false)]
}

/// Shape pattern of the first batched matrix-vector operand.
pub open spec fn bgemv_a_dims() -> Seq<DimPat> {
    seq![DimPat::Exact(1), DimPat::Exact(1), DimPat::Wild, DimPat::Wild]
}

/// Flag pattern of the first batched matrix-vector operand.
pub open spec fn bgemv_a_fakes() -> Seq<Option<bool>> {
    seq![None, None, Some(true), Some(false)]
}

/// Shape pattern of the second batched matrix-vector operand.
pub open spec fn bgemv_b_dims() -> Seq<DimPat> {
    seq![DimPat::Exact(1), DimPat::Exact(1), DimPat::Wild, DimPat::Wild]
}

/// Flag pattern of the second batched matrix-vector operand.
pub open spec fn bgemv_b_fakes() -> Seq<Option<bool>> {
    seq![None, Some(true), Some(false), Some(false)]
}

/// Shape pattern of the first matrix-matrix operand.
pub open spec fn gemm_a_dims() -> Seq<DimPat> {
    seq![DimPat::Wild, DimPat::Wild, DimPat::Wild]
}

/// Flag pattern of the first matrix-matrix operand.
pub open spec fn gemm_a_fakes() -> Seq<Option<bool>> {
    seq![Some(false), Some(true), Some(false)]
}

/// Shape pattern of the second matrix-matrix operand.
pub open spec fn gemm_b_dims() -> Seq<DimPat> {
    seq![DimPat::Wild, DimPat::Wild, DimPat::Wild]
}

/// Flag pattern of the second matrix-matrix operand.
pub open spec fn gemm_b_fakes() -> Seq<Option<bool>> {
    seq![Some(true), Some(false), Some(false)]
}

/// Shape pattern of the first batched matrix-matrix operand.
pub open spec fn bgemm_a_dims() -> Seq<DimPat> {
    seq![DimPat::Wild, DimPat::Wild, DimPat::Wild, DimPat::Wild]
}

/// Flag pattern of the first batched matrix-matrix operand.
pub open spec fn bgemm_a_fakes() -> Seq<Option<bool>> {
    seq![Some(false), Some(false), Some(true), Some(false)]
}

/// Shape pattern of the second batched matrix-matrix operand.
pub open spec fn bgemm_b_dims() -> Seq<DimPat> {
    seq![DimPat::Wild, DimPat::Wild, DimPat::Wild, DimPat::Wild]
}

/// Flag pattern of the second batched matrix-matrix operand.
pub open spec fn bgemm_b_fakes() -> Seq<Option<bool>> {
    seq![Some(true), Some(true), Some(false), Some(false)]
}

/// The common shape of all four idioms: a multiply node whose two
/// inputs fit the given patterns, feeding a sum-reduction over axis
/// `k`.
pub open spec fn idiom_match(
    nodes: Map<usize, Op>,
    edges: Multiset<Edge>,
    mul: usize,
    sr: usize,
    da: Seq<DimPat>,
    fa: Seq<Option<bool>>,
    db: Seq<DimPat>,
    fb: Seq<Option<bool>>,
    k: usize,
) -> bool {
    &&& nodes.dom().contains(mul) && nodes[mul] is Mul
    &&& nodes.dom().contains(sr) && nodes[sr] == Op::SumReduce(k)
    &&& exists|e: Edge| #[trigger] edges.contains(e) && e.src == mul && e.dst == sr
    &&& has_input(edges, mul, 0, da, fa)
    &&& has_input(edges, mul, 1, db, fb)
}

/// The matrix-vector idiom.
pub open spec fn is_gemv_match(
    nodes: Map<usize, Op>,
    edges: Multiset<Edge>,
    mul: usize,
    sr: usize,
) -> bool {
    idiom_match(nodes, edges, mul, sr, gemv_a_dims(), gemv_a_fakes(), gemv_b_dims(), gemv_b_fakes(), 2)
}

/// The batched matrix-vector idiom.
pub open spec fn is_bgemv_match(
    nodes: Map<usize, Op>,
    edges: Multiset<Edge>,
    mul: usize,
    sr: usize,
) -> bool {
    idiom_match(
        nodes,
        edges,
        mul,
        sr,
        bgemv_a_dims(),
        bgemv_a_fakes(),
        bgemv_b_dims(),
        bgemv_b_fakes(),
        3,
    )
}

/// The matrix-matrix idiom.
pub open spec fn is_gemm_match(
    nodes: Map<usize, Op>,
    edges: Multiset<Edge>,
    mul: usize,
    sr: usize,
) -> bool {
    idiom_match(nodes, edges, mul, sr, gemm_a_dims(), gemm_a_fakes(), gemm_b_dims(), gemm_b_fakes(), 2)
}

/// The batched matrix-matrix idiom.
pub open spec fn is_bgemm_match(
    nodes: Map<usize, Op>,
    edges: Multiset<Edge>,
    mul: usize,
    sr: usize,
) -> bool {
    idiom_match(
        nodes,
        edges,
        mul,
        sr,
        bgemm_a_dims(),
        bgemm_a_fakes(),
        bgemm_b_dims(),
        bgemm_b_fakes(),
        3,
    )
}

/// Any of the four idioms.
pub open spec fn is_matmul_idiom(
    nodes: Map<usize, Op>,
    edges: Multiset<Edge>,
    mul: usize,
    sr: usize,
) -> bool {
    ||| is_gemv_match(nodes, edges, mul, sr)
    ||| is_bgemv_match(nodes, edges, mul, sr)
    ||| is_gemm_match(nodes, edges, mul, sr)
    ||| is_bgemm_match(nodes, edges, mul, sr)
}

/// A rewrite step only adds helper nodes, reroutes the reduction's
/// consumers and removes the matched pair, so any idiom visible after
/// it was already visible before it, at a multiply other than the one
/// rewritten.
proof fn lemma_idiom_back(
    n0: Map<usize, Op>,
    e0: Multiset<Edge>,
    nf: Map<usize, Op>,
    ef: Multiset<Edge>,
    mul: usize,
    sr: usize,
    c1: usize,
    c2: usize,
    mv: usize,
    m: usize,
    s: usize,
    da: Seq<DimPat>,
    fa: Seq<Option<bool>>,
    db: Seq<DimPat>,
    fb: Seq<Option<bool>>,
    k: usize,
)
    requires
        !n0.dom().contains(c1),
        !n0.dom().contains(c2),
        !n0.dom().contains(mv),
        forall|x: usize| #[trigger] nf.dom().contains(x) ==> x != mul && x != sr,
        forall|x: usize|
            #[trigger] nf.dom().contains(x) && (nf[x] is Mul || nf[x] is SumReduce)
                ==> n0.dom().contains(x) && nf[x] == n0[x],
        forall|e: Edge|
            #[trigger] ef.contains(e) ==> e0.contains(e) || e.dst == c1 || e.dst == c2 || e.dst
                == mv || (e.src == mv && e0.contains(retarget(e, sr))),
        idiom_match(nf, ef, m, s, da, fa, db, fb, k),
    ensures
        idiom_match(n0, e0, m, s, da, fa, db, fb, k),
        m != mul,
{
    assert(nf.dom().contains(m) && nf[m] is Mul);
    assert(n0.dom().contains(m) && n0[m] == nf[m]);
    assert(nf.dom().contains(s) && nf[s] is SumReduce);
    assert(n0.dom().contains(s) && n0[s] == nf[s]);
    assert(m != c1 && m != c2 && m != mv);
    assert(s != c1 && s != c2 && s != mv);
    let ec = choose|e: Edge| #[trigger] ef.contains(e) && e.src == m && e.dst == s;
    assert(e0.contains(ec));
    let ea = choose|e: Edge|
        #[trigger] ef.contains(e) && e.dst == m && e.input_idx == 0usize && e.shape.wf()
            && input_matches(e.shape.lview(), da, fa);
    if !e0.contains(ea) {
        assert(ea.src == mv && e0.contains(retarget(ea, sr)));
        let r = retarget(ea, sr);
        assert(r.dst == m && r.input_idx == 0usize && r.shape == ea.shape);
        assert(has_input(e0, m, 0, da, fa));
    } else {
        assert(has_input(e0, m, 0, da, fa));
    }
    let eb = choose|e: Edge|
        #[trigger] ef.contains(e) && e.dst == m && e.input_idx == 1usize && e.shape.wf()
            && input_matches(e.shape.lview(), db, fb);
    if !e0.contains(eb) {
        assert(eb.src == mv && e0.contains(retarget(eb, sr)));
        let r = retarget(eb, sr);
        assert(r.dst == m && r.input_idx == 1usize && r.shape == eb.shape);
        assert(has_input(e0, m, 1, db, fb));
    } else {
        assert(has_input(e0, m, 1, db, fb));
    }
}


/// The four pattern vectors of one idiom, as runtime values.
fn idiom_pats(kind: IdiomKind) -> (r: (Vec<DimPat>, Vec<Option<bool>>, Vec<DimPat>, Vec<Option<bool>>))
    ensures
        match kind {
            IdiomKind::Gemv => r.0@ == gemv_a_dims() && r.1@ == gemv_a_fakes() && r.2@
                == gemv_b_dims() && r.3@ == gemv_b_fakes(),
            IdiomKind::BGemv => r.0@ == bgemv_a_dims() && r.1@ == bgemv_a_fakes() && r.2@
                == bgemv_b_dims() && r.3@ == bgemv_b_fakes(),
            IdiomKind::Gemm => r.0@ == gemm_a_dims() && r.1@ == gemm_a_fakes() && r.2@
                == gemm_b_dims() && r.3@ == gemm_b_fakes(),
            IdiomKind::BGemm => r.0@ == bgemm_a_dims() && r.1@ == bgemm_a_fakes() && r.2@
                == bgemm_b_dims() && r.3@ == bgemm_b_fakes(),
        },
{
    let mut da: Vec<DimPat> = Vec::new();
    let mut fa: Vec<Option<bool>> = Vec::new();
    let mut db: Vec<DimPat> = Vec::new();
    let mut fb: Vec<Option<bool>> = Vec::new();
    match kind {
        IdiomKind::Gemv => {
            da.push(DimPat::Exact(1));
            da.push(DimPat::Wild);
            da.push(DimPat::Wild);
            fa.push(None);
            fa.push(Some(true));
            fa.push(Some(false));
            db.push(DimPat::Exact(1));
            db.push(DimPat::Wild);
            db.push(DimPat::Wild);
            fb.push(Some(true));
            fb.push(Some(false));
            fb.push(Some(false));
            proof {
                assert(da@ =~= gemv_a_dims());
                assert(fa@ =~= gemv_a_fakes());
                assert(db@ =~= gemv_b_dims());
                assert(fb@ =~= gemv_b_fakes());
            }
        },
        IdiomKind::BGemv => {
            da.push(DimPat::Exact(1));
            da.push(DimPat::Exact(1));
            da.push(DimPat::Wild);
            da.push(DimPat::Wild);
            fa.push(None);
            fa.push(None);
            fa.push(Some(true));
            fa.push(Some(false));
            db.push(DimPat::Exact(1));
            db.push(DimPat::Exact(1));
            db.push(DimPat::Wild);
            db.push(DimPat::Wild);
            fb.push(None);
            fb.push(Some(true));
            fb.push(Some(false));
            fb.push(Some(false));
            proof {
                assert(da@ =~= bgemv_a_dims());
                assert(fa@ =~= bgemv_a_fakes());
                assert(db@ =~= bgemv_b_dims());
                assert(fb@ =~= bgemv_b_fakes());
            }
        },
        IdiomKind::Gemm => {
            da.push(DimPat::Wild);
            da.push(DimPat::Wild);
            da.push(DimPat::Wild);
            fa.push(Some(false));
            fa.push(Some(true));
            fa.push(Some(false));
            db.push(DimPat::Wild);
            db.push(DimPat::Wild);
            db.push(DimPat::Wild);
            fb.push(Some(true));
            fb.push(Some(false));
            fb.push(Some(false));
            proof {
                assert(da@ =~= gemm_a_dims());
                assert(fa@ =~= gemm_a_fakes());
                assert(db@ =~= gemm_b_dims());
                assert(fb@ =~= gemm_b_fakes());
            }
        },
        IdiomKind::BGemm => {
            da.push(DimPat::Wild);
            da.push(DimPat::Wild);
            da.push(DimPat::Wild);
            da.push(DimPat::Wild);
            fa.push(Some(false));
            fa.push(Some(false));
            fa.push(Some(true));
            fa.push(Some(false));
            db.push(DimPat::Wild);
            db.push(DimPat::Wild);
            db.push(DimPat::Wild);
            db.push(DimPat::Wild);
            fb.push(Some(true));
            fb.push(Some(true));
            fb.push(Some(false));
            fb.push(Some(false));
            proof {
                assert(da@ =~= bgemm_a_dims());
                assert(fa@ =~= bgemm_a_fakes());
                assert(db@ =~= bgemm_b_dims());
                assert(fb@ =~= bgemm_b_fakes());
            }
        },
    }
    (da, fa, db, fb)
}

/// The sum-reduction over axis `dim` the given node feeds, if any.
fn find_sum_reduce_consumer(g: &Graph, mul: usize, dim: usize) -> (r: Option<usize>)
    ensures
        match r {
            Some(s) => g.nodes().dom().contains(s) && g.nodes()[s] == Op::SumReduce(dim)
                && exists|e: Edge| #[trigger] g.edges().contains(e) && e.src == mul && e.dst == s,
            None => forall|s: usize|
                !(g.nodes().dom().contains(s) && g.nodes()[s] == Op::SumReduce(dim) && exists|
                    e: Edge,
                | #[trigger] g.edges().contains(e) && e.src == mul && e.dst == s),
        },
{
    let outs = g.out_edges(mul);
    let mm = outs.len();
    let mut j: usize = 0;
    while j < mm
        invariant
            j <= mm,
            mm == outs@.len(),
            forall|i: int|
                0 <= i < mm ==> g.edges().contains(#[trigger] outs@[i]) && outs@[i].src == mul,
            forall|e: Edge| #[trigger] g.edges().contains(e) && e.src == mul ==> outs@.contains(e),
            forall|q: int|
                0 <= q < j ==> !(g.nodes().dom().contains((#[trigger] outs@[q]).dst) && g.nodes()[
                    outs@[q].dst
                ] == Op::SumReduce(dim)),
        decreases mm - j,
    {
        let d = outs[j].dst;
        let opt = g.op_of(d);
        let hit = match &opt {
            Some(Op::SumReduce(x)) => *x == dim,
            _ => false,
        };
        if hit {
            proof {
                assert(g.nodes().dom().contains(d));
                assert(g.nodes()[d] == Op::SumReduce(dim));
                let e = outs@[j as int];
                assert(g.edges().contains(e) && e.src == mul && e.dst == d);
            }
            return Some(d);
        }
        j = j + 1;
    }
    proof {
        assert forall|s: usize|
            !(g.nodes().dom().contains(s) && g.nodes()[s] == Op::SumReduce(dim) && exists|e: Edge|
                #[trigger] g.edges().contains(e) && e.src == mul && e.dst == s) by {
            if g.nodes().dom().contains(s) && g.nodes()[s] == Op::SumReduce(dim) {
                if exists|e: Edge| #[trigger] g.edges().contains(e) && e.src == mul && e.dst == s {
                    let e = choose|e: Edge|
                        #[trigger] g.edges().contains(e) && e.src == mul && e.dst == s;
                    assert(outs@.contains(e));
                    let q = choose|q: int| 0 <= q < outs@.len() && outs@[q] == e;
                    assert(!(g.nodes().dom().contains(outs@[q].dst) && g.nodes()[outs@[q].dst]
                        == Op::SumReduce(dim)));
                }
            }
        }
    }
    None
}

/// The idiom this multiply node roots, if any, trying the
/// matrix-vector shapes before the matrix-matrix ones.
fn find_idiom(g: &Graph, mul: usize) -> (r: Option<(usize, IdiomKind)>)
    ensures
        match r {
            Some(p) => match p.1 {
                IdiomKind::Gemv => is_gemv_match(g.nodes(), g.edges(), mul, p.0),
                IdiomKind::BGemv => is_bgemv_match(g.nodes(), g.edges(), mul, p.0),
                IdiomKind::Gemm => is_gemm_match(g.nodes(), g.edges(), mul, p.0),
                IdiomKind::BGemm => is_bgemm_match(g.nodes(), g.edges(), mul, p.0),
            },
            None => forall|s: usize| !is_matmul_idiom(g.nodes(), g.edges(), mul, s),
        },
{
    let is_mul = match g.op_of(mul) {
        Some(Op::Mul) => true,
        _ => false,
    };
    if !is_mul {
        return None;
    }
    let (da, fa, db, fb) = idiom_pats(IdiomKind::Gemv);
    if crate::select::has_input_exec(g, mul, 0, &da, &fa) && crate::select::has_input_exec(
        g,
        mul,
        1,
        &db,
        &fb,
    ) {
        match find_sum_reduce_consumer(g, mul, 2) {
            Some(s) => {
                return Some((s, IdiomKind::Gemv));
            },
            None => {},
        }
    }
    let (da, fa, db, fb) = idiom_pats(IdiomKind::BGemv);
    if crate::select::has_input_exec(g, mul, 0, &da, &fa) && crate::select::has_input_exec(
        g,
        mul,
        1,
        &db,
        &fb,
    ) {
        match find_sum_reduce_consumer(g, mul, 3) {
            Some(s) => {
                return Some((s, IdiomKind::BGemv));
            },
            None => {},
        }
    }
    let (da, fa, db, fb) = idiom_pats(IdiomKind::Gemm);
    if crate::select::has_input_exec(g, mul, 0, &da, &fa) && crate::select::has_input_exec(
        g,
        mul,
        1,
        &db,
        &fb,
    ) {
        match find_sum_reduce_consumer(g, mul, 2) {
            Some(s) => {
                return Some((s, IdiomKind::Gemm));
            },
            None => {},
        }
    }
    let (da, fa, db, fb) = idiom_pats(IdiomKind::BGemm);
    if crate::select::has_input_exec(g, mul, 0, &da, &fa) && crate::select::has_input_exec(
        g,
        mul,
        1,
        &db,
        &fb,
    ) {
        match find_sum_reduce_consumer(g, mul, 3) {
            Some(s) => {
                return Some((s, IdiomKind::BGemm));
            },
            None => {},
        }
    }
    None
}

/// Removes and returns some edge of the pool at input slot `slot`
/// whose view satisfies the pattern, or reports that none does.
fn take_matching(
    pool: &mut Vec<Edge>,
    slot: usize,
    dims: &Vec<DimPat>,
    fks: &Vec<Option<bool>>,
) -> (r: Option<Edge>)
    ensures
        match r {
            Some(e) => {
                &&& e.input_idx == slot
                &&& e.shape.wf()
                &&& input_matches(e.shape.lview(), dims@, fks@)
                &&& old(pool)@.contains(e)
                &&& forall|x: Edge| #[trigger] final(pool)@.contains(x) ==> old(pool)@.contains(x)
                &&& forall|x: Edge|
                    #[trigger] old(pool)@.contains(x) && x.input_idx != slot ==> final(pool)@.contains(x)
            },
            None => {
                &&& final(pool)@ == old(pool)@
                &&& forall|j: int|
                    0 <= j < old(pool)@.len() ==> !((#[trigger] old(pool)@[j]).input_idx == slot
                        && old(pool)@[j].shape.wf() && input_matches(
                        old(pool)@[j].shape.lview(),
                        dims@,
                        fks@,
                    ))
            },
        },
{
    let n = pool.len();
    let mut i: usize = 0;
    while i < n
        invariant
            i <= n,
            n == pool@.len(),
            pool@ == old(pool)@,
            forall|j: int|
                0 <= j < i ==> !((#[trigger] pool@[j]).input_idx == slot && pool@[j].shape.wf()
                    && input_matches(pool@[j].shape.lview(), dims@, fks@)),
        decreases n - i,
    {
        if pool[i].input_idx == slot && crate::select::wf_exec(&pool[i].shape)
            && crate::select::input_matches_exec(&pool[i].shape, dims, fks) {
            let e = pool.remove(i);
            proof {
                assert(old(pool)@[i as int] == e);
                assert forall|x: Edge| #[trigger] pool@.contains(x) implies old(pool)@.contains(x) by {
                    let j = choose|j: int| 0 <= j < pool@.len() && pool@[j] == x;
                    if j < i {
                        assert(old(pool)@[j] == x);
                    } else {
                        assert(old(pool)@[j + 1] == x);
                    }
                }
                assert forall|x: Edge|
                    old(pool)@.contains(x) && x.input_idx != slot implies pool@.contains(x) by {
                    let j = choose|j: int| 0 <= j < old(pool)@.len() && old(pool)@[j] == x;
                    if j < i {
                        assert(pool@[j] == x);
                    } else {
                        assert(j != i);
                        assert(pool@[j - 1] == x);
                    }
                }
            }
            return Some(e);
        }
        i = i + 1;
    }
    None
}

/// Whether the vector holds the id.
pub fn contains_id(v: &Vec<usize>, x: usize) -> (r: bool)
    ensures
        r == v@.contains(x),
{
    let n = v.len();
    let mut i: usize = 0;
    while i < n
        invariant
            i <= n,
            n == v@.len(),
            forall|j: int| 0 <= j < i ==> v@[j] != x,
        decreases n - i,
    {
        if v[i] == x {
            return true;
        }
        i = i + 1;
    }
    proof {
        if v@.contains(x) {
            let j = choose|j: int| 0 <= j < v@.len() && v@[j] == x;
            assert(false);
        }
    }
    false
}


/// Swaps the two axes of a rank-two view.
fn transpose2(s: &mut ShapeTracker)
    requires
        old(s).wf(),
        old(s).rank() == 2,
    ensures
        final(s).wf(),
        final(s).rank() == 2,
{
    let mut axes: Vec<usize> = Vec::new();
    axes.push(1);
    axes.push(0);
    proof {
        assert(axes@[0] == 1usize && axes@[1] == 0usize);
        assert forall|p: int| 0 <= p < axes@.len() implies #[trigger] crate::shape::contains_slot(
            axes@,
            p,
        ) by {
            if p == 0 {
                assert(axes@[1] == 0usize);
            } else {
                assert(axes@[0] == 1usize);
            }
        }
    }
    s.permute(&axes);
}

/// Undoes the broadcast of the first matrix-vector operand: drops the
/// fake axis and the leading unit axis, leaving the bare vector.
fn munge_gemv_a(s: &mut ShapeTracker)
    requires
        old(s).wf(),
        input_matches(old(s).lview(), gemv_a_dims(), gemv_a_fakes()),
    ensures
        final(s).wf(),
        final(s).rank() == 1,
{
    proof {
        assert(old(s).lview().len() == 3);
        assert((old(s).lview()[1]).fake == true);
        assert((old(s).lview()[0]).dim == Expr::Num(1));
    }
    let ok1 = s.remove_dim(1);
    proof {
        assert(ok1);
        assert(s.lview()[0] == old(s).lview()[0]);
    }
    let ok2 = s.remove_dim(0);
    proof {
        assert(ok2);
    }
}

/// Undoes the broadcast of the first batched matrix-vector operand.
fn munge_bgemv_a(s: &mut ShapeTracker)
    requires
        old(s).wf(),
        input_matches(old(s).lview(), bgemv_a_dims(), bgemv_a_fakes()),
    ensures
        final(s).wf(),
        final(s).rank() == 1,
{
    proof {
        assert(old(s).lview().len() == 4);
        assert((old(s).lview()[2]).fake == true);
        assert((old(s).lview()[1]).dim == Expr::Num(1));
        assert((old(s).lview()[0]).dim == Expr::Num(1));
    }
    let ok1 = s.remove_dim(2);
    proof {
        assert(ok1);
        assert(s.lview()[1] == old(s).lview()[1]);
        assert(s.lview()[0] == old(s).lview()[0]);
    }
    let ok2 = s.remove_dim(1);
    proof {
        assert(ok2);
        assert(s.lview()[0] == old(s).lview()[0]);
    }
    let ok3 = s.remove_dim(0);
    proof {
        assert(ok3);
    }
}

/// Undoes the broadcast of the first matrix-matrix operand.
fn munge_gemm_a(s: &mut ShapeTracker)
    requires
        old(s).wf(),
        input_matches(old(s).lview(), gemm_a_dims(), gemm_a_fakes()),
    ensures
        final(s).wf(),
        final(s).rank() == 2,
{
    proof {
        assert(old(s).lview().len() == 3);
        assert((old(s).lview()[1]).fake == true);
    }
    let ok1 = s.remove_dim(1);
    proof {
        assert(ok1);
    }
}

/// Undoes the broadcast of the first batched matrix-matrix operand.
fn munge_bgemm_a(s: &mut ShapeTracker)
    requires
        old(s).wf(),
        input_matches(old(s).lview(), bgemm_a_dims(), bgemm_a_fakes()),
    ensures
        final(s).wf(),
        final(s).rank() == 3,
{
    proof {
        assert(old(s).lview().len() == 4);
        assert((old(s).lview()[2]).fake == true);
    }
    let ok1 = s.remove_dim(2);
    proof {
        assert(ok1);
    }
}

/// Undoes the broadcast of the second matrix-vector operand and
/// restores its logical orientation.
fn munge_gemv_b(s: &mut ShapeTracker)
    requires
        old(s).wf(),
        input_matches(old(s).lview(), gemv_b_dims(), gemv_b_fakes()),
    ensures
        final(s).wf(),
        final(s).rank() == 2,
{
    proof {
        assert(old(s).lview().len() == 3);
        assert((old(s).lview()[0]).fake == true);
    }
    let ok1 = s.remove_dim(0);
    proof {
        assert(ok1);
    }
    transpose2(s);
}

/// Undoes the broadcast of the second batched matrix-vector operand
/// and restores its logical orientation.
fn munge_bgemv_b(s: &mut ShapeTracker)
    requires
        old(s).wf(),
        input_matches(old(s).lview(), bgemv_b_dims(), bgemv_b_fakes()),
    ensures
        final(s).wf(),
        final(s).rank() == 2,
{
    proof {
        assert(old(s).lview().len() == 4);
        assert((old(s).lview()[1]).fake == true);
        assert((old(s).lview()[0]).dim == Expr::Num(1));
    }
    let ok1 = s.remove_dim(1);
    proof {
        assert(ok1);
        assert(s.lview()[0] == old(s).lview()[0]);
    }
    let ok2 = s.remove_dim(0);
    proof {
        assert(ok2);
    }
    transpose2(s);
}

/// Undoes the broadcast of the second matrix-matrix operand and
/// restores its logical orientation.
fn munge_gemm_b(s: &mut ShapeTracker)
    requires
        old(s).wf(),
        input_matches(old(s).lview(), gemm_b_dims(), gemm_b_fakes()),
    ensures
        final(s).wf(),
        final(s).rank() == 2,
{
    proof {
        assert(old(s).lview().len() == 3);
        assert((old(s).lview()[0]).fake == true);
    }
    let ok1 = s.remove_dim(0);
    proof {
        assert(ok1);
    }
    transpose2(s);
}

/// Undoes the broadcast of the second batched matrix-matrix operand
/// and restores its logical orientation.
fn munge_bgemm_b(s: &mut ShapeTracker)
    requires
        old(s).wf(),
        input_matches(old(s).lview(), bgemm_b_dims(), bgemm_b_fakes()),
    ensures
        final(s).wf(),
        final(s).rank() == 2,
{
    proof {
        assert(old(s).lview().len() == 4);
        assert((old(s).lview()[1]).fake == true);
        assert((old(s).lview()[0]).fake == true);
    }
    let ok1 = s.remove_dim(1);
    proof {
        assert(ok1);
        assert(s.lview()[0] == old(s).lview()[0]);
    }
    let ok2 = s.remove_dim(0);
    proof {
        assert(ok2);
    }
    transpose2(s);
}

/// Materialises the view when the kernel cannot read it in place:
/// inserts a `Contiguous` node fed by `src` through the old view and
/// returns it, leaving the fresh contiguous view in `s`.  With
/// `enabled` false, or a view that is already acceptable, returns
/// `src` untouched.  Either way the view handed on is neither sliced
/// nor padded (and, when `batch_check` holds, not batch-misaligned),
/// so the kernel reads it in place.
pub fn maybe_contiguous(
    g: &mut Graph,
    src: usize,
    s: &mut ShapeTracker,
    enabled: bool,
    batch_check: bool,
) -> (srcn: usize)
    requires
        old(g).wf(),
        old(g).nodes().dom().contains(src),
        old(s).wf(),
    ensures
        final(g).wf(),
        final(s).wf(),
        final(s).rank() == old(s).rank(),
        final(g).nodes().dom().contains(srcn),
        enabled ==> !final(s).is_sliced_spec() && !final(s).is_padded_spec(),
        enabled && batch_check && final(s).rank() == 3 ==> final(s).indexes@[0] == 0,
        old(g).nodes().dom().contains(srcn) ==> srcn == src && *final(s) == *old(s) && final(g).nodes() == old(g).nodes() && final(g).edges() == old(g).edges(),
        !old(g).nodes().dom().contains(srcn) ==> {
            &&& final(g).nodes() == old(g).nodes().insert(srcn, Op::Contiguous)
            &&& final(s).is_contiguous_spec()
            &&& (old(s).is_sliced_spec() || old(s).is_padded_spec() || (old(s).rank() == 3
                && old(s).indexes@[0] != 0))
            &&& exists|e: Edge|
                {
                    &&& #[trigger] final(g).edges().contains(e)
                    &&& e.src == src
                    &&& e.dst == srcn
                    &&& e.input_idx == 0
                    &&& e.shape.wf()
                    &&& e.shape.lview() == old(s).lview()
                }
            &&& final(g).edges() == old(g).edges().insert(
                choose|e: Edge|
                    {
                        &&& #[trigger] final(g).edges().contains(e)
                        &&& e.src == src
                        &&& e.dst == srcn
                        &&& e.input_idx == 0
                        &&& e.shape.wf()
                        &&& e.shape.lview() == old(s).lview()
                    },
            )
        },
        forall|x: usize|
            #[trigger] final(g).nodes().dom().contains(x) ==> old(g).nodes().dom().contains(x) || (
            x == srcn && !old(g).nodes().dom().contains(srcn)),
        forall|x: usize|
            #[trigger] old(g).nodes().dom().contains(x) ==> final(g).nodes().dom().contains(x)
                && final(g).nodes()[x] == old(g).nodes()[x],
        !old(g).nodes().dom().contains(srcn) ==> final(g).nodes()[srcn] == Op::Contiguous,
        forall|e: Edge|
            #[trigger] final(g).edges().contains(e) ==> old(g).edges().contains(e) || (e.dst
                == srcn && !old(g).nodes().dom().contains(srcn)),
        forall|e: Edge|
            #[trigger] old(g).edges().contains(e) ==> final(g).edges().contains(e),
        final(g).no_delete@ == old(g).no_delete@,
        final(g).to_retrieve@ == old(g).to_retrieve@,
        final(g).dyn_map@ == old(g).dyn_map@,
        final(g).id_remap@ == old(g).id_remap@,
        final(g).tensors@ == old(g).tensors@,
{
    if !enabled {
        return src;
    }
    let mut need = s.is_sliced() || s.is_padded();
    if !need && batch_check {
        if s.len() == 3 && s.indexes.len() > 0 {
            if s.indexes[0] != 0 {
                need = true;
            }
        }
    }
    if !need {
        return src;
    }
    let cg = g.add_op(Op::Contiguous);
    let sc = s.clone();
    let ghost gsc = sc;
    g.add_edge(src, cg, 0, 0, sc);
    let s2 = s.contiguous();
    *s = s2;
    proof {
        let we = Edge { src, dst: cg, src_out: 0, input_idx: 0, shape: gsc };
        assert(g.edges().contains(we));
        assert(we.shape.lview() == old(s).lview());
        assert(we.shape.wf()) by {
            assert(gsc.dims@ == old(s).dims@ && gsc.indexes@ == old(s).indexes@ && gsc.fake@
                == old(s).fake@ && gsc.mask@ == old(s).mask@ && gsc.padding@ == old(s).padding@);
        }
        let wc = choose|e: Edge|
            {
                &&& #[trigger] g.edges().contains(e)
                &&& e.src == src
                &&& e.dst == cg
                &&& e.input_idx == 0
                &&& e.shape.wf()
                &&& e.shape.lview() == old(s).lview()
            };
        assert(old(g).edges().insert(we).contains(wc));
        if wc != we {
            assert(old(g).edges().contains(wc));
            assert(old(g).nodes().dom().contains(wc.dst));
            assert(false);
        }
    }
    cg
}

/// Every multiply or sum-reduce node of the new state was already
/// there, unchanged: the pass creates no node of either kind.
pub open spec fn mulsr_preserved(g0: Map<usize, Op>, now: Map<usize, Op>) -> bool {
    forall|x: usize|
        #[trigger] now.dom().contains(x) && (now[x] is Mul || now[x] is SumReduce)
            ==> g0.dom().contains(x) && now[x] == g0[x]
}

/// Every node that is neither a multiply nor a sum-reduce survives
/// unchanged: the pass removes nothing else.
pub open spec fn others_preserved(g0: Map<usize, Op>, now: Map<usize, Op>) -> bool {
    forall|x: usize|
        #[trigger] g0.dom().contains(x) && !(g0[x] is Mul) && !(g0[x] is SumReduce)
            ==> now.dom().contains(x) && now[x] == g0[x]
}

/// Every pinned or retrieved node that is not a sum-reduce survives
/// unchanged; a pinned sum-reduce may be replaced by its kernel, with
/// the redirection recorded.
pub open spec fn pinned_preserved(
    g0: Map<usize, Op>,
    nd0: Seq<usize>,
    tr0: Seq<usize>,
    now: Map<usize, Op>,
) -> bool {
    forall|x: usize|
        (nd0.contains(x) || tr0.contains(x)) && #[trigger] g0.dom().contains(x) && !(g0[x]
            is SumReduce) ==> now.dom().contains(x) && now[x] == g0[x]
}

/// An edge disappears only when one of its endpoints was replaced:
/// edges between surviving, unchanged nodes are untouched.
pub open spec fn edges_preserved(
    g0n: Map<usize, Op>,
    g0e: Multiset<Edge>,
    nn: Map<usize, Op>,
    ne: Multiset<Edge>,
) -> bool {
    forall|e: Edge|
        #[trigger] g0e.contains(e) ==> ne.contains(e) || !(nn.dom().contains(e.src) && nn[e.src]
            == g0n[e.src]) || !(nn.dom().contains(e.dst) && nn[e.dst] == g0n[e.dst])
}

/// How the pass rewrites one reference list: each entry is kept, or —
/// when it named a sum-reduce at the pass's start — swapped for a
/// surviving kernel node, with the redirection in the remap table.
spec fn refs_tracked(
    g0: Map<usize, Op>,
    olds: Seq<usize>,
    nows: Seq<usize>,
    nn: Map<usize, Op>,
    remap: Seq<(usize, usize)>,
) -> bool {
    &&& nows.len() == olds.len()
    &&& forall|p: int|
        0 <= p < olds.len() ==> (#[trigger] nows[p]) == olds[p] || {
            &&& remap.contains((olds[p], nows[p]))
            &&& nn.dom().contains(nows[p])
            &&& !(nn[nows[p]] is SumReduce)
            &&& !(nn[nows[p]] is Mul)
            &&& g0.dom().contains(olds[p])
            &&& g0[olds[p]] is SumReduce
        }
}


/// One rewrite step keeps a reference list tracked: an entry naming
/// the replaced sum-reduce is swapped for the fresh kernel node with
/// the redirection recorded; every other entry is untouched.
proof fn lemma_refs_step(
    gp: Map<usize, Op>,
    olds: Seq<usize>,
    its: Seq<usize>,
    news: Seq<usize>,
    nit: Map<usize, Op>,
    nn: Map<usize, Op>,
    remap_it: Seq<(usize, usize)>,
    remap_new: Seq<(usize, usize)>,
    sr: usize,
    mv: usize,
)
    requires
        refs_tracked(gp, olds, its, nit, remap_it),
        news.len() == its.len(),
        forall|p: int|
            0 <= p < its.len() ==> #[trigger] news[p] == (if its[p] == sr {
                mv
            } else {
                its[p]
            }),
        remap_new == remap_it.push((sr, mv)),
        nit.dom().contains(sr) && nit[sr] is SumReduce,
        gp.dom().contains(sr) && gp[sr] is SumReduce,
        nn.dom().contains(mv),
        !(nn[mv] is SumReduce),
        !(nn[mv] is Mul),
        forall|x: usize|
            #[trigger] nit.dom().contains(x) && x != sr && !(nit[x] is Mul)
                ==> nn.dom().contains(x) && nn[x] == nit[x],
    ensures
        refs_tracked(gp, olds, news, nn, remap_new),
{
    assert forall|p: int| 0 <= p < olds.len() implies (#[trigger] news[p]) == olds[p] || {
        &&& remap_new.contains((olds[p], news[p]))
        &&& nn.dom().contains(news[p])
        &&& !(nn[news[p]] is SumReduce)
        &&& !(nn[news[p]] is Mul)
        &&& gp.dom().contains(olds[p])
        &&& gp[olds[p]] is SumReduce
    } by {
        if its[p] == olds[p] {
            if its[p] == sr {
                assert(news[p] == mv);
                assert(remap_new[remap_it.len() as int] == (sr, mv));
                assert(remap_new.contains((olds[p], news[p])));
            }
        } else {
            assert(nit.dom().contains(its[p]) && !(nit[its[p]] is SumReduce) && !(nit[its[p]]
                is Mul));
            assert(its[p] != sr);
            assert(news[p] == its[p]);
            assert(nn.dom().contains(its[p]) && nn[its[p]] == nit[its[p]]);
            let pair = (olds[p], its[p]);
            assert(remap_it.contains(pair));
            let q = choose|q: int| 0 <= q < remap_it.len() && remap_it[q] == pair;
            assert(remap_new[q] == pair);
            assert(remap_new.contains((olds[p], news[p])));
        }
    }
}

/// The rewrite pass lowering multiply + sum-reduce idioms to the kernel
/// nodes above.
#[derive(Clone, Copy, Default)]
pub struct MetalMatMulCompiler {
}


impl MetalMatMulCompiler {
    /// Lowers every unpinned multiply + sum-reduce idiom into a kernel
    /// node, rerouting the reduction's consumers and the caller's
    /// references.
    ///
    /// Afterwards no idiom remains whose multiply is not pinned or
    /// retrieved; pinned and retrieved ids still name present nodes;
    /// and every handle that was marked for retrieval still names a
    /// present node.
    pub fn compile(&self, g: &mut Graph, handles: &mut Vec<usize>)
        requires
            old(g).wf(),
        ensures
            final(g).wf(),
            ids_present(final(g).no_delete@, final(g).nodes()),
            forall|m: usize, s: usize|
                is_matmul_idiom(final(g).nodes(), final(g).edges(), m, s) ==> final(g).no_delete@.contains(m) || final(g).to_retrieve@.contains(m),
            final(handles)@.len() == old(handles)@.len(),
            forall|t: int|
                0 <= t < old(handles)@.len() && old(g).to_retrieve@.contains(old(handles)@[t])
                    ==> final(g).nodes().dom().contains(final(handles)@[t]),
            final(g).dyn_map@ == old(g).dyn_map@,
            final(g).tensors@ == old(g).tensors@,
            old(g).id_remap@.len() <= final(g).id_remap@.len(),
            forall|q: int|
                0 <= q < old(g).id_remap@.len() ==> final(g).id_remap@[q] == old(g).id_remap@[q],
            final(g).no_delete@.len() == old(g).no_delete@.len(),
            forall|p: int|
                0 <= p < old(g).no_delete@.len() ==> final(g).no_delete@[p] == old(g).no_delete@[p] || final(g).id_remap@.contains(
                    (old(g).no_delete@[p], final(g).no_delete@[p]),
                ),
            final(g).to_retrieve@.len() == old(g).to_retrieve@.len(),
            forall|p: int|
                0 <= p < old(g).to_retrieve@.len() ==> final(g).to_retrieve@[p] == old(g).to_retrieve@[p] || final(g).id_remap@.contains(
                    (old(g).to_retrieve@[p], final(g).to_retrieve@[p]),
                ),
            forall|t: int|
                0 <= t < old(handles)@.len() ==> final(handles)@[t] == old(handles)@[t] || final(g).id_remap@.contains((old(handles)@[t], final(handles)@[t])),
            mulsr_preserved(old(g).nodes(), final(g).nodes()),
            others_preserved(old(g).nodes(), final(g).nodes()),
            pinned_preserved(
                old(g).nodes(),
                old(g).no_delete@,
                old(g).to_retrieve@,
                final(g).nodes(),
            ),
            edges_preserved(old(g).nodes(), old(g).edges(), final(g).nodes(), final(g).edges()),
    {
        let candidates = g.node_ids();
        let ghost c = candidates@;
        let n = candidates.len();
        proof {
            assert forall|m: usize, s: usize|
                is_matmul_idiom(g.nodes(), g.edges(), m, s) && !g.no_delete@.contains(m)
                    && !g.to_retrieve@.contains(m) implies exists|j: int|
                0 <= j < c.len() && #[trigger] c[j] == m by {
                assert(g.nodes().dom().contains(m));
                assert(c.contains(m));
            }
        }
        let mut i: usize = 0;
        while i < n
            invariant
                g.wf(),
                old(g).wf(),
                n == c.len(),
                candidates@ == c,
                c.no_duplicates(),
                handles@.len() == old(handles)@.len(),
                forall|t: int|
                    0 <= t < handles@.len() && old(g).to_retrieve@.contains(old(handles)@[t])
                        ==> exists|p: int|
                        0 <= p < g.to_retrieve@.len() && #[trigger] g.to_retrieve@[p]
                            == handles@[t],
                forall|m: usize, s: usize|
                    is_matmul_idiom(g.nodes(), g.edges(), m, s) && !g.no_delete@.contains(m)
                        && !g.to_retrieve@.contains(m) ==> exists|j: int|
                        i <= j < c.len() && #[trigger] c[j] == m,
                g.dyn_map@ == old(g).dyn_map@,
                g.tensors@ == old(g).tensors@,
                old(g).id_remap@.len() <= g.id_remap@.len(),
                forall|q: int|
                    0 <= q < old(g).id_remap@.len() ==> g.id_remap@[q] == old(g).id_remap@[q],
                refs_tracked(old(g).nodes(), old(g).no_delete@, g.no_delete@, g.nodes(), g.id_remap@),
                refs_tracked(
                    old(g).nodes(),
                    old(g).to_retrieve@,
                    g.to_retrieve@,
                    g.nodes(),
                    g.id_remap@,
                ),
                refs_tracked(old(g).nodes(), old(handles)@, handles@, g.nodes(), g.id_remap@),
                mulsr_preserved(old(g).nodes(), g.nodes()),
                others_preserved(old(g).nodes(), g.nodes()),
                pinned_preserved(old(g).nodes(), old(g).no_delete@, old(g).to_retrieve@, g.nodes()),
                edges_preserved(old(g).nodes(), old(g).edges(), g.nodes(), g.edges()),
            decreases n - i,
        {
            let ghost g0n = g.nodes();
            let ghost g0e = g.edges();
            let ghost nd0 = g.no_delete@;
            let ghost tr0 = g.to_retrieve@;
            let ghost h0 = handles@;
            let ghost remap0 = g.id_remap@;
            let mul = candidates[i];
            let found = find_idiom(g, mul);
            match found {
                None => {
                    proof {
                        assert forall|m: usize, s: usize|
                            is_matmul_idiom(g.nodes(), g.edges(), m, s) && !g.no_delete@.contains(
                                m,
                            ) && !g.to_retrieve@.contains(m) implies exists|j: int|
                            i + 1 <= j < c.len() && #[trigger] c[j] == m by {
                            let j = choose|j: int| i <= j < c.len() && #[trigger] c[j] == m;
                            assert(j != i);
                            assert(i + 1 <= j < c.len() && c[j] == m);
                        }
                    }
                },
                Some(p) => {
                    let (sr, kind) = p;
                    if contains_id(&g.no_delete, mul) || contains_id(&g.to_retrieve, mul) {
                        proof {
                            assert forall|m: usize, s: usize|
                                is_matmul_idiom(g.nodes(), g.edges(), m, s)
                                    && !g.no_delete@.contains(m) && !g.to_retrieve@.contains(
                                    m,
                                ) implies exists|j: int|
                                i + 1 <= j < c.len() && #[trigger] c[j] == m by {
                                let j = choose|j: int| i <= j < c.len() && #[trigger] c[j] == m;
                                assert(j != i);
                                assert(i + 1 <= j < c.len() && c[j] == m);
                            }
                        }
                    } else {
                        let ghost kdim: usize = match kind {
                            IdiomKind::Gemv => 2,
                            IdiomKind::BGemv => 3,
                            IdiomKind::Gemm => 2,
                            IdiomKind::BGemm => 3,
                        };
                        let (da, fa, db, fb) = idiom_pats(kind);
                        proof {
                            match kind {
                                IdiomKind::Gemv => {
                                    assert(is_gemv_match(g0n, g0e, mul, sr));
                                },
                                IdiomKind::BGemv => {
                                    assert(is_bgemv_match(g0n, g0e, mul, sr));
                                },
                                IdiomKind::Gemm => {
                                    assert(is_gemm_match(g0n, g0e, mul, sr));
                                },
                                IdiomKind::BGemm => {
                                    assert(is_bgemm_match(g0n, g0e, mul, sr));
                                },
                            }
                            assert(has_input(g0e, mul, 0, da@, fa@));
                            assert(has_input(g0e, mul, 1, db@, fb@));
                            assert(g0n.dom().contains(mul) && g0n[mul] is Mul);
                            assert(g0n.dom().contains(sr) && g0n[sr] == Op::SumReduce(kdim));
                            assert(mul != sr);
                        }
                        let mut pool = g.in_edges(mul);
                        let ghost pool0 = pool@;
                        let r1 = take_matching(&mut pool, 0, &da, &fa);
                        let e1: Edge;
                        match r1 {
                            Some(e) => {
                                e1 = e;
                            },
                            None => {
                                proof {
                                    let ew = choose|e: Edge|
                                        #[trigger] g0e.contains(e) && e.dst == mul && e.input_idx
                                            == 0usize && e.shape.wf() && input_matches(
                                            e.shape.lview(),
                                            da@,
                                            fa@,
                                        );
                                    assert(pool0.contains(ew));
                                    let q = choose|q: int|
                                        0 <= q < pool0.len() && pool0[q] == ew;
                                    assert(false);
                                }
                                return;
                            },
                        }
                        let r2 = take_matching(&mut pool, 1, &db, &fb);
                        let e2: Edge;
                        match r2 {
                            Some(e) => {
                                e2 = e;
                            },
                            None => {
                                proof {
                                    let ew = choose|e: Edge|
                                        #[trigger] g0e.contains(e) && e.dst == mul && e.input_idx
                                            == 1usize && e.shape.wf() && input_matches(
                                            e.shape.lview(),
                                            db@,
                                            fb@,
                                        );
                                    assert(pool0.contains(ew));
                                    assert(pool@.contains(ew));
                                    let q = choose|q: int| 0 <= q < pool@.len() && pool@[q] == ew;
                                    assert(false);
                                }
                                return;
                            },
                        }
                        let ghost ge1 = e1;
                        let ghost ge2 = e2;
                        let src1 = e1.src;
                        let mut s1 = e1.shape;
                        let src2 = e2.src;
                        let mut s2 = e2.shape;
                        proof {
                            assert(g0e.contains(ge1) && ge1.dst == mul) by {
                                let q = choose|q: int| 0 <= q < pool0.len() && pool0[q] == ge1;
                                assert(g0e.contains(pool0[q]));
                            }
                            assert(g0e.contains(ge2) && ge2.dst == mul) by {
                                let q = choose|q: int| 0 <= q < pool0.len() && pool0[q] == ge2;
                                assert(g0e.contains(pool0[q]));
                            }
                            assert(g0n.dom().contains(src1));
                            assert(g0n.dom().contains(src2));
                        }
                        match kind {
                            IdiomKind::Gemv => {
                                munge_gemv_a(&mut s1);
                                munge_gemv_b(&mut s2);
                            },
                            IdiomKind::BGemv => {
                                munge_bgemv_a(&mut s1);
                                munge_bgemv_b(&mut s2);
                            },
                            IdiomKind::Gemm => {
                                munge_gemm_a(&mut s1);
                                munge_gemm_b(&mut s2);
                            },
                            IdiomKind::BGemm => {
                                munge_bgemm_a(&mut s1);
                                munge_bgemm_b(&mut s2);
                            },
                        }
                        let vecpath = match kind {
                            IdiomKind::Gemv => true,
                            IdiomKind::BGemv => true,
                            IdiomKind::Gemm => false,
                            IdiomKind::BGemm => false,
                        };
                        let src1n = maybe_contiguous(g, src1, &mut s1, !vecpath, true);
                        let ghost nA = g.nodes();
                        let ghost eA = g.edges();
                        let src2n = maybe_contiguous(g, src2, &mut s2, true, false);
                        let ghost nB = g.nodes();
                        let ghost eB = g.edges();
                        let op = if vecpath {
                            if !s2.is_contiguous() {
                                Op::MatVec1Row(MatVec1Row {  })
                            } else {
                                Op::MatVec(MatVec { transposed: true })
                            }
                        } else {
                            Op::Matmul(
                                Matmul {
                                    a_transposed: !s1.is_contiguous(),
                                    b_transposed: !s2.is_contiguous(),
                                },
                            )
                        };
                        proof {
                            assert(!(op is Mul) && !(op is SumReduce));
                        }
                        let mv = g.add_op(op);
                        let ghost nC = g.nodes();
                        let ghost eC = g.edges();
                        proof {
                            assert(nC.dom().contains(src1n));
                            assert(nC.dom().contains(src2n));
                            assert(!g0n.dom().contains(mv));
                            assert(mv != mul && mv != sr);
                        }
                        g.add_edge(src1n, mv, 0, 0, s1);
                        g.add_edge(src2n, mv, 0, 1, s2);
                        let ghost nD = g.nodes();
                        let ghost eD = g.edges();
                        g.move_outgoing_edge(sr, mv);
                        let ghost nE = g.nodes();
                        let ghost eE = g.edges();
                        g.move_references(handles, sr, mv);
                        proof {
                            assert forall|q: int|
                                0 <= q < g.no_delete@.len() implies #[trigger] g.no_delete@[q]
                                    != mul && g.no_delete@[q] != sr by {
                                assert(!nd0.contains(mul));
                            }
                            assert forall|q: int|
                                0 <= q < g.to_retrieve@.len() implies #[trigger] g.to_retrieve@[q]
                                    != mul && g.to_retrieve@[q] != sr by {
                                assert(!tr0.contains(mul));
                            }
                        }
                        g.remove_node(mul);
                        g.remove_node(sr);
                        proof {
                            let c1 = if g0n.dom().contains(src1n) {
                                mv
                            } else {
                                src1n
                            };
                            let c2 = if g0n.dom().contains(src2n) {
                                mv
                            } else {
                                src2n
                            };
                            assert(!g0n.dom().contains(c1) && !g0n.dom().contains(c2)
                                && !g0n.dom().contains(mv));
                            assert forall|x: usize| #[trigger] g.nodes().dom().contains(
                                x,
                            ) implies x != mul && x != sr by {}
                            assert forall|x: usize|
                                #[trigger] g.nodes().dom().contains(x) && (g.nodes()[x] is Mul
                                    || g.nodes()[x] is SumReduce) implies g0n.dom().contains(x)
                                    && g.nodes()[x] == g0n[x] by {
                                assert(g.nodes()[x] == nE[x]);
                                assert(nE == nD && nD == nC);
                                if x == mv {
                                    assert(nC[x] == op);
                                    assert(false);
                                } else {
                                    assert(nC[x] == nB[x]);
                                    if !g0n.dom().contains(x) {
                                        if x == src2n && !nA.dom().contains(src2n) {
                                            assert(nB[x] == Op::Contiguous);
                                            assert(false);
                                        } else {
                                            assert(nA.dom().contains(x) || (x == src2n
                                                && !nA.dom().contains(src2n)));
                                            assert(nA.dom().contains(x));
                                            assert(nB[x] == nA[x]);
                                            assert(x == src1n && !g0n.dom().contains(src1n));
                                            assert(nA[x] == Op::Contiguous);
                                            assert(false);
                                        }
                                    } else {
                                        assert(nA.dom().contains(x) && nA[x] == g0n[x]);
                                        assert(nB.dom().contains(x) && nB[x] == nA[x]);
                                    }
                                }
                            }
                            assert forall|e: Edge| #[trigger] g.edges().contains(e) implies
                                g0e.contains(e) || e.dst == c1 || e.dst == c2 || e.dst == mv || (
                            e.src == mv && g0e.contains(retarget(e, sr))) by {
                                assert(eE.contains(e));
                                if eD.contains(e) {
                                    if !eC.contains(e) {
                                        assert(e.dst == mv);
                                    } else {
                                        assert(eC == eB);
                                        if !eA.contains(e) {
                                            assert(e.dst == src2n && !nA.dom().contains(src2n));
                                            assert(!g0n.dom().contains(src2n));
                                            assert(e.dst == c2);
                                        } else {
                                            if !g0e.contains(e) {
                                                assert(e.dst == src1n && !g0n.dom().contains(
                                                    src1n,
                                                ));
                                                assert(e.dst == c1);
                                            }
                                        }
                                    }
                                } else {
                                    assert(e.src == mv && eD.contains(retarget(e, sr)));
                                    let r = retarget(e, sr);
                                    if !eC.contains(r) {
                                        assert(r.dst == mv);
                                        assert(e.dst == mv);
                                    } else {
                                        assert(eC == eB);
                                        if !eA.contains(r) {
                                            assert(r.dst == src2n && !nA.dom().contains(src2n));
                                            assert(!g0n.dom().contains(src2n));
                                            assert(e.dst == c2);
                                        } else {
                                            if !g0e.contains(r) {
                                                assert(r.dst == src1n && !g0n.dom().contains(
                                                    src1n,
                                                ));
                                                assert(e.dst == c1);
                                            }
                                        }
                                    }
                                }
                            }
                            assert forall|m: usize, s: usize|
                                is_matmul_idiom(g.nodes(), g.edges(), m, s) implies is_matmul_idiom(
                                g0n,
                                g0e,
                                m,
                                s,
                            ) && m != mul by {
                                if is_gemv_match(g.nodes(), g.edges(), m, s) {
                                    lemma_idiom_back(
                                        g0n,
                                        g0e,
                                        g.nodes(),
                                        g.edges(),
                                        mul,
                                        sr,
                                        c1,
                                        c2,
                                        mv,
                                        m,
                                        s,
                                        gemv_a_dims(),
                                        gemv_a_fakes(),
                                        gemv_b_dims(),
                                        gemv_b_fakes(),
                                        2,
                                    );
                                }
                                if is_bgemv_match(g.nodes(), g.edges(), m, s) {
                                    lemma_idiom_back(
                                        g0n,
                                        g0e,
                                        g.nodes(),
                                        g.edges(),
                                        mul,
                                        sr,
                                        c1,
                                        c2,
                                        mv,
                                        m,
                                        s,
                                        bgemv_a_dims(),
                                        bgemv_a_fakes(),
                                        bgemv_b_dims(),
                                        bgemv_b_fakes(),
                                        3,
                                    );
                                }
                                if is_gemm_match(g.nodes(), g.edges(), m, s) {
                                    lemma_idiom_back(
                                        g0n,
                                        g0e,
                                        g.nodes(),
                                        g.edges(),
                                        mul,
                                        sr,
                                        c1,
                                        c2,
                                        mv,
                                        m,
                                        s,
                                        gemm_a_dims(),
                                        gemm_a_fakes(),
                                        gemm_b_dims(),
                                        gemm_b_fakes(),
                                        2,
                                    );
                                }
                                if is_bgemm_match(g.nodes(), g.edges(), m, s) {
                                    lemma_idiom_back(
                                        g0n,
                                        g0e,
                                        g.nodes(),
                                        g.edges(),
                                        mul,
                                        sr,
                                        c1,
                                        c2,
                                        mv,
                                        m,
                                        s,
                                        bgemm_a_dims(),
                                        bgemm_a_fakes(),
                                        bgemm_b_dims(),
                                        bgemm_b_fakes(),
                                        3,
                                    );
                                }
                            }
                            assert forall|m: usize, s: usize|
                                is_matmul_idiom(g.nodes(), g.edges(), m, s)
                                    && !g.no_delete@.contains(m) && !g.to_retrieve@.contains(
                                    m,
                                ) implies exists|j: int|
                                i + 1 <= j < c.len() && #[trigger] c[j] == m by {
                                assert(is_matmul_idiom(g0n, g0e, m, s) && m != mul);
                                assert(g0n.dom().contains(m) && g0n[m] is Mul);
                                assert(m != sr);
                                assert(!nd0.contains(m)) by {
                                    if nd0.contains(m) {
                                        let q = choose|q: int|
                                            0 <= q < nd0.len() && nd0[q] == m;
                                        assert(g.no_delete@[q] == m);
                                        assert(g.no_delete@.contains(m));
                                    }
                                }
                                assert(!tr0.contains(m)) by {
                                    if tr0.contains(m) {
                                        let q = choose|q: int|
                                            0 <= q < tr0.len() && tr0[q] == m;
                                        assert(g.to_retrieve@[q] == m);
                                        assert(g.to_retrieve@.contains(m));
                                    }
                                }
                                let j = choose|j: int| i <= j < c.len() && #[trigger] c[j] == m;
                                assert(j != i);
                                assert(i + 1 <= j < c.len() && c[j] == m);
                            }
                            assert forall|t: int|
                                0 <= t < handles@.len() && old(g).to_retrieve@.contains(
                                    old(handles)@[t],
                                ) implies exists|p: int|
                                0 <= p < g.to_retrieve@.len() && #[trigger] g.to_retrieve@[p]
                                    == handles@[t] by {
                                let p0 = choose|p: int|
                                    0 <= p < tr0.len() && #[trigger] tr0[p] == h0[t];
                                assert(g.to_retrieve@[p0] == handles@[t]);
                            }
                            // the pass-entry frame: surviving and replaced nodes
                            assert(g.dyn_map@ == old(g).dyn_map@);
                            assert(g.tensors@ == old(g).tensors@);
                            assert(g0n.dom().contains(mul) && g0n[mul] is Mul);
                            assert(g0n.dom().contains(sr) && g0n[sr] is SumReduce);
                            assert(old(g).nodes().dom().contains(mul) && old(g).nodes()[mul]
                                is Mul);
                            assert(old(g).nodes().dom().contains(sr) && old(g).nodes()[sr]
                                is SumReduce);
                            assert forall|x: usize|
                                g0n.dom().contains(x) && x != mul && x != sr implies
                                g.nodes().dom().contains(x) && g.nodes()[x] == g0n[x] by {
                                assert(nA.dom().contains(x) && nA[x] == g0n[x]);
                                assert(nB.dom().contains(x) && nB[x] == nA[x]);
                                assert(x != mv);
                                assert(nC.dom().contains(x) && nC[x] == nB[x]);
                            }
                            assert(mulsr_preserved(old(g).nodes(), g.nodes())) by {
                                assert forall|x: usize|
                                    #[trigger] g.nodes().dom().contains(x) && (g.nodes()[x] is Mul
                                        || g.nodes()[x] is SumReduce) implies old(g).nodes().dom().contains(x) && g.nodes()[x] == old(g).nodes()[x] by {
                                    assert(g0n.dom().contains(x) && g.nodes()[x] == g0n[x]);
                                }
                            }
                            assert(others_preserved(old(g).nodes(), g.nodes())) by {
                                assert forall|x: usize|
                                    #[trigger] old(g).nodes().dom().contains(x) && !(old(g).nodes()[x] is Mul) && !(old(g).nodes()[x] is SumReduce) implies
                                    g.nodes().dom().contains(x) && g.nodes()[x] == old(g).nodes()[x] by {
                                    assert(g0n.dom().contains(x) && g0n[x] == old(g).nodes()[x]);
                                    assert(x != mul && x != sr);
                                }
                            }
                            assert(g.nodes().dom().contains(mv) && g.nodes()[mv] == op);
                            assert(g.id_remap@ == remap0.push((sr, mv)));
                            assert forall|x: usize|
                                #[trigger] g0n.dom().contains(x) && x != sr && !(g0n[x] is Mul)
                                    implies g.nodes().dom().contains(x) && g.nodes()[x]
                                == g0n[x] by {
                                assert(x != mul);
                            }
                            assert(refs_tracked(
                                old(g).nodes(),
                                old(g).no_delete@,
                                g.no_delete@,
                                g.nodes(),
                                g.id_remap@,
                            )) by {
                                lemma_refs_step(
                                    old(g).nodes(),
                                    old(g).no_delete@,
                                    nd0,
                                    g.no_delete@,
                                    g0n,
                                    g.nodes(),
                                    remap0,
                                    g.id_remap@,
                                    sr,
                                    mv,
                                );
                            }
                            assert(refs_tracked(
                                old(g).nodes(),
                                old(g).to_retrieve@,
                                g.to_retrieve@,
                                g.nodes(),
                                g.id_remap@,
                            )) by {
                                lemma_refs_step(
                                    old(g).nodes(),
                                    old(g).to_retrieve@,
                                    tr0,
                                    g.to_retrieve@,
                                    g0n,
                                    g.nodes(),
                                    remap0,
                                    g.id_remap@,
                                    sr,
                                    mv,
                                );
                            }
                            assert(refs_tracked(
                                old(g).nodes(),
                                old(handles)@,
                                handles@,
                                g.nodes(),
                                g.id_remap@,
                            )) by {
                                lemma_refs_step(
                                    old(g).nodes(),
                                    old(handles)@,
                                    h0,
                                    handles@,
                                    g0n,
                                    g.nodes(),
                                    remap0,
                                    g.id_remap@,
                                    sr,
                                    mv,
                                );
                            }
                            assert(pinned_preserved(
                                old(g).nodes(),
                                old(g).no_delete@,
                                old(g).to_retrieve@,
                                g.nodes(),
                            )) by {
                                assert forall|x: usize|
                                    (old(g).no_delete@.contains(x) || old(g).to_retrieve@.contains(
                                        x,
                                    )) && #[trigger] old(g).nodes().dom().contains(x) && !(old(g).nodes()[x] is SumReduce) implies g.nodes().dom().contains(x)
                                    && g.nodes()[x] == old(g).nodes()[x] by {
                                    assert(g0n.dom().contains(x) && g0n[x] == old(g).nodes()[x]);
                                    assert(x != sr);
                                    if old(g).no_delete@.contains(x) {
                                        let p = choose|p: int|
                                            0 <= p < old(g).no_delete@.len() && old(g).no_delete@[p] == x;
                                        assert(nd0[p] == x);
                                        assert(nd0.contains(x));
                                    } else {
                                        let p = choose|p: int|
                                            0 <= p < old(g).to_retrieve@.len() && old(g).to_retrieve@[p] == x;
                                        assert(tr0[p] == x);
                                        assert(tr0.contains(x));
                                    }
                                    assert(x != mul);
                                }
                            }
                            assert(edges_preserved(
                                old(g).nodes(),
                                old(g).edges(),
                                g.nodes(),
                                g.edges(),
                            )) by {
                                assert forall|e: Edge| #[trigger] old(g).edges().contains(
                                    e,
                                ) implies g.edges().contains(e) || !(g.nodes().dom().contains(e.src)
                                    && g.nodes()[e.src] == old(g).nodes()[e.src]) || !(
                                g.nodes().dom().contains(e.dst) && g.nodes()[e.dst] == old(g).nodes()[e.dst]) by {
                                    if g0e.contains(e) {
                                        if e.src != mul && e.src != sr && e.dst != mul && e.dst
                                            != sr {
                                            assert(eA.contains(e));
                                            assert(eB.contains(e));
                                            assert(eC.contains(e));
                                            assert(eD.contains(e));
                                            assert(eE.contains(e));
                                            assert(g.edges().contains(e));
                                        } else {
                                            if e.src == mul || e.dst == mul {
                                                assert(!g.nodes().dom().contains(mul));
                                            } else {
                                                assert(!g.nodes().dom().contains(sr));
                                            }
                                        }
                                    } else {
                                        // already framed at the iteration's start
                                        assert(old(g).edges().contains(e));
                                        assert(old(g).nodes().dom().contains(e.src) && old(g).nodes().dom().contains(e.dst));
                                        let x = if !(g0n.dom().contains(e.src) && g0n[e.src]
                                            == old(g).nodes()[e.src]) {
                                            e.src
                                        } else {
                                            e.dst
                                        };
                                        assert(old(g).nodes().dom().contains(x));
                                        if g0n.dom().contains(x) && g0n[x] == old(g).nodes()[x] {
                                        } else {
                                            if !g0n.dom().contains(x) {
                                                assert(old(g).nodes()[x] is Mul || old(g).nodes()[x] is SumReduce);
                                                if g.nodes().dom().contains(x) {
                                                    assert(g.nodes()[x] != old(g).nodes()[x])
                                                        by {
                                                        if g.nodes()[x] == old(g).nodes()[x] {
                                                            assert(g0n.dom().contains(x));
                                                        }
                                                    }
                                                }
                                            } else {
                                                assert(g0n[x] != old(g).nodes()[x]);
                                                if x != mul && x != sr {
                                                    assert(g.nodes()[x] == g0n[x]);
                                                } else {
                                                    assert(!g.nodes().dom().contains(x));
                                                }
                                            }
                                        }
                                    }
                                }
                            }
                        }
                    }
                },
            }
            i = i + 1;
        }
        proof {
            assert forall|m: usize, s: usize|
                is_matmul_idiom(g.nodes(), g.edges(), m, s) implies g.no_delete@.contains(m)
                    || g.to_retrieve@.contains(m) by {
                if !g.no_delete@.contains(m) && !g.to_retrieve@.contains(m) {
                    let j = choose|j: int| i <= j < c.len() && #[trigger] c[j] == m;
                    assert(false);
                }
            }
            assert forall|t: int|
                0 <= t < old(handles)@.len() && old(g).to_retrieve@.contains(
                    old(handles)@[t],
                ) implies g.nodes().dom().contains(handles@[t]) by {
                let p = choose|p: int|
                    0 <= p < g.to_retrieve@.len() && #[trigger] g.to_retrieve@[p] == handles@[t];
                assert(g.nodes().dom().contains(g.to_retrieve@[p]));
            }
        }
    }
}

} // verus!
