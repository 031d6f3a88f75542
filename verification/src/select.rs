//! Declarative pattern matching over the graph.
//!
//! A `SelectOp` describes one node: optionally its operator, and for
//! each input slot a shape pattern (constants must match exactly,
//! symbols match any dimension) and a per-axis broadcast-flag pattern.
//! A `SelectEdge` asks for a direct dataflow edge between two such
//! nodes.  `search` finds a match anywhere in the graph, and its
//! contract says exactly when none exists, so rewrite passes can argue
//! that they left no match behind.

use vstd::multiset::Multiset;
use vstd::prelude::*;

use crate::expr::Expr;
use crate::graph::{Edge, Graph, Op};
use crate::shape::AxisView;
use crate::shape::ShapeTracker;

verus! {

broadcast use vstd::seq_lib::group_to_multiset_ensures;

/// One entry of a shape pattern.
#[derive(Clone, Copy)]
pub enum DimPat {
    /// Matches exactly this constant dimension.
    Exact(usize),
    /// Matches any dimension, like a symbol in a written-out pattern.
    Wild,
}

/// An operator pattern: the operator kinds the rewrite passes select on.
#[derive(Clone, Copy)]
pub enum OpPat {
    /// An elementwise multiply node.
    Mul,
    /// A sum-reduction over the given logical axis.
    SumReduce(usize),
    /// A materialising copy node.
    Contiguous,
}

/// Whether a dimension satisfies one pattern entry.
pub open spec fn dim_matches(d: Expr, p: DimPat) -> bool {
    match p {
        DimPat::Exact(n) => d == Expr::Num(n),
        DimPat::Wild => true,
    }
}

/// Whether a broadcast flag satisfies one pattern entry.
pub open spec fn fake_matches(b: bool, p: Option<bool>) -> bool {
    match p {
        Some(x) => b == x,
        None => true,
    }
}

/// Whether a view satisfies a per-axis shape and flag pattern: the rank
/// must equal the pattern length, constants must match, and every
/// constrained flag must agree.
pub open spec fn input_matches(a: Seq<AxisView>, dims: Seq<DimPat>, fks: Seq<Option<bool>>) -> bool {
    &&& a.len() == dims.len()
    &&& forall|k: int| 0 <= k < a.len() ==> dim_matches((#[trigger] a[k]).dim, dims[k])
    &&& forall|k: int| 0 <= k < a.len() && k < fks.len() ==> fake_matches(
        (#[trigger] a[k]).fake,
        fks[k],
    )
}

/// Whether some edge into `n` at input slot `slot` carries a view
/// satisfying the pattern.
pub open spec fn has_input(
    edges: Multiset<Edge>,
    n: usize,
    slot: usize,
    dims: Seq<DimPat>,
    fks: Seq<Option<bool>>,
) -> bool {
    exists|e: Edge|
        #[trigger] edges.contains(e) && e.dst == n && e.input_idx == slot && e.shape.wf()
            && input_matches(e.shape.lview(), dims, fks)
}

/// Whether an operator satisfies an operator pattern.
pub open spec fn op_matches(op: Op, p: OpPat) -> bool {
    match p {
        OpPat::Mul => op is Mul,
        OpPat::SumReduce(d) => op == Op::SumReduce(d),
        OpPat::Contiguous => op is Contiguous,
    }
}

/// A pattern describing one node.
pub struct SelectOp {
    /// Operator constraint, if any.
    pub kind: Option<OpPat>,
    /// Shape pattern per input slot.
    pub shapes: Vec<Vec<DimPat>>,
    /// Broadcast-flag pattern per input slot.
    pub fakes: Vec<Vec<Option<bool>>>,
}

/// The flag pattern a `SelectOp` applies to input `slot`.
pub open spec fn fakes_at(sel: SelectOp, slot: int) -> Seq<Option<bool>> {
    if slot < sel.fakes@.len() {
        sel.fakes@[slot]@
    } else {
        Seq::empty()
    }
}

/// Whether node `n` satisfies the pattern: its operator agrees and each
/// demanded input slot has a satisfying edge.
pub open spec fn node_matches(
    nodes: Map<usize, Op>,
    edges: Multiset<Edge>,
    n: usize,
    sel: SelectOp,
) -> bool {
    &&& nodes.dom().contains(n)
    &&& match sel.kind {
        Some(p) => op_matches(nodes[n], p),
        None => true,
    }
    &&& forall|slot: int|
        0 <= slot < sel.shapes@.len() ==> has_input(
            edges,
            n,
            slot as usize,
            (#[trigger] sel.shapes@[slot])@,
            fakes_at(sel, slot),
        )
}

/// A pattern describing two nodes joined by a dataflow edge.
pub struct SelectEdge {
    /// Pattern for the producer.
    pub src: SelectOp,
    /// Pattern for the consumer.
    pub dst: SelectOp,
}

/// Whether the pair `(a, b)` matches: both node patterns hold and an
/// edge runs from `a` to `b`.
pub open spec fn edge_matches(
    nodes: Map<usize, Op>,
    edges: Multiset<Edge>,
    a: usize,
    b: usize,
    sel: SelectEdge,
) -> bool {
    &&& node_matches(nodes, edges, a, sel.src)
    &&& node_matches(nodes, edges, b, sel.dst)
    &&& exists|e: Edge| #[trigger] edges.contains(e) && e.src == a && e.dst == b
}

impl SelectOp {
    /// The unconstrained pattern.
    pub fn new() -> (r: SelectOp)
        ensures
            r.kind == None::<OpPat>,
            r.shapes@.len() == 0,
            r.fakes@.len() == 0,
    {
        SelectOp { kind: None, shapes: Vec::new(), fakes: Vec::new() }
    }

    /// Constrains the operator.
    pub fn ty(self, p: OpPat) -> (r: SelectOp)
        ensures
            r.kind == Some(p),
            r.shapes@ == self.shapes@,
            r.fakes@ == self.fakes@,
    {
        SelectOp { kind: Some(p), ..self }
    }

    /// Constrains the input shapes.
    pub fn shapes(self, shapes: Vec<Vec<DimPat>>) -> (r: SelectOp)
        ensures
            r.kind == self.kind,
            r.shapes@ == shapes@,
            r.fakes@ == self.fakes@,
    {
        SelectOp { shapes, ..self }
    }

    /// Constrains the broadcast flags.
    pub fn fakes(self, fakes: Vec<Vec<Option<bool>>>) -> (r: SelectOp)
        ensures
            r.kind == self.kind,
            r.shapes@ == self.shapes@,
            r.fakes@ == fakes@,
    {
        SelectOp { fakes, ..self }
    }

    /// Joins two node patterns by a dataflow edge from `self` to `to`.
    pub fn edge(self, to: SelectOp) -> (r: SelectEdge)
        ensures
            r.src == self,
            r.dst == to,
    {
        SelectEdge { src: self, dst: to }
    }
}

/// Whether a dimension satisfies one pattern entry.
pub fn dim_matches_exec(d: &Expr, p: &DimPat) -> (r: bool)
    ensures
        r == dim_matches(*d, *p),
{
    match p {
        DimPat::Exact(n) => match d {
            Expr::Num(m) => m == n,
            _ => false,
        },
        DimPat::Wild => true,
    }
}

/// Whether an operator satisfies an operator pattern.
pub fn op_matches_exec(op: &Op, p: &OpPat) -> (r: bool)
    ensures
        r == op_matches(*op, *p),
{
    match p {
        OpPat::Mul => matches!(op, Op::Mul),
        OpPat::SumReduce(d) => match op {
            Op::SumReduce(x) => x == d,
            _ => false,
        },
        OpPat::Contiguous => matches!(op, Op::Contiguous),
    }
}

/// Whether a view satisfies a shape and flag pattern.
pub fn input_matches_exec(t: &ShapeTracker, dims: &Vec<DimPat>, fks: &Vec<Option<bool>>) -> (r:
    bool)
    requires
        t.wf(),
    ensures
        r == input_matches(t.lview(), dims@, fks@),
{
    let n = t.len();
    if n != dims.len() {
        return false;
    }
    let mut k: usize = 0;
    while k < n
        invariant
            k <= n,
            t.wf(),
            n == t.rank(),
            n == dims@.len(),
            forall|j: int| 0 <= j < k ==> dim_matches((#[trigger] t.lview()[j]).dim, dims@[j]),
            forall|j: int|
                0 <= j < k && j < fks@.len() ==> fake_matches(
                    (#[trigger] t.lview()[j]).fake,
                    fks@[j],
                ),
        decreases n - k,
    {
        if !dim_matches_exec(&t.dims[k], &dims[k]) {
            proof {
                assert((t.lview()[k as int]).dim == t.dims@[k as int]);
            }
            return false;
        }
        if k < fks.len() {
            let ok = match fks[k] {
                Some(x) => t.fake[k] == x,
                None => true,
            };
            if !ok {
                proof {
                    assert((t.lview()[k as int]).fake == t.fake@[k as int]);
                }
                return false;
            }
        }
        k = k + 1;
    }
    true
}

/// Whether some edge into `n` at `slot` satisfies the pattern; the
/// answer is exact in both directions.
pub fn has_input_exec(
    g: &Graph,
    n: usize,
    slot: usize,
    dims: &Vec<DimPat>,
    fks: &Vec<Option<bool>>,
) -> (r: bool)
    ensures
        r == has_input(g.edges(), n, slot, dims@, fks@),
{
    let pool = g.in_edges(n);
    let m = pool.len();
    let mut j: usize = 0;
    while j < m
        invariant
            j <= m,
            m == pool@.len(),
            forall|i: int|
                0 <= i < m ==> g.edges().contains(#[trigger] pool@[i]) && pool@[i].dst == n,
            forall|e: Edge| #[trigger] g.edges().contains(e) && e.dst == n ==> pool@.contains(e),
            forall|q: int|
                0 <= q < j ==> !((#[trigger] pool@[q]).input_idx == slot && pool@[q].shape.wf()
                    && input_matches(pool@[q].shape.lview(), dims@, fks@)),
        decreases m - j,
    {
        if pool[j].input_idx == slot && wf_exec(&pool[j].shape) && input_matches_exec(
            &pool[j].shape,
            dims,
            fks,
        ) {
            proof {
                let e = pool@[j as int];
                assert(g.edges().contains(e) && e.dst == n);
            }
            return true;
        }
        j = j + 1;
    }
    proof {
        assert forall|e: Edge|
            !(#[trigger] g.edges().contains(e) && e.dst == n && e.input_idx == slot
                && e.shape.wf() && input_matches(e.shape.lview(), dims@, fks@)) by {
            if g.edges().contains(e) && e.dst == n {
                assert(pool@.contains(e));
                let q = choose|q: int| 0 <= q < pool@.len() && pool@[q] == e;
                assert(!(pool@[q].input_idx == slot && pool@[q].shape.wf() && input_matches(
                    pool@[q].shape.lview(),
                    dims@,
                    fks@,
                )));
            }
        }
    }
    false
}


/// Whether node `n` satisfies the pattern; the answer is exact in both
/// directions.
pub fn node_matches_exec(g: &Graph, n: usize, sel: &SelectOp) -> (r: bool)
    ensures
        r == node_matches(g.nodes(), g.edges(), n, *sel),
{
    if !g.contains(n) {
        return false;
    }
    match &sel.kind {
        Some(p) => {
            match g.op_of(n) {
                Some(o) => {
                    if !op_matches_exec(&o, p) {
                        return false;
                    }
                },
                None => {
                    return false;
                },
            }
        },
        None => {},
    }
    let ns = sel.shapes.len();
    let mut slot: usize = 0;
    while slot < ns
        invariant
            slot <= ns,
            ns == sel.shapes@.len(),
            forall|t: int|
                0 <= t < slot ==> has_input(
                    g.edges(),
                    n,
                    t as usize,
                    (#[trigger] sel.shapes@[t])@,
                    fakes_at(*sel, t),
                ),
        decreases ns - slot,
    {
        let fk_empty: Vec<Option<bool>> = Vec::new();
        let ok = if slot < sel.fakes.len() {
            has_input_exec(g, n, slot, &sel.shapes[slot], &sel.fakes[slot])
        } else {
            proof {
                assert(fk_empty@ =~= Seq::<Option<bool>>::empty());
            }
            has_input_exec(g, n, slot, &sel.shapes[slot], &fk_empty)
        };
        if !ok {
            proof {
                assert(!has_input(
                    g.edges(),
                    n,
                    slot,
                    sel.shapes@[slot as int]@,
                    fakes_at(*sel, slot as int),
                ));
            }
            return false;
        }
        slot = slot + 1;
    }
    true
}

/// Finds some pair of nodes matching the edge pattern; `None` means no
/// pair in the whole graph matches.
pub fn search(g: &Graph, sel: &SelectEdge) -> (r: Option<(usize, usize)>)
    ensures
        r matches Some(p) ==> edge_matches(g.nodes(), g.edges(), p.0, p.1, *sel),
        r is None ==> forall|a: usize, b: usize|
            !edge_matches(g.nodes(), g.edges(), a, b, *sel),
{
    let ids = g.node_ids();
    let n = ids.len();
    let mut i: usize = 0;
    while i < n
        invariant
            i <= n,
            n == ids@.len(),
            forall|i2: int| 0 <= i2 < n ==> #[trigger] g.nodes().dom().contains(ids@[i2]),
            forall|id: usize| #[trigger] g.nodes().dom().contains(id) ==> ids@.contains(id),
            forall|q: int, b: usize|
                0 <= q < i ==> !(#[trigger] edge_matches(g.nodes(), g.edges(), ids@[q], b, *sel)),
        decreases n - i,
    {
        let a = ids[i];
        if node_matches_exec(g, a, &sel.src) {
            let outs = g.out_edges(a);
            let m = outs.len();
            let mut j: usize = 0;
            while j < m
                invariant
                    j <= m,
                    m == outs@.len(),
                    node_matches(g.nodes(), g.edges(), a, sel.src),
                    forall|t: int|
                        0 <= t < m ==> g.edges().contains(#[trigger] outs@[t]) && outs@[t].src
                            == a,
                    forall|e: Edge|
                        #[trigger] g.edges().contains(e) && e.src == a ==> outs@.contains(e),
                    forall|t: int|
                        0 <= t < j ==> !node_matches(
                            g.nodes(),
                            g.edges(),
                            (#[trigger] outs@[t]).dst,
                            sel.dst,
                        ),
                decreases m - j,
            {
                let b = outs[j].dst;
                if node_matches_exec(g, b, &sel.dst) {
                    proof {
                        assert(g.edges().contains(outs@[j as int]) && outs@[j as int].src == a
                            && outs@[j as int].dst == b);
                    }
                    return Some((a, b));
                }
                j = j + 1;
            }
            proof {
                assert forall|b: usize|
                    !edge_matches(g.nodes(), g.edges(), a, b, *sel) by {
                    if edge_matches(g.nodes(), g.edges(), a, b, *sel) {
                        let e = choose|e: Edge|
                            #[trigger] g.edges().contains(e) && e.src == a && e.dst == b;
                        assert(outs@.contains(e));
                        let q = choose|q: int| 0 <= q < outs@.len() && outs@[q] == e;
                        assert(!node_matches(g.nodes(), g.edges(), outs@[q].dst, sel.dst));
                    }
                }
            }
        } else {
            proof {
                assert forall|b: usize|
                    !edge_matches(g.nodes(), g.edges(), a, b, *sel) by {}
            }
        }
        i = i + 1;
    }
    proof {
        assert forall|a: usize, b: usize|
            !edge_matches(g.nodes(), g.edges(), a, b, *sel) by {
            if edge_matches(g.nodes(), g.edges(), a, b, *sel) {
                assert(g.nodes().dom().contains(a));
                assert(ids@.contains(a));
                let q = choose|q: int| 0 <= q < ids@.len() && ids@[q] == a;
                assert(!edge_matches(g.nodes(), g.edges(), ids@[q], b, *sel));
            }
        }
    }
    None
}

/// Whether the tracker's five vectors agree in length and its physical
/// slots form a permutation.
pub fn wf_exec(t: &ShapeTracker) -> (r: bool)
    ensures
        r == t.wf(),
{
    let n = t.dims.len();
    if t.indexes.len() != n || t.fake.len() != n || t.mask.len() != n || t.padding.len() != n {
        return false;
    }
    let mut i: usize = 0;
    while i < n
        invariant
            i <= n,
            n == t.dims@.len(),
            n == t.indexes@.len(),
            forall|q: int| 0 <= q < i ==> #[trigger] t.indexes@[q] < n,
        decreases n - i,
    {
        if t.indexes[i] >= n {
            return false;
        }
        i = i + 1;
    }
    let mut x: usize = 0;
    while x < n
        invariant
            x <= n,
            n == t.dims@.len(),
            n == t.indexes@.len(),
            forall|a: int, b: int| 0 <= a < b < n && a < x ==> t.indexes@[a] != t.indexes@[b],
        decreases n - x,
    {
        let mut y: usize = x + 1;
        while y < n
            invariant
                x < y || y == x + 1,
                y <= n || y == x + 1,
                x < n,
                n == t.indexes@.len(),
                n == t.dims@.len(),
                forall|b: int| x < b < y ==> t.indexes@[x as int] != t.indexes@[b],
            decreases n - y,
        {
            if t.indexes[x] == t.indexes[y] {
                proof {
                    assert(t.indexes@[x as int] == t.indexes@[y as int]);
                }
                return false;
            }
            y = y + 1;
        }
        x = x + 1;
    }
    let mut p: usize = 0;
    while p < n
        invariant
            p <= n,
            n == t.dims@.len(),
            n == t.indexes@.len(),
            forall|q: int| 0 <= q < p ==> #[trigger] crate::shape::contains_slot(t.indexes@, q),
        decreases n - p,
    {
        let mut j: usize = 0;
        let mut found = false;
        while j < n
            invariant
                j <= n,
                n == t.indexes@.len(),
                n == t.dims@.len(),
                found ==> crate::shape::contains_slot(t.indexes@, p as int),
                !found ==> forall|q: int| 0 <= q < j ==> t.indexes@[q] != p,
            decreases n - j,
        {
            if t.indexes[j] == p {
                found = true;
                proof {
                    assert(t.indexes@[j as int] == p as int);
                }
            }
            j = j + 1;
        }
        if !found {
            proof {
                if crate::shape::contains_slot(t.indexes@, p as int) {
                    let q = choose|q: int|
                        0 <= q < t.indexes@.len() && t.indexes@[q] == p as int;
                    assert(false);
                }
            }
            return false;
        }
        p = p + 1;
    }
    true
}

} // verus!
