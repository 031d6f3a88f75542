//! The computation graph: primitive operator nodes joined by dataflow
//! edges that carry a view of the producer's output.
//!
//! Besides the node and edge store the graph keeps the set of nodes the
//! user pinned against deletion, the set whose buffers must be returned
//! after execution, the symbol table for runtime-sized dimensions, the
//! id redirection table that rewrite passes fill so user handles stay
//! valid, and the input data attached to source nodes.

use vstd::multiset::Multiset;
use vstd::prelude::*;

use crate::expr::Expr;
use crate::matmul::{MatVec, MatVec1Row, Matmul};
use crate::shape::ShapeTracker;
use crate::store::{
    edges_of, nodes_of, store_add_edge, store_add_node, store_contains, store_in_edges,
    store_node_ids, store_op_of, store_out_edges, store_remove_node, NodeStore,
};

verus! {

broadcast use vstd::seq_lib::group_to_multiset_ensures;

/// Payload of a `Function` node: a host-side generator registered in
/// the graph instead of a device kernel.
#[derive(Clone)]
pub enum FunctionKind {
    /// Produces the data the user attached to the node.
    Load,
    /// Produces `0, 1, .., n-1` for the runtime value `n` of the expression.
    Arange(Expr),
    /// Produces the single runtime value of the named symbol.
    SymValue(char),
}

/// A primitive operator instance, or one of the kernel nodes a rewrite
/// pass emits.
#[derive(Clone)]
pub enum Op {
    /// Elementwise product of two operands.
    Mul,
    /// Elementwise sum of two operands.
    Add,
    /// Elementwise reciprocal.
    Recip,
    /// Elementwise exponential.
    Exp,
    /// Elementwise natural logarithm.
    Log,
    /// Elementwise sine.
    Sin,
    /// Elementwise square root.
    Sqrt,
    /// Elementwise comparison of two operands.
    LessThan,
    /// Elementwise remainder of two operands.
    Mod,
    /// Sum over one logical axis.
    SumReduce(usize),
    /// Maximum over one logical axis.
    MaxReduce(usize),
    /// Materialises its input view into a fresh row-major buffer.
    Contiguous,
    /// User-parameterised generator node.
    Function(FunctionKind),
    /// Strided matrix-vector kernel emitted by the matmul pass.
    MatVec1Row(MatVec1Row),
    /// Tiled matrix-vector kernel emitted by the matmul pass.
    MatVec(MatVec),
    /// Tiled matrix-matrix kernel emitted by the matmul pass.
    Matmul(Matmul),
}

/// One dataflow edge: output slot `src_out` of node `src` feeds input
/// slot `input_idx` of node `dst`, read through the view `shape`.
pub struct Edge {
    /// Producer node.
    pub src: usize,
    /// Consumer node.
    pub dst: usize,
    /// Which output of the producer.
    pub src_out: usize,
    /// Which input slot of the consumer.
    pub input_idx: usize,
    /// The view the consumer reads the producer's buffer through.
    pub shape: ShapeTracker,
}

/// The edge `e` rerouted to leave from `s` instead.
pub open spec fn retarget(e: Edge, s: usize) -> Edge {
    Edge { src: s, ..e }
}

/// Every id in the list names a present node.
pub open spec fn ids_present(ids: Seq<usize>, nodes: Map<usize, Op>) -> bool {
    forall|i: int| 0 <= i < ids.len() ==> nodes.dom().contains(#[trigger] ids[i])
}

/// Every edge joins present nodes.
pub open spec fn edges_closed(nodes: Map<usize, Op>, edges: Multiset<Edge>) -> bool {
    forall|e: Edge|
        #[trigger] edges.contains(e) ==> nodes.dom().contains(e.src) && nodes.dom().contains(
            e.dst,
        )
}

/// Presence of listed ids survives adding a node.
pub proof fn lemma_ids_present_insert(ids: Seq<usize>, nodes: Map<usize, Op>, k: usize, v: Op)
    requires
        ids_present(ids, nodes),
    ensures
        ids_present(ids, nodes.insert(k, v)),
{
    assert forall|i: int| 0 <= i < ids.len() implies nodes.insert(k, v).dom().contains(
        #[trigger] ids[i],
    ) by {
        assert(nodes.dom().contains(ids[i]));
    }
}

/// Presence of listed ids survives removing a node none of them names.
pub proof fn lemma_ids_present_remove(ids: Seq<usize>, nodes: Map<usize, Op>, k: usize)
    requires
        ids_present(ids, nodes),
        forall|i: int| 0 <= i < ids.len() ==> ids[i] != k,
    ensures
        ids_present(ids, nodes.remove(k)),
{
    assert forall|i: int| 0 <= i < ids.len() implies nodes.remove(k).dom().contains(
        #[trigger] ids[i],
    ) by {
        assert(nodes.dom().contains(ids[i]));
    }
}

/// Appending a present id keeps the list present.
pub proof fn lemma_ids_present_push(ids: Seq<usize>, nodes: Map<usize, Op>, id: usize)
    requires
        ids_present(ids, nodes),
        nodes.dom().contains(id),
    ensures
        ids_present(ids.push(id), nodes),
{
    assert forall|i: int| 0 <= i < ids.push(id).len() implies nodes.dom().contains(
        #[trigger] ids.push(id)[i],
    ) by {
        if i < ids.len() {
            assert(ids.push(id)[i] == ids[i]);
            assert(nodes.dom().contains(ids[i]));
        } else {
            assert(ids.push(id)[i] == id);
        }
    }
}

/// Edge closure survives adding a node.
pub proof fn lemma_edges_closed_insert_node(
    nodes: Map<usize, Op>,
    edges: Multiset<Edge>,
    k: usize,
    v: Op,
)
    requires
        edges_closed(nodes, edges),
    ensures
        edges_closed(nodes.insert(k, v), edges),
{
    assert forall|e: Edge| #[trigger] edges.contains(e) implies nodes.insert(
        k,
        v,
    ).dom().contains(e.src) && nodes.insert(k, v).dom().contains(e.dst) by {
        assert(nodes.dom().contains(e.src) && nodes.dom().contains(e.dst));
    }
}

/// Edge closure survives adding an edge between present nodes.
pub proof fn lemma_edges_closed_insert_edge(nodes: Map<usize, Op>, edges: Multiset<Edge>, e: Edge)
    requires
        edges_closed(nodes, edges),
        nodes.dom().contains(e.src),
        nodes.dom().contains(e.dst),
    ensures
        edges_closed(nodes, edges.insert(e)),
{
    assert forall|x: Edge| #[trigger] edges.insert(e).contains(x) implies nodes.dom().contains(
        x.src,
    ) && nodes.dom().contains(x.dst) by {
        if x != e {
            assert(edges.contains(x));
        }
    }
}

/// Edge closure survives removing a node with all its incident edges.
pub proof fn lemma_edges_closed_remove_node(nodes: Map<usize, Op>, edges: Multiset<Edge>, k: usize)
    requires
        edges_closed(nodes, edges),
    ensures
        edges_closed(nodes.remove(k), edges.filter(|e: Edge| e.src != k && e.dst != k)),
{
    let f = |e: Edge| e.src != k && e.dst != k;
    assert forall|x: Edge| #[trigger] edges.filter(f).contains(x) implies nodes.remove(
        k,
    ).dom().contains(x.src) && nodes.remove(k).dom().contains(x.dst) by {
        assert(edges.filter(f).count(x) > 0);
        assert(edges.contains(x) && f(x));
    }
}

/// A lazy computation graph.
pub struct Graph {
    /// Node and edge store.
    pub store: NodeStore,
    /// Nodes no rewrite pass may remove.
    pub no_delete: Vec<usize>,
    /// Nodes whose buffers are kept for the caller after execution.
    pub to_retrieve: Vec<usize>,
    /// Runtime values of the symbolic dimensions.
    pub dyn_map: Vec<(char, usize)>,
    /// Redirections `(removed, replacement)` accumulated by rewrites.
    pub id_remap: Vec<(usize, usize)>,
    /// Input data attached to source nodes.
    pub tensors: Vec<(usize, Vec<i64>)>,
}

impl Graph {
    /// The store's nodes: id to operator.
    pub open spec fn nodes(self) -> Map<usize, Op> {
        nodes_of(self.store)
    }

    /// The store's edges.
    pub open spec fn edges(self) -> Multiset<Edge> {
        edges_of(self.store)
    }

    /// Well-formedness: pinned and retrieved ids name present nodes,
    /// and every edge joins present nodes.
    pub open spec fn wf(self) -> bool {
        &&& ids_present(self.no_delete@, self.nodes())
        &&& ids_present(self.to_retrieve@, self.nodes())
        &&& edges_closed(self.nodes(), self.edges())
    }

    /// An empty graph.
    ///
    /// Relies on `StableGraph::default`: the fresh store has no nodes
    /// and no edges.
    #[verifier::external_body]
    pub fn new() -> (r: Graph)
        ensures
            r.wf(),
            forall|id: usize| !r.nodes().dom().contains(id),
            r.edges() == Multiset::<Edge>::empty(),
            r.no_delete@ == Seq::<usize>::empty(),
            r.to_retrieve@ == Seq::<usize>::empty(),
            r.dyn_map@.len() == 0,
            r.id_remap@.len() == 0,
            r.tensors@.len() == 0,
    {
        Graph {
            store: petgraph::stable_graph::StableGraph::default(),
            no_delete: Vec::new(),
            to_retrieve: Vec::new(),
            dyn_map: Vec::new(),
            id_remap: Vec::new(),
            tensors: Vec::new(),
        }
    }

    /// Appends an operator node and returns its fresh id.
    pub fn add_op(&mut self, op: Op) -> (id: usize)
        requires
            old(self).wf(),
        ensures
            final(self).wf(),
            !old(self).nodes().dom().contains(id),
            final(self).nodes() == old(self).nodes().insert(id, op),
            final(self).edges() == old(self).edges(),
            final(self).no_delete@ == old(self).no_delete@,
            final(self).to_retrieve@ == old(self).to_retrieve@,
            final(self).dyn_map@ == old(self).dyn_map@,
            final(self).id_remap@ == old(self).id_remap@,
            final(self).tensors@ == old(self).tensors@,
    {
        let id = store_add_node(&mut self.store, op);
        proof {
            lemma_ids_present_insert(old(self).no_delete@, old(self).nodes(), id, op);
            lemma_ids_present_insert(old(self).to_retrieve@, old(self).nodes(), id, op);
            lemma_edges_closed_insert_node(old(self).nodes(), old(self).edges(), id, op);
        }
        id
    }

    /// Connects output `src_out` of `src` to input slot `input_idx` of
    /// `dst`, read through `shape`.
    pub fn add_edge(&mut self, src: usize, dst: usize, src_out: usize, input_idx: usize, shape: ShapeTracker)
        requires
            old(self).wf(),
            old(self).nodes().dom().contains(src),
            old(self).nodes().dom().contains(dst),
        ensures
            final(self).wf(),
            final(self).nodes() == old(self).nodes(),
            final(self).edges() == old(self).edges().insert(
                (Edge { src, dst, src_out, input_idx, shape }),
            ),
            final(self).no_delete@ == old(self).no_delete@,
            final(self).to_retrieve@ == old(self).to_retrieve@,
            final(self).dyn_map@ == old(self).dyn_map@,
            final(self).id_remap@ == old(self).id_remap@,
            final(self).tensors@ == old(self).tensors@,
    {
        store_add_edge(&mut self.store, src, dst, src_out, input_idx, shape);
        proof {
            lemma_edges_closed_insert_edge(
                old(self).nodes(),
                old(self).edges(),
                Edge { src, dst, src_out, input_idx, shape },
            );
        }
    }

    /// Removes a node and all its incident edges.
    pub fn remove_node(&mut self, id: usize)
        requires
            old(self).wf(),
            forall|i: int| 0 <= i < old(self).no_delete@.len() ==> old(self).no_delete@[i] != id,
            forall|i: int|
                0 <= i < old(self).to_retrieve@.len() ==> old(self).to_retrieve@[i] != id,
        ensures
            final(self).wf(),
            final(self).nodes() == old(self).nodes().remove(id),
            final(self).edges() == old(self).edges().filter(
                |e: Edge| e.src != id && e.dst != id,
            ),
            final(self).no_delete@ == old(self).no_delete@,
            final(self).to_retrieve@ == old(self).to_retrieve@,
            final(self).dyn_map@ == old(self).dyn_map@,
            final(self).id_remap@ == old(self).id_remap@,
            final(self).tensors@ == old(self).tensors@,
    {
        store_remove_node(&mut self.store, id);
        proof {
            lemma_ids_present_remove(old(self).no_delete@, old(self).nodes(), id);
            lemma_ids_present_remove(old(self).to_retrieve@, old(self).nodes(), id);
            lemma_edges_closed_remove_node(old(self).nodes(), old(self).edges(), id);
        }
    }

    /// Whether the node is present.
    pub fn contains(&self, id: usize) -> (r: bool)
        ensures
            r == self.nodes().dom().contains(id),
    {
        store_contains(&self.store, id)
    }

    /// The operator stored at `id`, if present.
    pub fn op_of(&self, id: usize) -> (r: Option<Op>)
        ensures
            r == if self.nodes().dom().contains(id) {
                Some(self.nodes()[id])
            } else {
                None::<Op>
            },
    {
        store_op_of(&self.store, id)
    }

    /// Every present node id, each exactly once.
    pub fn node_ids(&self) -> (r: Vec<usize>)
        ensures
            r@.no_duplicates(),
            forall|i: int| 0 <= i < r@.len() ==> #[trigger] self.nodes().dom().contains(r@[i]),
            forall|id: usize| #[trigger] self.nodes().dom().contains(id) ==> r@.contains(id),
    {
        store_node_ids(&self.store)
    }

    /// The edges into `id`, in no particular order.
    pub fn in_edges(&self, id: usize) -> (r: Vec<Edge>)
        ensures
            r@.to_multiset() == self.edges().filter(|e: Edge| e.dst == id),
            forall|i: int|
                0 <= i < r@.len() ==> self.edges().contains(#[trigger] r@[i]) && r@[i].dst == id,
            forall|e: Edge| #[trigger] self.edges().contains(e) && e.dst == id ==> r@.contains(e),
    {
        store_in_edges(&self.store, id)
    }

    /// The edges out of `id`, in no particular order.
    pub fn out_edges(&self, id: usize) -> (r: Vec<Edge>)
        ensures
            r@.to_multiset() == self.edges().filter(|e: Edge| e.src == id),
            forall|i: int|
                0 <= i < r@.len() ==> self.edges().contains(#[trigger] r@[i]) && r@[i].src == id,
            forall|e: Edge| #[trigger] self.edges().contains(e) && e.src == id ==> r@.contains(e),
    {
        store_out_edges(&self.store, id)
    }

    /// Pins a node: no rewrite pass may remove it.
    pub fn pin(&mut self, id: usize)
        requires
            old(self).wf(),
            old(self).nodes().dom().contains(id),
        ensures
            final(self).wf(),
            final(self).no_delete@ == old(self).no_delete@.push(id),
            final(self).nodes() == old(self).nodes(),
            final(self).edges() == old(self).edges(),
            final(self).to_retrieve@ == old(self).to_retrieve@,
            final(self).dyn_map@ == old(self).dyn_map@,
            final(self).id_remap@ == old(self).id_remap@,
            final(self).tensors@ == old(self).tensors@,
    {
        self.no_delete.push(id);
        proof {
            lemma_ids_present_push(old(self).no_delete@, old(self).nodes(), id);
        }
    }

    /// Marks a node's output buffer for retrieval after execution.
    pub fn mark_retrieve(&mut self, id: usize)
        requires
            old(self).wf(),
            old(self).nodes().dom().contains(id),
        ensures
            final(self).wf(),
            final(self).to_retrieve@ == old(self).to_retrieve@.push(id),
            final(self).nodes() == old(self).nodes(),
            final(self).edges() == old(self).edges(),
            final(self).no_delete@ == old(self).no_delete@,
            final(self).dyn_map@ == old(self).dyn_map@,
            final(self).id_remap@ == old(self).id_remap@,
            final(self).tensors@ == old(self).tensors@,
    {
        self.to_retrieve.push(id);
        proof {
            lemma_ids_present_push(old(self).to_retrieve@, old(self).nodes(), id);
        }
    }

    /// Binds the runtime value of a symbolic dimension; a new binding
    /// shadows an older one of the same symbol.
    pub fn set_dyn(&mut self, c: char, v: usize)
        requires
            old(self).wf(),
        ensures
            final(self).wf(),
            final(self).dyn_map@ == seq![(c, v)] + old(self).dyn_map@,
            final(self).nodes() == old(self).nodes(),
            final(self).edges() == old(self).edges(),
            final(self).no_delete@ == old(self).no_delete@,
            final(self).to_retrieve@ == old(self).to_retrieve@,
            final(self).id_remap@ == old(self).id_remap@,
            final(self).tensors@ == old(self).tensors@,
    {
        self.dyn_map.insert(0, (c, v));
        proof {
            assert(self.dyn_map@ =~= seq![(c, v)] + old(self).dyn_map@);
        }
    }

    /// Attaches input data to a source node; a new binding shadows an
    /// older one for the same node.
    pub fn set_tensor(&mut self, id: usize, data: Vec<i64>)
        requires
            old(self).wf(),
        ensures
            final(self).wf(),
            final(self).tensors@ == seq![(id, data)] + old(self).tensors@,
            final(self).nodes() == old(self).nodes(),
            final(self).edges() == old(self).edges(),
            final(self).no_delete@ == old(self).no_delete@,
            final(self).to_retrieve@ == old(self).to_retrieve@,
            final(self).dyn_map@ == old(self).dyn_map@,
            final(self).id_remap@ == old(self).id_remap@,
    {
        self.tensors.insert(0, (id, data));
        proof {
            assert(self.tensors@ =~= seq![(id, data)] + old(self).tensors@);
        }
    }

    /// The edges feeding a node, ordered by input slot: entry `i` is
    /// an edge into slot `i`, every slot below the result's length is
    /// reported, and the result ends at the first unfilled slot.
    pub fn get_sources(&self, n: usize) -> (r: Vec<Edge>)
        ensures
            forall|i: int|
                0 <= i < r@.len() ==> self.edges().contains(#[trigger] r@[i]) && r@[i].dst == n
                    && r@[i].input_idx == i,
            forall|e: Edge|
                #[trigger] self.edges().contains(e) && e.dst == n ==> e.input_idx != r@.len(),
    {
        let mut pool = self.in_edges(n);
        proof {
            assert forall|j: int| 0 <= j < pool@.len() implies self.edges().contains(
                #[trigger] pool@[j],
            ) && pool@[j].dst == n by {}
        }
        let mut r: Vec<Edge> = Vec::new();
        let arity = pool.len();
        let mut slot: usize = 0;
        while slot < arity
            invariant
                slot <= arity,
                r@.len() == slot,
                pool@.len() + slot == arity,
                forall|j: int|
                    0 <= j < pool@.len() ==> self.edges().contains(#[trigger] pool@[j])
                        && pool@[j].dst == n,
                forall|e: Edge|
                    #[trigger] self.edges().contains(e) && e.dst == n && e.input_idx >= slot
                        ==> pool@.contains(e),
                forall|i: int|
                    0 <= i < r@.len() ==> self.edges().contains(#[trigger] r@[i]) && r@[i].dst == n
                        && r@[i].input_idx == i,
            decreases arity - slot,
        {
            let ghost pre = pool@;
            match take_slot(&mut pool, slot) {
                Some(e) => {
                    proof {
                        let q = choose|q: int| 0 <= q < pre.len() && pre[q] == e;
                        assert(self.edges().contains(pre[q]));
                        assert forall|j: int| 0 <= j < pool@.len() implies self.edges().contains(
                            #[trigger] pool@[j],
                        ) && pool@[j].dst == n by {
                            assert(pool@.contains(pool@[j]));
                            assert(pre.contains(pool@[j]));
                            let q2 = choose|q2: int| 0 <= q2 < pre.len() && pre[q2] == pool@[j];
                            assert(self.edges().contains(pre[q2]));
                        }
                        assert forall|x: Edge|
                            #[trigger] self.edges().contains(x) && x.dst == n && x.input_idx
                                >= slot + 1 implies pool@.contains(x) by {
                            assert(pre.contains(x));
                        }
                    }
                    r.push(e);
                },
                None => {
                    proof {
                        assert forall|e: Edge|
                            #[trigger] self.edges().contains(e) && e.dst == n implies e.input_idx
                            != r@.len() by {
                            if e.input_idx == r@.len() {
                                assert(pool@.contains(e));
                                let q = choose|q: int|
                                    0 <= q < pool@.len() && pool@[q] == e;
                                assert(pool@[q].input_idx != slot);
                            }
                        }
                    }
                    return r;
                },
            }
            slot = slot + 1;
        }
        proof {
            assert(pool@.len() == 0);
            assert forall|e: Edge|
                #[trigger] self.edges().contains(e) && e.dst == n implies e.input_idx
                != r@.len() by {
                if e.input_idx == r@.len() {
                    assert(pool@.contains(e));
                    let q = choose|q: int| 0 <= q < pool@.len() && pool@[q] == e;
                }
            }
        }
        r
    }

    /// Copies every edge leaving `from` onto `to`, keeping slot numbers
    /// and views; the originals stay until `from` is removed.
    pub fn move_outgoing_edge(&mut self, from: usize, to: usize)
        requires
            old(self).wf(),
            old(self).nodes().dom().contains(to),
        ensures
            final(self).wf(),
            final(self).nodes() == old(self).nodes(),
            forall|e: Edge|
                #[trigger] final(self).edges().contains(e) ==> old(self).edges().contains(e) || (
                e.src == to && old(self).edges().contains(retarget(e, from))),
            forall|e: Edge|
                #[trigger] old(self).edges().contains(e) ==> final(self).edges().contains(e),
            forall|e: Edge|
                #[trigger] old(self).edges().contains(e) && e.src == from ==> final(self).edges().contains(retarget(e, to)),
            final(self).no_delete@ == old(self).no_delete@,
            final(self).to_retrieve@ == old(self).to_retrieve@,
            final(self).dyn_map@ == old(self).dyn_map@,
            final(self).id_remap@ == old(self).id_remap@,
            final(self).tensors@ == old(self).tensors@,
    {
        let mut outs = store_out_edges(&self.store, from);
        proof {
            assert forall|e: Edge| old(self).edges().contains(e) && e.src == from implies outs@.contains(
                e,
            ) by {
                assert(outs@.to_multiset().count(e) == old(self).edges().filter(
                    |x: Edge| x.src == from,
                ).count(e));
            }
            assert forall|j: int| 0 <= j < outs@.len() implies old(self).edges().contains(
                #[trigger] outs@[j],
            ) && outs@[j].src == from by {
                assert(outs@.to_multiset().count(outs@[j]) > 0);
            }
        }
        while outs.len() > 0
            invariant
                self.wf(),
                self.nodes() == old(self).nodes(),
                old(self).nodes().dom().contains(to),
                forall|j: int| 0 <= j < outs@.len() ==> old(self).edges().contains(
                    #[trigger] outs@[j],
                ) && outs@[j].src == from,
                forall|e: Edge|
                    #[trigger] self.edges().contains(e) ==> old(self).edges().contains(e) || (
                    e.src == to && old(self).edges().contains(retarget(e, from))),
                forall|e: Edge|
                    #[trigger] old(self).edges().contains(e) ==> self.edges().contains(e),
                forall|e: Edge|
                    #[trigger] old(self).edges().contains(e) && e.src == from ==> outs@.contains(e)
                        || self.edges().contains(retarget(e, to)),
                self.no_delete@ == old(self).no_delete@,
                self.to_retrieve@ == old(self).to_retrieve@,
                self.dyn_map@ == old(self).dyn_map@,
                self.id_remap@ == old(self).id_remap@,
                self.tensors@ == old(self).tensors@,
            decreases outs@.len(),
        {
            let ghost prev = outs@;
            let e = outs.pop().unwrap();
            proof {
                assert(e == prev.last());
                assert(outs@ =~= prev.drop_last());
                assert(prev[prev.len() - 1] == e);
                assert(old(self).edges().contains(e) && e.src == from);
            }
            let dst = e.dst;
            let ghost pre_nodes = self.nodes();
            let ghost pre_edges = self.edges();
            store_add_edge(&mut self.store, to, dst, e.src_out, e.input_idx, e.shape);
            proof {
                let added = Edge {
                    src: to,
                    dst: e.dst,
                    src_out: e.src_out,
                    input_idx: e.input_idx,
                    shape: e.shape,
                };
                assert(pre_nodes.dom().contains(e.dst));
                lemma_edges_closed_insert_edge(pre_nodes, pre_edges, added);
                assert(retarget(added, from) == e);
                assert(retarget(e, to) == added);
                assert(self.edges().contains(added));
                assert forall|x: Edge|
                    #[trigger] old(self).edges().contains(x) && x.src == from implies outs@.contains(
                    x,
                ) || self.edges().contains(retarget(x, to)) by {
                    if prev.contains(x) {
                        let j = choose|j: int| 0 <= j < prev.len() && prev[j] == x;
                        if j < prev.len() - 1 {
                            assert(outs@[j] == x);
                        } else {
                            assert(x == e);
                            assert(self.edges().contains(retarget(x, to)));
                        }
                    } else {
                        assert(pre_edges.contains(retarget(x, to)));
                        assert(self.edges().contains(retarget(x, to)));
                    }
                }
                assert forall|x: Edge| #[trigger] self.edges().contains(x) implies old(self).edges().contains(x) || (x.src == to && old(self).edges().contains(
                    retarget(x, from),
                )) by {
                    if x != added {
                        assert(pre_edges.contains(x));
                    } else {
                        assert(old(self).edges().contains(retarget(added, from)));
                    }
                }
            }
        }
    }

    /// Replaces `from` by `to` in the pinned set, the retrieval set and
    /// the caller's handles, and records the redirection.
    pub fn move_references(&mut self, handles: &mut Vec<usize>, from: usize, to: usize)
        requires
            old(self).wf(),
            old(self).nodes().dom().contains(to),
        ensures
            final(self).wf(),
            final(self).nodes() == old(self).nodes(),
            final(self).edges() == old(self).edges(),
            final(self).id_remap@ == old(self).id_remap@.push((from, to)),
            final(self).no_delete@.len() == old(self).no_delete@.len(),
            forall|i: int|
                0 <= i < old(self).no_delete@.len() ==> final(self).no_delete@[i] == (if old(self).no_delete@[i] == from {
                    to
                } else {
                    old(self).no_delete@[i]
                }),
            final(self).to_retrieve@.len() == old(self).to_retrieve@.len(),
            forall|i: int|
                0 <= i < old(self).to_retrieve@.len() ==> final(self).to_retrieve@[i] == (if old(self).to_retrieve@[i] == from {
                    to
                } else {
                    old(self).to_retrieve@[i]
                }),
            final(handles)@.len() == old(handles)@.len(),
            forall|i: int|
                0 <= i < old(handles)@.len() ==> final(handles)@[i] == (if old(handles)@[i] == from {
                    to
                } else {
                    old(handles)@[i]
                }),
            final(self).dyn_map@ == old(self).dyn_map@,
            final(self).tensors@ == old(self).tensors@,
    {
        replace_ids(&mut self.no_delete, from, to);
        replace_ids(&mut self.to_retrieve, from, to);
        replace_ids(handles, from, to);
        self.id_remap.push((from, to));
        proof {
            assert forall|i: int| 0 <= i < self.no_delete@.len() implies self.nodes().dom().contains(
                #[trigger] self.no_delete@[i],
            ) by {
                assert(old(self).nodes().dom().contains(old(self).no_delete@[i]));
            }
            assert forall|i: int|
                0 <= i < self.to_retrieve@.len() implies self.nodes().dom().contains(
                #[trigger] self.to_retrieve@[i],
            ) by {
                assert(old(self).nodes().dom().contains(old(self).to_retrieve@[i]));
            }
        }
    }
}

/// Replaces every occurrence of `from` by `to`.
pub fn replace_ids(v: &mut Vec<usize>, from: usize, to: usize)
    ensures
        final(v)@.len() == old(v)@.len(),
        forall|i: int|
            0 <= i < old(v)@.len() ==> final(v)@[i] == (if old(v)@[i] == from {
                to
            } else {
                old(v)@[i]
            }),
{
    let n = v.len();
    let mut i: usize = 0;
    while i < n
        invariant
            i <= n,
            n == v@.len(),
            v@.len() == old(v)@.len(),
            forall|j: int|
                0 <= j < i ==> v@[j] == (if old(v)@[j] == from {
                    to
                } else {
                    old(v)@[j]
                }),
            forall|j: int| i <= j < n ==> v@[j] == old(v)@[j],
        decreases n - i,
    {
        if v[i] == from {
            v.set(i, to);
        }
        i = i + 1;
    }
}

/// Removes and returns some edge with input slot `slot` from the pool,
/// or reports that the pool has none.
pub fn take_slot(pool: &mut Vec<Edge>, slot: usize) -> (r: Option<Edge>)
    ensures
        match r {
            Some(e) => {
                &&& e.input_idx == slot
                &&& old(pool)@.contains(e)
                &&& final(pool)@.len() == old(pool)@.len() - 1
                &&& forall|x: Edge|
                    #[trigger] final(pool)@.contains(x) ==> old(pool)@.contains(x)
                &&& forall|x: Edge|
                    #[trigger] old(pool)@.contains(x) && x.input_idx != slot ==> final(pool)@.contains(x)
            },
            None => {
                &&& final(pool)@ == old(pool)@
                &&& forall|j: int| 0 <= j < old(pool)@.len() ==> (#[trigger] old(pool)@[j]).input_idx != slot
            },
        },
{
    let n = pool.len();
    let mut i: usize = 0;
    while i < n
        invariant
            i <= n,
            n == pool@.len(),
            pool@ == old(pool)@,
            forall|j: int| 0 <= j < i ==> (#[trigger] pool@[j]).input_idx != slot,
        decreases n - i,
    {
        if pool[i].input_idx == slot {
            let e = pool.remove(i);
            proof {
                assert(old(pool)@[i as int] == e);
                assert forall|x: Edge| #[trigger] pool@.contains(x) implies old(pool)@.contains(
                    x,
                ) by {
                    let j = choose|j: int| 0 <= j < pool@.len() && pool@[j] == x;
                    if j < i {
                        assert(old(pool)@[j] == x);
                    } else {
                        assert(old(pool)@[j + 1] == x);
                    }
                }
                assert forall|x: Edge|
                    old(pool)@.contains(x) && x.input_idx != slot implies pool@.contains(x) by {
                    let j = choose|j: int| 0 <= j < old(pool)@.len() && old(pool)@[j] == x;
                    if j < i {
                        assert(pool@[j] == x);
                    } else {
                        assert(j != i);
                        assert(pool@[j - 1] == x);
                    }
                }
            }
            return Some(e);
        }
        i = i + 1;
    }
    None
}

} // verus!
