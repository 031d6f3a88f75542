//! The node and edge store of the computation graph.
//!
//! The store is a stable directed multigraph from the `petgraph` crate:
//! node indices survive removals of other nodes, which the rewrite
//! passes depend on.  Verus sees the store through two names — the map
//! from node id to operator, and the multiset of edges — and through
//! small trusted wrappers around the handful of `StableGraph` methods
//! the library calls.

use vstd::multiset::Multiset;
use vstd::prelude::*;

use petgraph::visit::EdgeRef;

use crate::graph::{Edge, Op};
use crate::shape::ShapeTracker;

verus! {

#[verifier::external_type_specification]
#[verifier::external_body]
#[verifier::reject_recursive_types(N)]
#[verifier::reject_recursive_types(E)]
#[verifier::reject_recursive_types(Ty)]
#[verifier::reject_recursive_types(Ix)]
pub struct ExStableGraph<N, E, Ty, Ix>(petgraph::stable_graph::StableGraph<N, E, Ty, Ix>);

#[verifier::external_type_specification]
#[verifier::external_body]
pub struct ExDirected(petgraph::Directed);

/// The concrete store: operators on the nodes, `(output slot, input
/// slot, view)` triples on the edges, `usize` indices.
pub type NodeStore = petgraph::stable_graph::StableGraph<
    Op,
    (usize, usize, ShapeTracker),
    petgraph::Directed,
    usize,
>;

/// What the store's nodes hold: each present node id maps to its operator.
pub uninterp spec fn nodes_of(g: NodeStore) -> Map<usize, Op>;

/// What the store's edges hold, with their endpoints.
pub uninterp spec fn edges_of(g: NodeStore) -> Multiset<Edge>;

/// Relies on `StableGraph::add_node`: stores the weight under a fresh
/// index and touches nothing else.  With `usize` indices the index
/// space cannot be exhausted.
#[verifier::external_body]
pub fn store_add_node(g: &mut NodeStore, op: Op) -> (id: usize)
    ensures
        !nodes_of(*old(g)).dom().contains(id),
        nodes_of(*final(g)) == nodes_of(*old(g)).insert(id, op),
        edges_of(*final(g)) == edges_of(*old(g)),
{
    g.add_node(op).index()
}

/// Relies on `StableGraph::add_edge`: appends one directed edge between
/// two existing nodes (it panics on a missing endpoint, so the callers
/// must know both are present); parallel edges are allowed.
#[verifier::external_body]
pub fn store_add_edge(
    g: &mut NodeStore,
    src: usize,
    dst: usize,
    src_out: usize,
    input_idx: usize,
    shape: ShapeTracker,
)
    requires
        nodes_of(*old(g)).dom().contains(src),
        nodes_of(*old(g)).dom().contains(dst),
    ensures
        nodes_of(*final(g)) == nodes_of(*old(g)),
        edges_of(*final(g)) == edges_of(*old(g)).insert(
            (Edge { src, dst, src_out, input_idx, shape }),
        ),
{
    let w = (src_out, input_idx, shape);
    g.add_edge(
        petgraph::stable_graph::NodeIndex::new(src),
        petgraph::stable_graph::NodeIndex::new(dst),
        w,
    );
}

/// Relies on `StableGraph::remove_node`: drops the node and every edge
/// with an endpoint in it; absent ids leave the graph unchanged.
#[verifier::external_body]
pub fn store_remove_node(g: &mut NodeStore, id: usize)
    ensures
        nodes_of(*final(g)) == nodes_of(*old(g)).remove(id),
        edges_of(*final(g)) == edges_of(*old(g)).filter(
            |e: Edge| e.src != id && e.dst != id,
        ),
{
    g.remove_node(petgraph::stable_graph::NodeIndex::new(id));
}

/// Relies on `StableGraph::contains_node`.
#[verifier::external_body]
pub fn store_contains(g: &NodeStore, id: usize) -> (r: bool)
    ensures
        r == nodes_of(*g).dom().contains(id),
{
    g.contains_node(petgraph::stable_graph::NodeIndex::new(id))
}

/// Relies on `StableGraph::node_weight`: the operator stored at `id`,
/// if the node is present.
#[verifier::external_body]
pub fn store_op_of(g: &NodeStore, id: usize) -> (r: Option<Op>)
    ensures
        r == if nodes_of(*g).dom().contains(id) {
            Some(nodes_of(*g)[id])
        } else {
            None::<Op>
        },
{
    g.node_weight(petgraph::stable_graph::NodeIndex::new(id)).cloned()
}

/// Relies on `StableGraph::edges_directed` with `Incoming`: every edge
/// whose target is `id`, each exactly once, empty for an absent node.
#[verifier::external_body]
pub fn store_in_edges(g: &NodeStore, id: usize) -> (r: Vec<Edge>)
    ensures
        r@.to_multiset() == edges_of(*g).filter(|e: Edge| e.dst == id),
        forall|i: int|
            0 <= i < r@.len() ==> edges_of(*g).contains(#[trigger] r@[i]) && r@[i].dst == id,
        forall|e: Edge| #[trigger] edges_of(*g).contains(e) && e.dst == id ==> r@.contains(e),
{
    g.edges_directed(
        petgraph::stable_graph::NodeIndex::new(id),
        petgraph::Direction::Incoming,
    ).map(
        |e| {
            Edge {
                src: e.source().index(),
                dst: e.target().index(),
                src_out: e.weight().0,
                input_idx: e.weight().1,
                shape: e.weight().2.clone(),
            }
        },
    ).collect()
}

/// Relies on `StableGraph::edges_directed` with `Outgoing`: every edge
/// whose source is `id`, each exactly once, empty for an absent node.
#[verifier::external_body]
pub fn store_out_edges(g: &NodeStore, id: usize) -> (r: Vec<Edge>)
    ensures
        r@.to_multiset() == edges_of(*g).filter(|e: Edge| e.src == id),
        forall|i: int|
            0 <= i < r@.len() ==> edges_of(*g).contains(#[trigger] r@[i]) && r@[i].src == id,
        forall|e: Edge| #[trigger] edges_of(*g).contains(e) && e.src == id ==> r@.contains(e),
{
    g.edges_directed(
        petgraph::stable_graph::NodeIndex::new(id),
        petgraph::Direction::Outgoing,
    ).map(
        |e| {
            Edge {
                src: e.source().index(),
                dst: e.target().index(),
                src_out: e.weight().0,
                input_idx: e.weight().1,
                shape: e.weight().2.clone(),
            }
        },
    ).collect()
}

/// Relies on `StableGraph::node_indices`: every present node id exactly
/// once.
#[verifier::external_body]
pub fn store_node_ids(g: &NodeStore) -> (r: Vec<usize>)
    ensures
        r@.no_duplicates(),
        forall|i: int|
            0 <= i < r@.len() ==> #[trigger] nodes_of(*g).dom().contains(r@[i]),
        forall|id: usize| #[trigger] nodes_of(*g).dom().contains(id) ==> r@.contains(id),
{
    g.node_indices().map(|n| n.index()).collect()
}

} // verus!
