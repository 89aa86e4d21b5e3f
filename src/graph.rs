//! The dataflow graph is a `petgraph::Graph`; this module states what the
//! library relies on of it and of its topological walker `Topo`.
use crate::analysis::{ReEdge, ReNode};
use fixedbitset::FixedBitSet;
use petgraph::graph::NodeIndex;
use petgraph::visit::Topo;
use petgraph::{Graph, Incoming};
use vstd::prelude::*;

verus! {

/// `petgraph::Graph`, opaque; its contents are `graph_nodes` and
/// `graph_edges`.
#[verifier::external_type_specification]
#[verifier::external_body]
#[verifier::reject_recursive_types(N)]
#[verifier::reject_recursive_types(E)]
#[verifier::reject_recursive_types(Ty)]
#[verifier::reject_recursive_types(Ix)]
pub struct ExGraph<N, E, Ty, Ix>(Graph<N, E, Ty, Ix>);

/// `petgraph::Directed`, the marker for a directed graph.
#[verifier::external_type_specification]
#[verifier::external_body]
pub struct ExDirected(petgraph::Directed);

/// `petgraph::graph::NodeIndex`, opaque; it only appears inside `TopoWalk`.
#[verifier::external_type_specification]
#[verifier::external_body]
#[verifier::reject_recursive_types(Ix)]
pub struct ExNodeIndex<Ix>(NodeIndex<Ix>);

/// `petgraph::visit::Topo`, opaque; its state is `topo_pending`,
/// `topo_ordered` and `topo_capacity`.
#[verifier::external_type_specification]
#[verifier::external_body]
#[verifier::reject_recursive_types(N)]
#[verifier::reject_recursive_types(VM)]
pub struct ExTopo<N, VM>(Topo<N, VM>);

/// `fixedbitset::FixedBitSet`, the visit map of a `Topo` walk, opaque.
#[verifier::external_type_specification]
#[verifier::external_body]
pub struct ExFixedBitSet(FixedBitSet);

/// The dataflow graph: node weights are the reactives, edges run from
/// producer to consumer.
pub type ReGraph = Graph<ReNode, ReEdge>;

/// The state of a topological walk over a `ReGraph`.
pub type TopoWalk = Topo<NodeIndex, FixedBitSet>;

/// An edge as (source index, target index, weight).
pub type EdgeRec = (usize, usize, ReEdge);

/// The node weights of a graph, by index.
pub uninterp spec fn graph_nodes(g: ReGraph) -> Seq<ReNode>;

/// The edges of a graph, in the order they were added.
pub uninterp spec fn graph_edges(g: ReGraph) -> Seq<EdgeRec>;

/// The stack of nodes that a walk will consider next.
pub uninterp spec fn topo_pending(t: TopoWalk) -> Seq<usize>;

/// The nodes that a walk has already handed out.
pub uninterp spec fn topo_ordered(t: TopoWalk) -> Set<usize>;

/// The size of the visit map that a walk was made with.
pub uninterp spec fn topo_capacity(t: TopoWalk) -> nat;

/// Every edge runs from an earlier node to a later one of the `n` nodes; such
/// a graph has no cycle.
pub open spec fn edges_forward(n: nat, edges: Seq<EdgeRec>) -> bool {
    forall|k: int| #![trigger edges[k]] 0 <= k < edges.len() ==> edges[k].0 < edges[k].1 && edges[k].1 < n
}

/// Every edge into `m` comes from a node in `done`.
pub open spec fn preds_in(edges: Seq<EdgeRec>, m: usize, done: Set<usize>) -> bool {
    forall|k: int| 0 <= k < edges.len() && #[trigger] edges[k].1 == m ==> done.contains(edges[k].0)
}

/// The state of a walk over a graph of `n` nodes is consistent with `edges`:
/// every pending node has all its inputs handed out, and every node not yet
/// handed out whose inputs all are, is pending.
pub open spec fn topo_inv(n: nat, edges: Seq<EdgeRec>, t: TopoWalk) -> bool {
    &&& topo_capacity(t) == n
    &&& forall|i: int|
        0 <= i < topo_pending(t).len() ==> #[trigger] topo_pending(t)[i] < n && preds_in(
            edges,
            topo_pending(t)[i],
            topo_ordered(t),
        )
    &&& forall|x: usize| #[trigger] topo_ordered(t).contains(x) ==> x < n
    &&& forall|m: usize|
        m < n && !#[trigger] topo_ordered(t).contains(m) && preds_in(edges, m, topo_ordered(t))
            ==> topo_pending(t).contains(m)
}

/// Sources of the edges into `i`, most recently added first.
pub open spec fn incoming_sources(edges: Seq<EdgeRec>, i: usize) -> Seq<usize>
    decreases edges.len(),
{
    if edges.len() == 0 {
        Seq::empty()
    } else if edges.last().1 == i {
        seq![edges.last().0] + incoming_sources(edges.drop_last(), i)
    } else {
        incoming_sources(edges.drop_last(), i)
    }
}

/// The sources of the edges into `i`, in the order the edges were added: the
/// operands of node `i` from left to right.
pub open spec fn operands(edges: Seq<EdgeRec>, i: usize) -> Seq<usize>
    decreases edges.len(),
{
    if edges.len() == 0 {
        Seq::empty()
    } else if edges.last().1 == i {
        operands(edges.drop_last(), i).push(edges.last().0)
    } else {
        operands(edges.drop_last(), i)
    }
}

/// Relies on `Graph::new`: a graph with no nodes and no edges.
#[verifier::external_body]
pub(crate) fn graph_new() -> (r: ReGraph)
    ensures
        graph_nodes(r) == Seq::<ReNode>::empty(),
        graph_edges(r) == Seq::<EdgeRec>::empty(),
{
    Graph::new()
}

/// Relies on `Graph::add_node`: the weight is appended and its index is the
/// old node count; it panics only when the `u32` index space is full.
#[verifier::external_body]
pub(crate) fn add_node(g: &mut ReGraph, weight: ReNode) -> (r: usize)
    requires
        graph_nodes(*old(g)).len() < u32::MAX,
    ensures
        r == graph_nodes(*old(g)).len(),
        graph_nodes(*final(g)) == graph_nodes(*old(g)).push(weight),
        graph_edges(*final(g)) == graph_edges(*old(g)),
{
    g.add_node(weight).index()
}

/// Relies on `Graph::add_edge`: the edge is appended; it panics only on an
/// index out of bounds or a full `u32` edge index space.
#[verifier::external_body]
pub(crate) fn add_edge(g: &mut ReGraph, a: usize, b: usize, weight: ReEdge)
    requires
        a < graph_nodes(*old(g)).len(),
        b < graph_nodes(*old(g)).len(),
        graph_edges(*old(g)).len() < u32::MAX,
    ensures
        graph_nodes(*final(g)) == graph_nodes(*old(g)),
        graph_edges(*final(g)) == graph_edges(*old(g)).push((a, b, weight)),
{
    g.add_edge(NodeIndex::new(a), NodeIndex::new(b), weight);
}

/// Relies on `Graph::node_count`.
#[verifier::external_body]
pub(crate) fn node_count(g: &ReGraph) -> (r: usize)
    ensures
        r == graph_nodes(*g).len(),
{
    g.node_count()
}

/// Relies on indexing a `Graph` by node: the weight at index `i`.
#[verifier::external_body]
pub(crate) fn node_weight(g: &ReGraph, i: usize) -> (r: &ReNode)
    requires
        i < graph_nodes(*g).len(),
    ensures
        *r == graph_nodes(*g)[i as int],
{
    &g[NodeIndex::new(i)]
}

/// Relies on mutable indexing of a `Graph` by node: only the weight at `i`
/// can change, and the edges stay.
#[verifier::external_body]
pub(crate) fn node_weight_mut(g: &mut ReGraph, i: usize) -> (r: &mut ReNode)
    requires
        i < graph_nodes(*old(g)).len(),
    ensures
        *r == graph_nodes(*old(g))[i as int],
        graph_nodes(*final(g)) == graph_nodes(*old(g)).update(i as int, *final(r)),
        graph_edges(*final(g)) == graph_edges(*old(g)),
{
    &mut g[NodeIndex::new(i)]
}

/// Relies on `Graph::neighbors_directed(i, Incoming)`: for a directed graph it
/// lists the source of each edge into `i`, most recently added edge first.
#[verifier::external_body]
pub(crate) fn neighbors_incoming(g: &ReGraph, i: usize) -> (r: Vec<usize>)
    requires
        i < graph_nodes(*g).len(),
    ensures
        r@ == incoming_sources(graph_edges(*g), i),
{
    g.neighbors_directed(NodeIndex::new(i), Incoming).map(|n| n.index()).collect()
}

/// Relies on `Topo::new`: nothing is handed out yet, the visit map is sized
/// to the node count, and the pending nodes are those without incoming edges.
#[verifier::external_body]
pub(crate) fn topo_new(g: &ReGraph) -> (r: TopoWalk)
    ensures
        topo_ordered(r) == Set::<usize>::empty(),
        topo_capacity(r) == graph_nodes(*g).len(),
        topo_inv(graph_nodes(*g).len(), graph_edges(*g), r),
{
    Topo::new(g)
}

/// Relies on `Topo::next`: it pops pending nodes, skips those handed out
/// already, hands out the first other one and pushes each of its successors
/// whose inputs have all been handed out; with nothing pending it returns
/// `None`.
#[verifier::external_body]
pub(crate) fn topo_next(t: &mut TopoWalk, g: &ReGraph) -> (r: Option<usize>)
    requires
        topo_inv(graph_nodes(*g).len(), graph_edges(*g), *old(t)),
    ensures
        topo_inv(graph_nodes(*g).len(), graph_edges(*g), *final(t)),
        match r {
            Some(x) => {
                &&& x < graph_nodes(*g).len()
                &&& !topo_ordered(*old(t)).contains(x)
                &&& preds_in(graph_edges(*g), x, topo_ordered(*old(t)))
                &&& topo_ordered(*final(t)) == topo_ordered(*old(t)).insert(x)
            },
            None => {
                &&& topo_ordered(*final(t)) == topo_ordered(*old(t))
                &&& topo_pending(*final(t)).len() == 0
            },
        },
{
    t.next(g).map(|n| n.index())
}

} // verus!
