//! Orders the nodes of a finished graph so that each comes after its inputs,
//! and resolves the effective inputs of a node through name aliases.
use crate::analysis::ReNode;
use crate::graph::{
    edges_forward, graph_edges, graph_nodes, incoming_sources, neighbors_incoming, node_count,
    node_weight, operands, preds_in, topo_inv, topo_new, topo_next, topo_ordered, topo_pending, EdgeRec, ReGraph,
};
use vstd::prelude::*;

verus! {

/// `order` lists each of the `n` nodes exactly once.
pub open spec fn visits_each_once(n: nat, order: Seq<usize>) -> bool {
    &&& order.no_duplicates()
    &&& forall|i: int| 0 <= i < order.len() ==> #[trigger] order[i] < n
    &&& forall|m: usize| m < n ==> #[trigger] order.contains(m)
}

/// For every edge `(u -> v)`, `u` stands before `v` in `order`.
pub open spec fn respects_edges(edges: Seq<EdgeRec>, order: Seq<usize>) -> bool {
    forall|k: int, i: int, j: int|
        #![trigger edges[k], order[i], order[j]]
        0 <= k < edges.len() && 0 <= i < order.len() && 0 <= j < order.len() && order[i]
            == edges[k].0 && order[j] == edges[k].1 ==> i < j
}

/// A topological order of the graph with `n` nodes and these edges.
pub open spec fn is_topo_order(n: nat, edges: Seq<EdgeRec>, order: Seq<usize>) -> bool {
    visits_each_once(n, order) && respects_edges(edges, order)
}

/// The `usize` values below `n`.
pub open spec fn below(n: nat) -> Set<usize> {
    Set::new(|x: usize| (x as nat) < n)
}

proof fn lemma_below(n: nat)
    requires
        n <= usize::MAX + 1,
    ensures
        below(n).finite(),
        below(n).len() == n,
    decreases n,
{
    if n == 0 {
        assert(below(0) =~= Set::<usize>::empty());
    } else {
        lemma_below((n - 1) as nat);
        assert(below(n) =~= below((n - 1) as nat).insert((n - 1) as usize));
    }
}

/// A sequence without duplicates of values below `n` has at most `n` items.
proof fn lemma_nodup_len(s: Seq<usize>, n: nat)
    requires
        s.no_duplicates(),
        n <= usize::MAX + 1,
        forall|i: int| 0 <= i < s.len() ==> #[trigger] s[i] < n,
    ensures
        s.len() <= n,
{
    s.unique_seq_to_set();
    lemma_below(n);
    assert(s.to_set().subset_of(below(n)));
    vstd::set_lib::lemma_len_subset(s.to_set(), below(n));
}

/// When nothing is pending, every node not handed out has an input that was
/// not handed out either; in a graph whose edges run forward, that leaves no
/// node out.
proof fn lemma_all_done(n: nat, edges: Seq<EdgeRec>, done: Set<usize>, m: usize)
    requires
        edges_forward(n, edges),
        m < n,
        forall|x: usize| x < n && !done.contains(x) ==> !#[trigger] preds_in(edges, x, done),
    ensures
        forall|x: usize| x <= m ==> #[trigger] done.contains(x),
    decreases m,
{
    if m > 0 {
        lemma_all_done(n, edges, done, (m - 1) as usize);
    }
    if !done.contains(m) {
        assert(!preds_in(edges, m, done));
        let k = choose|k: int| 0 <= k < edges.len() && #[trigger] edges[k].1 == m && !done.contains(edges[k].0);
        assert(edges[k].0 < edges[k].1);
        assert(done.contains(edges[k].0));
    }
    assert forall|x: usize| x <= m implies #[trigger] done.contains(x) by {
        if x < m {
            assert(x <= (m - 1) as usize);
        }
    }
}

/// The effective inputs of node `i`: its operands in the order their edges
/// were added, each alias replaced by the effective inputs of the alias.
pub open spec fn effective_inputs(nodes: Seq<ReNode>, edges: Seq<EdgeRec>, i: usize) -> Seq<usize>
    decreases i, 1int, 0int,
{
    resolve_inputs(nodes, edges, operands(edges, i), i)
}

/// `srcs` in order, each alias among them (an input of node `i`) replaced by
/// its own effective inputs.
pub open spec fn resolve_inputs(
    nodes: Seq<ReNode>,
    edges: Seq<EdgeRec>,
    srcs: Seq<usize>,
    i: usize,
) -> Seq<usize>
    decreases i, 0int, srcs.len(),
{
    if srcs.len() == 0 {
        Seq::empty()
    } else {
        let last = srcs.last();
        resolve_inputs(nodes, edges, srcs.drop_last(), i) + if last < i && nodes[last as int] is Name {
            effective_inputs(nodes, edges, last)
        } else {
            seq![last]
        }
    }
}

/// The nodes whose values node `idx` computes from, looking through aliases.
pub fn get_incoming_weights<'a>(graph: &'a ReGraph, idx: usize) -> (r: Vec<&'a ReNode>)
    requires
        idx < graph_nodes(*graph).len(),
        edges_forward(graph_nodes(*graph).len(), graph_edges(*graph)),
    ensures
        r@.len() == effective_inputs(graph_nodes(*graph), graph_edges(*graph), idx).len(),
        forall|k: int|
            0 <= k < r@.len() ==> *#[trigger] r@[k] == graph_nodes(*graph)[effective_inputs(
                graph_nodes(*graph),
                graph_edges(*graph),
                idx,
            )[k] as int],
    decreases idx,
{
    let ghost nodes = graph_nodes(*graph);
    let ghost edges = graph_edges(*graph);
    let incoming_nodes = operand_list(graph, idx);
    proof {
        assert forall|j: int| 0 <= j < incoming_nodes@.len() implies #[trigger] incoming_nodes@[j] < idx by {
            lemma_operand_edge(edges, idx, j);
            let e = choose|e: int| 0 <= e < edges.len() && #[trigger] edges[e].1 == idx && edges[e].0 == incoming_nodes@[j];
            assert(edges[e].0 < edges[e].1);
        }
    }
    let mut weights: Vec<&'a ReNode> = Vec::new();
    let mut k: usize = 0;
    while k < incoming_nodes.len()
        invariant
            idx < nodes.len(),
            nodes == graph_nodes(*graph),
            edges == graph_edges(*graph),
            edges_forward(nodes.len(), edges),
            0 <= k <= incoming_nodes@.len(),
            incoming_nodes@ == operands(edges, idx),
            forall|j: int| 0 <= j < incoming_nodes@.len() ==> #[trigger] incoming_nodes@[j] < idx,
            weights@.len() == resolve_inputs(nodes, edges, incoming_nodes@.take(k as int), idx).len(),
            forall|j: int|
                0 <= j < weights@.len() ==> *#[trigger] weights@[j] == nodes[resolve_inputs(
                    nodes,
                    edges,
                    incoming_nodes@.take(k as int),
                    idx,
                )[j] as int],
        decreases incoming_nodes@.len() - k,
    {
        let node_idx = incoming_nodes[k];
        let ghost prev = resolve_inputs(nodes, edges, incoming_nodes@.take(k as int), idx);
        let ghost before = weights@;
        proof {
            assert(incoming_nodes@.take(k + 1).drop_last() =~= incoming_nodes@.take(k as int));
        }
        let node = node_weight(graph, node_idx);
        if let ReNode::Name(_) = node {
            let mut inner = get_incoming_weights(graph, node_idx);
            weights.append(&mut inner);
        } else {
            weights.push(node);
        }
        k = k + 1;
        proof {
            let cur = resolve_inputs(nodes, edges, incoming_nodes@.take(k as int), idx);
            assert forall|j: int| 0 <= j < weights@.len() implies *#[trigger] weights@[j] == nodes[cur[j] as int] by {
                if j < before.len() {
                    assert(weights@[j] == before[j]);
                    assert(cur[j] == prev[j]);
                }
            }
        }
    }
    assert(incoming_nodes@.take(incoming_nodes@.len() as int) =~= incoming_nodes@);
    weights
}

proof fn lemma_operands_reverse(edges: Seq<EdgeRec>, i: usize)
    ensures
        operands(edges, i).len() == incoming_sources(edges, i).len(),
        forall|j: int|
            0 <= j < operands(edges, i).len() ==> #[trigger] operands(edges, i)[j] == incoming_sources(
                edges,
                i,
            )[operands(edges, i).len() - 1 - j],
    decreases edges.len(),
{
    if edges.len() > 0 {
        lemma_operands_reverse(edges.drop_last(), i);
        let rest = operands(edges.drop_last(), i);
        let all = operands(edges, i);
        let inc = incoming_sources(edges, i);
        if edges.last().1 == i {
            assert forall|j: int| 0 <= j < all.len() implies #[trigger] all[j] == inc[all.len() - 1 - j] by {
                if j < rest.len() {
                    assert(all[j] == rest[j]);
                    assert(inc[all.len() - 1 - j] == incoming_sources(edges.drop_last(), i)[rest.len() - 1 - j]);
                }
            }
        }
    }
}

/// Every operand of `i` is the source of an edge into `i`.
pub(crate) proof fn lemma_operand_edge(edges: Seq<EdgeRec>, i: usize, j: int)
    requires
        0 <= j < operands(edges, i).len(),
    ensures
        exists|k: int| 0 <= k < edges.len() && #[trigger] edges[k].1 == i && edges[k].0 == operands(edges, i)[j],
    decreases edges.len(),
{
    let rest = operands(edges.drop_last(), i);
    if edges.last().1 == i && j == rest.len() {
        assert(edges[edges.len() - 1].1 == i);
    } else {
        lemma_operand_edge(edges.drop_last(), i, j);
        let k = choose|k: int| 0 <= k < edges.drop_last().len() && #[trigger] edges.drop_last()[k].1 == i
            && edges.drop_last()[k].0 == rest[j];
        assert(edges[k] == edges.drop_last()[k]);
    }
}

/// The operands of node `i`, left to right.
pub(crate) fn operand_list(graph: &ReGraph, i: usize) -> (r: Vec<usize>)
    requires
        i < graph_nodes(*graph).len(),
    ensures
        r@ == operands(graph_edges(*graph), i),
{
    let inc = neighbors_incoming(graph, i);
    let ghost ops = operands(graph_edges(*graph), i);
    proof {
        lemma_operands_reverse(graph_edges(*graph), i);
    }
    let mut r: Vec<usize> = Vec::new();
    let mut k: usize = inc.len();
    while k > 0
        invariant
            0 <= k <= inc@.len(),
            inc@.len() == ops.len(),
            forall|j: int| 0 <= j < ops.len() ==> #[trigger] ops[j] == inc@[ops.len() - 1 - j],
            r@ == ops.take(inc@.len() - k),
        decreases k,
    {
        k = k - 1;
        r.push(inc[k]);
        proof {
            assert(r@ =~= ops.take(inc@.len() - k));
        }
    }
    assert(ops.take(ops.len() as int) =~= ops);
    r
}

/// Orders the nodes of `graph` so that each comes after all its inputs.
/// Nodes on a cycle are left out; a graph whose edges all run forward, as
/// the builder makes them, has every node once.
pub fn topological_order(graph: &ReGraph) -> (r: Vec<usize>)
    ensures
        r@.no_duplicates(),
        forall|i: int| 0 <= i < r@.len() ==> #[trigger] r@[i] < graph_nodes(*graph).len(),
        respects_edges(graph_edges(*graph), r@),
        edges_forward(graph_nodes(*graph).len(), graph_edges(*graph)) ==> is_topo_order(
            graph_nodes(*graph).len(),
            graph_edges(*graph),
            r@,
        ),
{
    let n = node_count(graph);
    let ghost edges = graph_edges(*graph);
    let mut topo = topo_new(graph);
    let mut order: Vec<usize> = Vec::new();
    loop
        invariant
            n == graph_nodes(*graph).len(),
            edges == graph_edges(*graph),
            topo_inv(n as nat, edges, topo),
            order@.no_duplicates(),
            forall|i: int| 0 <= i < order@.len() ==> #[trigger] order@[i] < n,
            forall|x: usize| #[trigger] order@.contains(x) <==> topo_ordered(topo).contains(x),
            respects_edges(edges, order@),
            forall|k: int|
                0 <= k < edges.len() && #[trigger] order@.contains(edges[k].1) ==> order@.contains(
                    edges[k].0,
                ),
        ensures
            n == graph_nodes(*graph).len(),
            topo_inv(n as nat, edges, topo),
            topo_pending(topo).len() == 0,
            order@.no_duplicates(),
            forall|i: int| 0 <= i < order@.len() ==> #[trigger] order@[i] < n,
            forall|x: usize| #[trigger] order@.contains(x) <==> topo_ordered(topo).contains(x),
            respects_edges(edges, order@),
        decreases n - order@.len(),
    {
        proof {
            lemma_nodup_len(order@, n as nat);
        }
        let ghost old_order = order@;
        let ghost old_topo = topo;
        match topo_next(&mut topo, graph) {
            Some(x) => {
                order.push(x);
                proof {
                    assert(!old_order.contains(x));
                    assert(order@.no_duplicates()) by {
                        assert forall|i: int, j: int|
                            0 <= i < order@.len() && 0 <= j < order@.len() && i != j implies order@[i]
                            != order@[j] by {
                            if i < old_order.len() && j < old_order.len() {
                                assert(order@[i] == old_order[i] && order@[j] == old_order[j]);
                            } else if i < old_order.len() {
                                assert(order@[i] == old_order[i]);
                            } else if j < old_order.len() {
                                assert(order@[j] == old_order[j]);
                            }
                        }
                    }
                    lemma_nodup_len(order@, n as nat);
                    assert forall|y: usize| #[trigger] order@.contains(y) <==> topo_ordered(topo).contains(y) by {
                        if order@.contains(y) && y != x {
                            let i = choose|i: int| 0 <= i < order@.len() && order@[i] == y;
                            assert(old_order[i] == y);
                        }
                        if y != x && old_order.contains(y) {
                            let i = choose|i: int| 0 <= i < old_order.len() && old_order[i] == y;
                            assert(order@[i] == y);
                        }
                        if y == x {
                            assert(order@[old_order.len() as int] == x);
                        }
                    }
                    assert forall|k: int|
                        0 <= k < edges.len() && #[trigger] order@.contains(edges[k].1) implies order@.contains(
                        edges[k].0,
                    ) by {
                        if edges[k].1 == x {
                            assert(topo_ordered(topo).contains(edges[k].0));
                        } else {
                            let j = choose|j: int| 0 <= j < order@.len() && order@[j] == edges[k].1;
                            assert(old_order[j] == edges[k].1);
                            assert(old_order.contains(edges[k].1));
                            let i = choose|i: int| 0 <= i < old_order.len() && old_order[i] == edges[k].0;
                            assert(order@[i] == edges[k].0);
                        }
                    }
                    assert forall|k: int, i: int, j: int|
                        #![trigger edges[k], order@[i], order@[j]]
                        0 <= k < edges.len() && 0 <= i < order@.len() && 0 <= j < order@.len()
                            && order@[i] == edges[k].0 && order@[j]
                            == edges[k].1 implies i < j by {
                        let last = old_order.len() as int;
                        if i == last && j < last {
                            assert(old_order[j] == edges[k].1);
                            assert(old_order.contains(edges[k].1));
                            assert(old_order.contains(edges[k].0));
                        } else if i < last && j < last {
                            assert(old_order[i] == edges[k].0 && old_order[j] == edges[k].1);
                        } else if i == last && j == last {
                            assert(preds_in(edges, x, topo_ordered(old_topo)));
                        }
                    }
                }
            },
            None => {
                break;
            },
        }
    }
    proof {
        if edges_forward(n as nat, edges) && n > 0 {
            assert forall|x: usize| x < n && !topo_ordered(topo).contains(x) implies !#[trigger] preds_in(
                edges,
                x,
                topo_ordered(topo),
            ) by {
                if preds_in(edges, x, topo_ordered(topo)) {
                    assert(topo_pending(topo).contains(x));
                }
            }
            lemma_all_done(n as nat, edges, topo_ordered(topo), (n - 1) as usize);
        }
    }
    order
}

} // verus!
