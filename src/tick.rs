//! One tick of a compiled program: every node is visited once, in
//! topological order, and decides from its already updated inputs whether it
//! fires and what it holds.
use crate::analysis::{Family, NodeData, ReNode};
use crate::graph::{graph_edges, graph_nodes, node_weight, operands, EdgeRec, ReGraph};
use crate::schedule::{lemma_operand_edge, operand_list};
use crate::schedule::is_topo_order;
use vstd::prelude::*;

verus! {

/// A node's state: its latest value and whether it fired (an event) or
/// changed (a variable) on this tick.
#[derive(Clone, Copy, Debug, PartialEq, Eq, Structural)]
pub struct Slot {
    pub value: i64,
    pub fired: bool,
}

impl Slot {
    /// A slot holding `value` that has not fired.
    pub fn new(value: i64) -> (r: Slot)
        ensures
            r == (Slot { value, fired: false }),
    {
        Slot { value, fired: false }
    }
}

/// The slot of operand `j`, or a silent one where there is none.
pub open spec fn operand(st: Seq<Slot>, ops: Seq<usize>, j: int) -> Slot {
    if 0 <= j < ops.len() {
        st[ops[j] as int]
    } else {
        Slot { value: 0, fired: false }
    }
}

pub open spec fn operand_values(st: Seq<Slot>, ops: Seq<usize>) -> Seq<i64> {
    Seq::new(ops.len(), |j: int| st[ops[j] as int].value)
}

/// Every operand of the event family fired.
pub open spec fn events_fired(nodes: Seq<ReNode>, st: Seq<Slot>, ops: Seq<usize>) -> bool {
    forall|j: int|
        0 <= j < ops.len() && nodes[ops[j] as int].outgoing() == Family::Event
            ==> #[trigger] st[ops[j] as int].fired
}

/// Some operand fired or changed.
pub open spec fn any_fired(st: Seq<Slot>, ops: Seq<usize>) -> bool {
    exists|j: int| 0 <= j < ops.len() && #[trigger] st[ops[j] as int].fired
}

pub open spec fn quiet(old: Slot) -> Slot {
    Slot { value: old.value, fired: false }
}

/// What node `i` holds after the tick, given its slot `old` before it, its
/// external input `ext` (sources only), the slots `st` of its operands after
/// the tick, and the closures that compute map and fold results and filter
/// decisions.
pub open spec fn node_rule<F: Fn(usize, Vec<i64>) -> i64, P: Fn(usize, i64) -> bool>(
    nodes: Seq<ReNode>,
    i: usize,
    ops: Seq<usize>,
    ext: Option<i64>,
    old: Slot,
    st: Seq<Slot>,
    new: Slot,
    combine: F,
    keep: P,
) -> bool {
    match nodes[i as int] {
        ReNode::Var(_) => match ext {
            Some(v) => new == Slot { value: v, fired: v != old.value },
            None => new == quiet(old),
        },
        ReNode::Evt(_) => match ext {
            Some(v) => new == Slot { value: v, fired: true },
            None => new == quiet(old),
        },
        ReNode::Name(_) => new == operand(st, ops, 0),
        ReNode::Changed(_) => new == operand(st, ops, 0),
        ReNode::Mapping(n) => {
            let event = n.data.family == Family::Event;
            if (event && events_fired(nodes, st, ops)) || (!event && any_fired(st, ops)) {
                exists|args: Vec<i64>, v: i64|
                    args@ == operand_values(st, ops) && #[trigger] combine.ensures((i, args), v)
                        && new == (Slot { value: v, fired: event || v != old.value })
            } else {
                new == quiet(old)
            }
        },
        ReNode::Fold(_) => if events_fired(nodes, st, ops) {
            exists|args: Vec<i64>, v: i64|
                args@ == seq![old.value] + operand_values(st, ops) && #[trigger] combine.ensures(
                    (i, args),
                    v,
                ) && new == (Slot { value: v, fired: v != old.value })
        } else {
            new == quiet(old)
        },
        ReNode::Filter(_) => {
            let src = operand(st, ops, 0);
            if src.fired {
                exists|b: bool|
                    #[trigger] keep.ensures((i, src.value), b) && new == if b {
                        src
                    } else {
                        quiet(old)
                    }
            } else {
                new == quiet(old)
            }
        },
        ReNode::Choice(_) => if operand(st, ops, 0).fired {
            new == operand(st, ops, 0)
        } else if operand(st, ops, 1).fired {
            new == operand(st, ops, 1)
        } else {
            new == quiet(old)
        },
    }
}

fn operand_slot(st: &Vec<Slot>, ops: &Vec<usize>, j: usize) -> (r: Slot)
    requires
        forall|k: int| 0 <= k < ops@.len() ==> #[trigger] ops@[k] < st@.len(),
    ensures
        r == operand(st@, ops@, j as int),
{
    if j < ops.len() {
        st[ops[j]]
    } else {
        Slot { value: 0, fired: false }
    }
}

fn operand_values_of(st: &Vec<Slot>, ops: &Vec<usize>, first: Option<i64>) -> (r: Vec<i64>)
    requires
        forall|k: int| 0 <= k < ops@.len() ==> #[trigger] ops@[k] < st@.len(),
    ensures
        r@ == match first {
            Some(x) => seq![x] + operand_values(st@, ops@),
            None => operand_values(st@, ops@),
        },
{
    let mut r: Vec<i64> = Vec::new();
    let ghost pre: Seq<i64> = match first {
        Some(x) => seq![x],
        None => Seq::empty(),
    };
    match first {
        Some(x) => r.push(x),
        None => {},
    }
    let mut k: usize = 0;
    while k < ops.len()
        invariant
            0 <= k <= ops@.len(),
            forall|j: int| 0 <= j < ops@.len() ==> #[trigger] ops@[j] < st@.len(),
            r@ == pre + operand_values(st@, ops@).take(k as int),
        decreases ops@.len() - k,
    {
        r.push(st[ops[k]].value);
        k = k + 1;
        proof {
            assert(r@ =~= pre + operand_values(st@, ops@).take(k as int));
        }
    }
    assert(operand_values(st@, ops@).take(ops@.len() as int) =~= operand_values(st@, ops@));
    assert(pre + operand_values(st@, ops@) =~= match first {
        Some(x) => seq![x] + operand_values(st@, ops@),
        None => operand_values(st@, ops@),
    });
    r
}

fn events_fired_of(graph: &ReGraph, st: &Vec<Slot>, ops: &Vec<usize>) -> (r: bool)
    requires
        forall|k: int| 0 <= k < ops@.len() ==> #[trigger] ops@[k] < st@.len(),
        st@.len() == graph_nodes(*graph).len(),
    ensures
        r == events_fired(graph_nodes(*graph), st@, ops@),
{
    let mut k: usize = 0;
    while k < ops.len()
        invariant
            0 <= k <= ops@.len(),
            forall|j: int| 0 <= j < ops@.len() ==> #[trigger] ops@[j] < st@.len(),
            st@.len() == graph_nodes(*graph).len(),
            forall|j: int|
                0 <= j < k && graph_nodes(*graph)[ops@[j] as int].outgoing() == Family::Event
                    ==> #[trigger] st@[ops@[j] as int].fired,
        decreases ops@.len() - k,
    {
        if node_weight(graph, ops[k]).outgoing_family() == Family::Event && !st[ops[k]].fired {
            return false;
        }
        k = k + 1;
    }
    true
}

fn any_fired_of(st: &Vec<Slot>, ops: &Vec<usize>) -> (r: bool)
    requires
        forall|k: int| 0 <= k < ops@.len() ==> #[trigger] ops@[k] < st@.len(),
    ensures
        r == any_fired(st@, ops@),
{
    let mut k: usize = 0;
    while k < ops.len()
        invariant
            0 <= k <= ops@.len(),
            forall|j: int| 0 <= j < ops@.len() ==> #[trigger] ops@[j] < st@.len(),
            forall|j: int| 0 <= j < k ==> !#[trigger] st@[ops@[j] as int].fired,
        decreases ops@.len() - k,
    {
        if st[ops[k]].fired {
            return true;
        }
        k = k + 1;
    }
    false
}

/// The new slot of node `i`, computed from its operands' slots in `st`.
pub fn update_node<F: Fn(usize, Vec<i64>) -> i64, P: Fn(usize, i64) -> bool>(
    graph: &ReGraph,
    i: usize,
    ext: Option<i64>,
    old: Slot,
    st: &Vec<Slot>,
    combine: &F,
    keep: &P,
) -> (r: Slot)
    requires
        i < graph_nodes(*graph).len(),
        st@.len() == graph_nodes(*graph).len(),
        crate::graph::edges_forward(graph_nodes(*graph).len(), graph_edges(*graph)),
        forall|j: usize, args: Vec<i64>| #[trigger] combine.requires((j, args)),
        forall|j: usize, v: i64| #[trigger] keep.requires((j, v)),
    ensures
        node_rule(graph_nodes(*graph), i, operands(graph_edges(*graph), i), ext, old, st@, r, *combine, *keep),
{
    let ops = operand_list(graph, i);
    proof {
        assert forall|k: int| 0 <= k < ops@.len() implies #[trigger] ops@[k] < st@.len() by {
            lemma_operand_edge(graph_edges(*graph), i, k);
        }
    }
    let quiet_slot = Slot { value: old.value, fired: false };
    match node_weight(graph, i) {
        ReNode::Var(_) => match ext {
            Some(v) => Slot { value: v, fired: v != old.value },
            None => quiet_slot,
        },
        ReNode::Evt(_) => match ext {
            Some(v) => Slot { value: v, fired: true },
            None => quiet_slot,
        },
        ReNode::Name(_) => operand_slot(st, &ops, 0),
        ReNode::Changed(_) => operand_slot(st, &ops, 0),
        ReNode::Mapping(n) => {
            let event = n.data.family == Family::Event;
            let trigger = if event {
                events_fired_of(graph, st, &ops)
            } else {
                any_fired_of(st, &ops)
            };
            if trigger {
                let args = operand_values_of(st, &ops, None);
                let v = combine(i, args);
                Slot { value: v, fired: event || v != old.value }
            } else {
                quiet_slot
            }
        },
        ReNode::Fold(_) => {
            if events_fired_of(graph, st, &ops) {
                let args = operand_values_of(st, &ops, Some(old.value));
                let v = combine(i, args);
                Slot { value: v, fired: v != old.value }
            } else {
                quiet_slot
            }
        },
        ReNode::Filter(_) => {
            let src = operand_slot(st, &ops, 0);
            if src.fired {
                let b = keep(i, src.value);
                if b {
                    src
                } else {
                    quiet_slot
                }
            } else {
                quiet_slot
            }
        },
        ReNode::Choice(_) => {
            let left = operand_slot(st, &ops, 0);
            if left.fired {
                left
            } else {
                let right = operand_slot(st, &ops, 1);
                if right.fired {
                    right
                } else {
                    quiet_slot
                }
            }
        },
    }
}

proof fn lemma_rule_frame<F: Fn(usize, Vec<i64>) -> i64, P: Fn(usize, i64) -> bool>(
    nodes: Seq<ReNode>,
    i: usize,
    ops: Seq<usize>,
    ext: Option<i64>,
    old: Slot,
    st1: Seq<Slot>,
    st2: Seq<Slot>,
    new: Slot,
    combine: F,
    keep: P,
)
    requires
        forall|j: int| 0 <= j < ops.len() ==> #[trigger] st1[ops[j] as int] == st2[ops[j] as int],
    ensures
        node_rule(nodes, i, ops, ext, old, st1, new, combine, keep) == node_rule(
            nodes,
            i,
            ops,
            ext,
            old,
            st2,
            new,
            combine,
            keep,
        ),
{
    assert(operand_values(st1, ops) =~= operand_values(st2, ops));
    assert(operand(st1, ops, 0) == operand(st2, ops, 0));
    assert(operand(st1, ops, 1) == operand(st2, ops, 1));
    if events_fired(nodes, st1, ops) {
        assert forall|j: int|
            0 <= j < ops.len() && nodes[ops[j] as int].outgoing() == Family::Event implies #[trigger] st2[ops[j] as int].fired by {
            assert(st1[ops[j] as int] == st2[ops[j] as int]);
        }
    }
    if events_fired(nodes, st2, ops) {
        assert forall|j: int|
            0 <= j < ops.len() && nodes[ops[j] as int].outgoing() == Family::Event implies #[trigger] st1[ops[j] as int].fired by {
            assert(st1[ops[j] as int] == st2[ops[j] as int]);
        }
    }
    assert(events_fired(nodes, st1, ops) == events_fired(nodes, st2, ops));
    if any_fired(st1, ops) {
        let j = choose|j: int| 0 <= j < ops.len() && #[trigger] st1[ops[j] as int].fired;
        assert(st2[ops[j] as int].fired);
    }
    if any_fired(st2, ops) {
        let j = choose|j: int| 0 <= j < ops.len() && #[trigger] st2[ops[j] as int].fired;
        assert(st1[ops[j] as int].fired);
    }
}

/// Runs one tick of the program that `graph` describes: visits the nodes in
/// `order`, each after all its inputs, and sets each slot to what its rule
/// gives from the already updated slots of its operands. `ext` holds the
/// values supplied to the sources on this tick.
pub fn tick<F: Fn(usize, Vec<i64>) -> i64, P: Fn(usize, i64) -> bool>(
    graph: &ReGraph,
    order: &Vec<usize>,
    ext: &Vec<Option<i64>>,
    state: &mut Vec<Slot>,
    combine: &F,
    keep: &P,
)
    requires
        crate::graph::edges_forward(graph_nodes(*graph).len(), graph_edges(*graph)),
        is_topo_order(graph_nodes(*graph).len(), graph_edges(*graph), order@),
        ext@.len() == graph_nodes(*graph).len(),
        old(state)@.len() == graph_nodes(*graph).len(),
        forall|j: usize, args: Vec<i64>| #[trigger] combine.requires((j, args)),
        forall|j: usize, v: i64| #[trigger] keep.requires((j, v)),
    ensures
        final(state)@.len() == graph_nodes(*graph).len(),
        forall|m: usize|
            m < graph_nodes(*graph).len() ==> #[trigger] node_rule(
                graph_nodes(*graph),
                m,
                operands(graph_edges(*graph), m),
                ext@[m as int],
                old(state)@[m as int],
                final(state)@,
                final(state)@[m as int],
                *combine,
                *keep,
            ),
{
    let ghost nodes = graph_nodes(*graph);
    let ghost edges = graph_edges(*graph);
    let ghost n = nodes.len();
    let ghost start = state@;
    let mut k: usize = 0;
    while k < order.len()
        invariant
            nodes == graph_nodes(*graph),
            edges == graph_edges(*graph),
            n == nodes.len(),
            crate::graph::edges_forward(n, edges),
            is_topo_order(n, edges, order@),
            ext@.len() == n,
            start.len() == n,
            0 <= k <= order@.len(),
            state@.len() == n,
            forall|j: usize, args: Vec<i64>| #[trigger] combine.requires((j, args)),
            forall|j: usize, v: i64| #[trigger] keep.requires((j, v)),
            forall|j: int|
                0 <= j < k ==> #[trigger] node_rule(
                    nodes,
                    order@[j],
                    operands(edges, order@[j]),
                    ext@[order@[j] as int],
                    start[order@[j] as int],
                    state@,
                    state@[order@[j] as int],
                    *combine,
                    *keep,
                ),
            forall|m: usize| m < n && !order@.take(k as int).contains(m) ==> #[trigger] state@[m as int] == start[m as int],
        decreases order@.len() - k,
    {
        let x = order[k];
        proof {
            assert(!order@.take(k as int).contains(x)) by {
                if order@.take(k as int).contains(x) {
                    let j = choose|j: int| 0 <= j < k && order@.take(k as int)[j] == x;
                    assert(order@[j] == order@[k as int]);
                }
            }
        }
        let new = update_node(graph, x, ext[x], state[x], state, combine, keep);
        let ghost before = state@;
        state.set(x, new);
        proof {
            assert(forall|j: int| 0 <= j < operands(edges, x).len() ==> #[trigger] operands(edges, x)[j] != x) by {
                assert forall|j: int| 0 <= j < operands(edges, x).len() implies #[trigger] operands(edges, x)[j] != x by {
                    lemma_operand_edge(edges, x, j);
                    let e = choose|e: int| 0 <= e < edges.len() && #[trigger] edges[e].1 == x && edges[e].0 == operands(edges, x)[j];
                    assert(edges[e].0 < edges[e].1);
                }
            }
            assert forall|q: int| 0 <= q < operands(edges, x).len() implies #[trigger] before[operands(edges, x)[q] as int] == state@[operands(edges, x)[q] as int] by {
                lemma_operand_edge(edges, x, q);
                let e = choose|e: int| 0 <= e < edges.len() && #[trigger] edges[e].1 == x && edges[e].0 == operands(edges, x)[q];
                assert(edges[e].0 < edges[e].1);
            }
            lemma_rule_frame(nodes, x, operands(edges, x), ext@[x as int], start[x as int], before, state@, new, *combine, *keep);
            assert forall|j: int| 0 <= j < k + 1 implies #[trigger] node_rule(
                nodes,
                order@[j],
                operands(edges, order@[j]),
                ext@[order@[j] as int],
                start[order@[j] as int],
                state@,
                state@[order@[j] as int],
                *combine,
                *keep,
            ) by {
                if j < k {
                    let y = order@[j];
                    let ops = operands(edges, y);
                    assert(y != x);
                    assert forall|q: int| 0 <= q < ops.len() implies #[trigger] before[ops[q] as int] == state@[ops[q] as int] by {
                        lemma_operand_edge(edges, y, q);
                        let e = choose|e: int| 0 <= e < edges.len() && #[trigger] edges[e].1 == y && edges[e].0 == ops[q];
                        let u = ops[q];
                        assert(order@.contains(u));
                        let p = choose|p: int| 0 <= p < order@.len() && order@[p] == u;
                        assert(p < j);
                        assert(u != x);
                    }
                    lemma_rule_frame(nodes, y, ops, ext@[y as int], start[y as int], before, state@, before[y as int], *combine, *keep);
                }
            }
            assert forall|m: usize| m < n && !order@.take(k + 1).contains(m) implies #[trigger] state@[m as int] == start[m as int] by {
                assert(order@.take(k + 1)[k as int] == x);
                if order@.take(k as int).contains(m) {
                    let j = choose|j: int| 0 <= j < k && order@.take(k as int)[j] == m;
                    assert(order@.take(k + 1)[j] == m);
                }
            }
        }
        k = k + 1;
    }
    proof {
        assert forall|m: usize| m < n implies #[trigger] node_rule(
            nodes,
            m,
            operands(edges, m),
            ext@[m as int],
            start[m as int],
            state@,
            state@[m as int],
            *combine,
            *keep,
        ) by {
            assert(order@.contains(m));
            let j = choose|j: int| 0 <= j < order@.len() && order@[j] == m;
        }
    }
}

} // verus!
