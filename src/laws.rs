//! Properties that relate the builder and the scheduler, stated over their
//! models and proved.
use crate::analysis::{ErrorKind, Family, FoldNode, MapNode, ReData, ReNode};
use crate::ast::{expr_size, expr_wf, exprs_size, exprs_wf, MapExpr, ReExpr, ReIdent, ReLocal};
use crate::graph::{edges_forward, EdgeRec};
use crate::schedule::is_topo_order;
use crate::visitor::{
    block_size, block_step, block_wf, empty_state, expr_step, group_step, link_all, local_size,
    local_step, lookup, err, BuildState, lemma_add_edge_wf, lemma_add_node_wf, lemma_block_prefix,
    lemma_exprs_prefix, lemma_link_all, lemma_lookup_bound, lemma_pin_node_wf,
};
use vstd::prelude::*;

verus! {

/// What a step leaves: a consistent state that lost no node or name, and on
/// success results that are nodes of it.
pub open spec fn step_ok_wf(s: BuildState, r: crate::visitor::StepResult, size: nat) -> bool {
    &&& r matches Ok((s2, outs, _)) ==> {
        &&& s2.wf()
        &&& outs.len() >= 1
        &&& forall|k: int| 0 <= k < outs.len() ==> #[trigger] outs[k].0 < s2.nodes.len()
        &&& s.nodes.len() <= s2.nodes.len() <= s.nodes.len() + size
        &&& s.names.len() <= s2.names.len()
    }
    &&& r matches Err((s2, _)) ==> {
        &&& s2.wf()
        &&& s.nodes.len() <= s2.nodes.len() <= s.nodes.len() + size
        &&& s.names.len() <= s2.names.len()
    }
}

proof fn lemma_expr_step_wf(s: BuildState, e: ReExpr)
    requires
        s.wf(),
        expr_wf(e),
        s.nodes.len() + expr_size(e) < u32::MAX,
    ensures
        step_ok_wf(s, expr_step(s, e), expr_size(e)),
    decreases e,
{
    let id = s.next();
    match e {
        ReExpr::Var(v) => {
            let node = expr_step(s, e)->Ok_0.0.nodes.last();
            lemma_add_node_wf(s, node);
            assert(expr_step(s, e)->Ok_0.0 == s.add_node(node));
        },
        ReExpr::Evt(v) => {
            let node = expr_step(s, e)->Ok_0.0.nodes.last();
            lemma_add_node_wf(s, node);
            assert(expr_step(s, e)->Ok_0.0 == s.add_node(node));
        },
        ReExpr::Ident(i) => {
            lemma_lookup_bound(s.names, i.ident@);
        },
        ReExpr::Group(g) => {
            lemma_group_step_wf(s, g.exprs@);
        },
        ReExpr::Fold(f) => {
            lemma_expr_step_wf(s, *f.left_expr);
            if let Ok((s1, outs, fam)) = expr_step(s, *f.left_expr) {
                if outs.len() == 1 && fam == Family::Event {
                    let node = ReNode::Fold(
                        FoldNode {
                            initial: f.init_expr,
                            update_expr: f.closure,
                            data: ReData {
                                id: s1.next() as u32,
                                family: Family::Variable,
                                ty: f.closure.return_type,
                                pin: true,
                            },
                        },
                    );
                    lemma_add_node_wf(s1, node);
                    assert(link_all(s1.add_node(node), outs, s1.next()) == expr_step(s, e)->Ok_0.0);
                    lemma_link_all(s1.add_node(node), outs, s1.next());
                }
            }
        },
        ReExpr::Mapping(m) => {
            lemma_expr_step_wf(s, *m.left_expr);
            if let Ok((s1, outs, fam)) = expr_step(s, *m.left_expr) {
                let node = ReNode::Mapping(
                    MapNode {
                        update_expr: m.closure,
                        data: ReData {
                            id: s1.next() as u32,
                            family: fam,
                            ty: m.closure.return_type,
                            pin: false,
                        },
                    },
                );
                lemma_add_node_wf(s1, node);
                assert(link_all(s1.add_node(node), outs, s1.next()) == expr_step(s, e)->Ok_0.0);
                lemma_link_all(s1.add_node(node), outs, s1.next());
            }
        },
        ReExpr::Filter(f) => {
            lemma_expr_step_wf(s, *f.left_expr);
            if let Ok((s1, outs, fam)) = expr_step(s, *f.left_expr) {
                if outs.len() == 1 && fam == Family::Event {
                    let node = expr_step(s, e)->Ok_0.0.nodes[s1.nodes.len() as int];
                    lemma_add_node_wf(s1, node);
                    lemma_add_edge_wf(s1.add_node(node), outs[0].0, s1.next(), outs[0].1);
                    assert(s1.add_node(node).add_edge(outs[0].0, s1.next(), outs[0].1) == expr_step(
                        s,
                        e,
                    )->Ok_0.0);
                }
            }
        },
        ReExpr::Changed(c) => {
            lemma_expr_step_wf(s, *c.left_expr);
            if let Ok((s1, outs, fam)) = expr_step(s, *c.left_expr) {
                if outs.len() == 1 && fam != Family::Event {
                    let s2 = s1.pin_node(outs[0].0);
                    lemma_pin_node_wf(s1, outs[0].0);
                    let node = expr_step(s, e)->Ok_0.0.nodes[s2.nodes.len() as int];
                    lemma_add_node_wf(s2, node);
                    lemma_add_edge_wf(s2.add_node(node), outs[0].0, s2.next(), outs[0].1);
                    assert(s2.add_node(node).add_edge(outs[0].0, s2.next(), outs[0].1) == expr_step(
                        s,
                        e,
                    )->Ok_0.0);
                }
            }
        },
        ReExpr::Choice(c) => {
            lemma_expr_step_wf(s, *c.left_expr);
            if let Ok((s1, a_outs, a_fam)) = expr_step(s, *c.left_expr) {
                lemma_expr_step_wf(s1, *c.right_expr);
                if let Ok((s2, b_outs, b_fam)) = expr_step(s1, *c.right_expr) {
                    if expr_step(s, e) is Ok {
                        let node = expr_step(s, e)->Ok_0.0.nodes[s2.nodes.len() as int];
                        let (a, a_ty) = a_outs[0];
                        let (b, b_ty) = b_outs[0];
                        lemma_add_node_wf(s2, node);
                        lemma_add_edge_wf(s2.add_node(node), a, s2.next(), a_ty);
                        lemma_add_edge_wf(s2.add_node(node).add_edge(a, s2.next(), a_ty), b, s2.next(), a_ty);
                        assert(s2.add_node(node).add_edge(a, s2.next(), a_ty).add_edge(b, s2.next(), a_ty)
                            == expr_step(s, e)->Ok_0.0);
                    }
                }
            }
        },
    }
}

proof fn lemma_group_step_wf(s: BuildState, es: Seq<ReExpr>)
    requires
        s.wf(),
        exprs_wf(es),
        s.nodes.len() + exprs_size(es) < u32::MAX,
    ensures
        group_step(s, es) matches Ok((s2, outs, _)) ==> {
            &&& s2.wf()
            &&& forall|k: int| 0 <= k < outs.len() ==> #[trigger] outs[k].0 < s2.nodes.len()
            &&& s.nodes.len() <= s2.nodes.len() <= s.nodes.len() + exprs_size(es)
            &&& s.names.len() <= s2.names.len()
            &&& es.len() > 0 ==> outs.len() >= 1
        },
        group_step(s, es) matches Err((s2, _)) ==> {
            &&& s2.wf()
            &&& s.nodes.len() <= s2.nodes.len() <= s.nodes.len() + exprs_size(es)
            &&& s.names.len() <= s2.names.len()
        },
    decreases es,
{
    if es.len() > 0 {
        lemma_exprs_prefix(es, es.len() - 1);
        assert(es.take(es.len() - 1) =~= es.drop_last());
        lemma_group_step_wf(s, es.drop_last());
        if let Ok((s1, outs, fam)) = group_step(s, es.drop_last()) {
            lemma_expr_step_wf(s1, es.last());
            if let Ok((s2, o2, f2)) = expr_step(s1, es.last()) {
                let all = outs + o2;
                assert forall|k: int| 0 <= k < all.len() implies #[trigger] all[k].0 < s2.nodes.len() by {
                    if k < outs.len() {
                        assert(all[k] == outs[k]);
                    } else {
                        assert(all[k] == o2[k - outs.len()]);
                    }
                }
            }
        }
    }
}

proof fn lemma_local_step_wf(s: BuildState, l: ReLocal)
    requires
        s.wf(),
        expr_wf(l.init),
        s.nodes.len() + local_size(l) < u32::MAX,
    ensures
        local_step(s, l) matches Ok(s2) ==> s2.wf() && s2.nodes.len() <= s.nodes.len() + local_size(l),
{
    lemma_expr_step_wf(s, l.init);
    if let Ok((s1, outs, fam)) = expr_step(s, l.init) {
        if let Ok(s3) = local_step(s, l) {
            let (last, ty) = outs[0];
            let s2 = if l.pin_token is Some { s1.pin_node(last) } else { s1 };
            lemma_pin_node_wf(s1, last);
            assert(s2.wf());
            assert forall|k: int| 0 <= k < s3.edges.len() implies #[trigger] s3.edges[k].0 < s3.edges[k].1
                && s3.edges[k].1 < s3.nodes.len() by {
                if k < s2.edges.len() {
                    assert(s3.edges[k] == s2.edges[k]);
                    assert(s2.edges[k].0 < s2.edges[k].1 && s2.edges[k].1 < s2.nodes.len());
                }
            }
            assert forall|k: int| 0 <= k < s3.names.len() implies #[trigger] s3.names[k].1 < s3.nodes.len() by {
                if k < s2.names.len() {
                    assert(s3.names[k] == s2.names[k]);
                }
            }
        }
    }
}

proof fn lemma_block_step_wf(ls: Seq<ReLocal>)
    requires
        block_wf(ls),
        block_size(ls) < u32::MAX,
    ensures
        block_step(empty_state(), ls) matches Ok(s) ==> s.wf() && s.nodes.len() <= block_size(ls),
    decreases ls.len(),
{
    if ls.len() == 0 {
        assert(empty_state().wf());
    } else {
        lemma_block_prefix(ls, ls.len() - 1);
        assert(ls.take(ls.len() - 1) =~= ls.drop_last());
        assert(block_wf(ls.drop_last())) by {
            assert forall|i: int| 0 <= i < ls.drop_last().len() implies expr_wf(#[trigger] ls.drop_last()[i].init) by {
                assert(ls.drop_last()[i] == ls[i]);
            }
        }
        lemma_block_step_wf(ls.drop_last());
        if let Ok(s1) = block_step(empty_state(), ls.drop_last()) {
            assert(ls.last() == ls[ls.len() - 1]);
            lemma_local_step_wf(s1, ls.last());
        }
    }
}

/// The nodes in index order.
pub open spec fn index_order(n: nat) -> Seq<usize> {
    Seq::new(n, |i: int| i as usize)
}

/// Every graph built from declarations that compile is acyclic: each edge
/// runs from an earlier node to a later one, so the graph has a topological
/// order (its nodes by index, for one), and `topological_order` lists each of
/// its nodes exactly once.
pub proof fn law_compiled_graph_is_ordered(ls: Seq<ReLocal>)
    requires
        block_wf(ls),
        block_size(ls) < u32::MAX,
    ensures
        block_step(empty_state(), ls) matches Ok(s) ==> {
            &&& edges_forward(s.nodes.len(), s.edges)
            &&& is_topo_order(s.nodes.len(), s.edges, index_order(s.nodes.len()))
        },
{
    lemma_block_step_wf(ls);
    if let Ok(s) = block_step(empty_state(), ls) {
        let n = s.nodes.len();
        let o = index_order(n);
        assert forall|m: usize| m < n implies #[trigger] o.contains(m) by {
            assert(o[m as int] == m);
        }
        assert forall|k: int, i: int, j: int|
            #![trigger s.edges[k], o[i], o[j]]
            0 <= k < s.edges.len() && 0 <= i < o.len() && 0 <= j < o.len() && o[i] == s.edges[k].0
                && o[j] == s.edges[k].1 implies i < j by {
            assert(s.edges[k].0 < s.edges[k].1);
        }
    }
}

/// Two runs of the scheduler on one graph whose edges run forward give two
/// topological orders of that same graph; they hold the same nodes.
pub proof fn law_reschedule(n: nat, edges: Seq<EdgeRec>, first: Seq<usize>, second: Seq<usize>)
    requires
        edges_forward(n, edges),
        edges_forward(n, edges) ==> is_topo_order(n, edges, first),
        edges_forward(n, edges) ==> is_topo_order(n, edges, second),
    ensures
        is_topo_order(n, edges, first),
        is_topo_order(n, edges, second),
        first.to_set() == second.to_set(),
        first.len() == second.len(),
{
    assert(first.to_set() =~= second.to_set());
    first.unique_seq_to_set();
    second.unique_seq_to_set();
}

proof fn lemma_link_all_nodes(s: BuildState, outs: crate::visitor::Outs, target: usize)
    ensures
        link_all(s, outs, target).nodes == s.nodes,
    decreases outs.len(),
{
    if outs.len() > 0 {
        lemma_link_all_nodes(s, outs.drop_last(), target);
    }
}

/// A map node has the family of its input: over an `Event` it is an `Event`,
/// over a `Variable` a `Variable`; so is the result it hands on.
pub proof fn law_map_family(s: BuildState, m: MapExpr)
    requires
        s.wf(),
        expr_wf(ReExpr::Mapping(m)),
        s.nodes.len() + expr_size(ReExpr::Mapping(m)) < u32::MAX,
    ensures
        expr_step(s, ReExpr::Mapping(m)) matches Ok((s2, outs, fam)) ==> {
            &&& expr_step(s, *m.left_expr) matches Ok((_, _, input)) && fam == input
            &&& outs.len() == 1
            &&& s2.nodes[outs[0].0 as int] is Mapping
            &&& s2.nodes[outs[0].0 as int].data().family == fam
        },
{
    if let Ok((s1, outs, fam)) = expr_step(s, *m.left_expr) {
        let node = ReNode::Mapping(
            MapNode {
                update_expr: m.closure,
                data: ReData { id: s1.next() as u32, family: fam, ty: m.closure.return_type, pin: false },
            },
        );
        lemma_link_all_nodes(s1.add_node(node), outs, s1.next());
        lemma_expr_step_wf(s, *m.left_expr);
    }
}

/// The families of a group's members, each compiled after the ones before it.
pub open spec fn member_families(s: BuildState, es: Seq<ReExpr>) -> Seq<Family>
    decreases es,
{
    if es.len() == 0 {
        Seq::empty()
    } else {
        match group_step(s, es.drop_last()) {
            Ok((s1, _, _)) => match expr_step(s1, es.last()) {
                Ok((_, _, f)) => member_families(s, es.drop_last()).push(f),
                Err(_) => Seq::empty(),
            },
            Err(_) => Seq::empty(),
        }
    }
}

/// A group is an `Event` exactly when at least one of its members is one;
/// otherwise it is a `Variable`.
pub proof fn law_group_family(s: BuildState, es: Seq<ReExpr>)
    ensures
        group_step(s, es) matches Ok((_, _, fam)) ==> {
            &&& member_families(s, es).len() == es.len()
            &&& (fam == Family::Event <==> member_families(s, es).contains(Family::Event))
        },
    decreases es,
{
    if es.len() > 0 {
        law_group_family(s, es.drop_last());
        if let Ok((s1, _, fam1)) = group_step(s, es.drop_last()) {
            if let Ok((_, _, f)) = expr_step(s1, es.last()) {
                let prev = member_families(s, es.drop_last());
                let all = prev.push(f);
                assert(all[all.len() - 1] == f);
                if prev.contains(Family::Event) {
                    let i = choose|i: int| 0 <= i < prev.len() && prev[i] == Family::Event;
                    assert(all[i] == Family::Event);
                }
                if all.contains(Family::Event) {
                    let i = choose|i: int| 0 <= i < all.len() && all[i] == Family::Event;
                    if i < prev.len() {
                        assert(prev[i] == Family::Event);
                    }
                }
            }
        }
    }
}

proof fn lemma_link_all_names(s: BuildState, outs: crate::visitor::Outs, target: usize)
    ensures
        link_all(s, outs, target).names == s.names,
    decreases outs.len(),
{
    if outs.len() > 0 {
        lemma_link_all_names(s, outs.drop_last(), target);
    }
}

/// Compiling an expression binds no name, whether it succeeds or fails.
pub proof fn lemma_expr_step_names(s: BuildState, e: ReExpr)
    ensures
        expr_step(s, e) matches Ok((s2, _, _)) ==> s2.names == s.names,
        expr_step(s, e) matches Err((s2, _)) ==> s2.names == s.names,
    decreases e,
{
    match e {
        ReExpr::Group(g) => lemma_group_step_names(s, g.exprs@),
        ReExpr::Fold(f) => {
            lemma_expr_step_names(s, *f.left_expr);
            if let Ok((s1, outs, _)) = expr_step(s, *f.left_expr) {
                lemma_link_all_names(
                    s1.add_node(
                        ReNode::Fold(
                            FoldNode {
                                initial: f.init_expr,
                                update_expr: f.closure,
                                data: ReData {
                                    id: s1.next() as u32,
                                    family: Family::Variable,
                                    ty: f.closure.return_type,
                                    pin: true,
                                },
                            },
                        ),
                    ),
                    outs,
                    s1.next(),
                );
            }
        },
        ReExpr::Mapping(m) => {
            lemma_expr_step_names(s, *m.left_expr);
            if let Ok((s1, outs, fam)) = expr_step(s, *m.left_expr) {
                lemma_link_all_names(
                    s1.add_node(
                        ReNode::Mapping(
                            MapNode {
                                update_expr: m.closure,
                                data: ReData {
                                    id: s1.next() as u32,
                                    family: fam,
                                    ty: m.closure.return_type,
                                    pin: false,
                                },
                            },
                        ),
                    ),
                    outs,
                    s1.next(),
                );
            }
        },
        ReExpr::Filter(f) => lemma_expr_step_names(s, *f.left_expr),
        ReExpr::Changed(c) => lemma_expr_step_names(s, *c.left_expr),
        ReExpr::Choice(c) => {
            lemma_expr_step_names(s, *c.left_expr);
            if let Ok((s1, _, _)) = expr_step(s, *c.left_expr) {
                lemma_expr_step_names(s1, *c.right_expr);
            }
        },
        _ => {},
    }
}

proof fn lemma_group_step_names(s: BuildState, es: Seq<ReExpr>)
    ensures
        group_step(s, es) matches Ok((s2, _, _)) ==> s2.names == s.names,
        group_step(s, es) matches Err((s2, _)) ==> s2.names == s.names,
    decreases es,
{
    if es.len() > 0 {
        lemma_group_step_names(s, es.drop_last());
        if let Ok((s1, _, _)) = group_step(s, es.drop_last()) {
            lemma_expr_step_names(s1, es.last());
        }
    }
}

/// Binding an identifier that is already bound fails with
/// `DuplicateBinding` at the new identifier, once its expression compiled;
/// no name is added, so the earlier binding still resolves as before.
pub proof fn law_duplicate_binding(s: BuildState, l: ReLocal)
    requires
        expr_step(s, l.init) is Ok,
        lookup(s.names, l.ident.ident@) is Some,
    ensures
        local_step(s, l) matches Err((s1, x)) && x.kind == ErrorKind::DuplicateBinding && x.span
            == l.ident.span && s1.names == s.names,
{
    lemma_expr_step_names(s, l.init);
}

/// A reference to an identifier resolves to its binding and changes nothing;
/// one that no declaration bound fails with `UnknownReactive` at the
/// reference, leaving the state as it was.
pub proof fn law_reference(s: BuildState, i: ReIdent)
    ensures
        lookup(s.names, i.ident@) is None ==> expr_step(s, ReExpr::Ident(i))
            == crate::visitor::StepResult::Err((s, err(ErrorKind::UnknownReactive, i.span))),
        lookup(s.names, i.ident@) matches Some(k) ==> expr_step(s, ReExpr::Ident(i)) == Ok::<
            (BuildState, crate::visitor::Outs, Family),
            crate::visitor::Failure,
        >((s, seq![(s.names[k].1, s.names[k].0.data.ty)], s.names[k].0.data.family)),
{
}

} // verus!
