//! Builds the dataflow graph from the declarations, enforcing each rule as it
//! goes and stopping at the first error.
use crate::analysis::{
    ChangedNode, ChoiceNode, ErrorKind, EvtNode, Family, FilterNode, FoldNode, MapNode, NameNode,
    NodeData, ReData, ReEdge, ReError, ReNode, VarNode,
};
use crate::ast::{
    expr_size, expr_wf, exprs_size, exprs_wf, ChangedExpr, ChoiceExpr, EvtExpr, FilterExpr, FoldExpr,
    GroupExpr, MapExpr, ReBlock, ReClosure, ReExpr, ReIdent, ReLocal, VarExpr,
};
use crate::graph::{
    add_edge, add_node, edges_forward, graph_edges, graph_new, graph_nodes, node_count, node_weight,
    node_weight_mut, EdgeRec, ReGraph,
};
use vstd::prelude::*;

verus! {

/// The graph under construction and the names bound so far.
pub struct BuildState {
    pub nodes: Seq<ReNode>,
    pub edges: Seq<EdgeRec>,
    pub names: Seq<(NameNode, usize)>,
}

/// The results of an expression: each (node index, value type).
pub type Outs = Seq<(usize, String)>;

/// A compile error together with the state of the builder when it arose.
pub type Failure = (BuildState, ReError);

/// What compiling an expression gives: the new state, its results and their
/// combined family; or the error and the state at that point.
pub type StepResult = Result<(BuildState, Outs, Family), Failure>;

impl BuildState {
    pub open spec fn add_node(self, n: ReNode) -> BuildState {
        BuildState { nodes: self.nodes.push(n), ..self }
    }

    pub open spec fn add_edge(self, a: usize, b: usize, ty: String) -> BuildState {
        BuildState { edges: self.edges.push((a, b, ReEdge { ty })), ..self }
    }

    pub open spec fn pin_node(self, i: usize) -> BuildState {
        BuildState { nodes: self.nodes.update(i as int, self.nodes[i as int].pinned()), ..self }
    }

    /// Index that the next node gets.
    pub open spec fn next(self) -> usize {
        self.nodes.len() as usize
    }

    /// Nodes plus edges: what the `u32` index spaces of the graph must hold.
    pub open spec fn measure(self) -> nat {
        self.nodes.len() + self.edges.len()
    }

    /// Every edge runs from an earlier node to a later one, and every name
    /// refers to a node that exists.
    pub open spec fn wf(self) -> bool {
        &&& edges_forward(self.nodes.len(), self.edges)
        &&& forall|k: int| 0 <= k < self.names.len() ==> #[trigger] self.names[k].1 < self.nodes.len()
    }
}

pub open spec fn ok_step(s: BuildState, outs: Outs, fam: Family) -> StepResult {
    Ok((s, outs, fam))
}

pub open spec fn err(kind: ErrorKind, span: proc_macro2::Span) -> ReError {
    ReError { kind, span }
}

/// Position of the first binding of `x`, if any.
pub open spec fn lookup(names: Seq<(NameNode, usize)>, x: Seq<char>) -> Option<int>
    decreases names.len(),
{
    if names.len() == 0 {
        None
    } else {
        match lookup(names.drop_last(), x) {
            Some(k) => Some(k),
            None => if names.last().0.id.ident@ == x {
                Some(names.len() - 1)
            } else {
                None
            },
        }
    }
}

proof fn lemma_lookup_found(names: Seq<(NameNode, usize)>, x: Seq<char>, i: int)
    requires
        0 <= i < names.len(),
        lookup(names.take(i), x) is None,
        names[i].0.id.ident@ == x,
    ensures
        lookup(names, x) == Some(i),
    decreases names.len(),
{
    assert(names.take(i + 1).drop_last() =~= names.take(i));
    if i + 1 < names.len() {
        assert(names.drop_last().take(i) =~= names.take(i));
        lemma_lookup_found(names.drop_last(), x, i);
    } else {
        assert(names.drop_last() =~= names.take(i));
    }
}

pub(crate) proof fn lemma_lookup_bound(names: Seq<(NameNode, usize)>, x: Seq<char>)
    ensures
        lookup(names, x) matches Some(k) ==> 0 <= k < names.len(),
    decreases names.len(),
{
    if names.len() > 0 {
        lemma_lookup_bound(names.drop_last(), x);
    }
}

/// An edge from each of `outs`, in order, to `target`.
pub open spec fn link_all(s: BuildState, outs: Outs, target: usize) -> BuildState
    decreases outs.len(),
{
    if outs.len() == 0 {
        s
    } else {
        link_all(s, outs.drop_last(), target).add_edge(outs.last().0, target, outs.last().1)
    }
}

/// Adds the alias node for a declaration, with an edge from what it names.
pub open spec fn bind(
    s: BuildState,
    name: crate::ast::ReIdent,
    last: usize,
    ty: String,
    fam: Family,
    pin: bool,
) -> BuildState {
    let nn = NameNode {
        id: name,
        data: ReData { id: s.next() as u32, family: fam, ty, pin },
    };
    BuildState {
        nodes: s.nodes.push(ReNode::Name(nn)),
        edges: s.edges.push((last, s.next(), ReEdge { ty })),
        names: s.names.push((nn, s.next())),
    }
}

/// Compiling one expression against state `s`.
pub open spec fn expr_step(s: BuildState, e: ReExpr) -> StepResult
    decreases e,
{
    let id = s.next();
    match e {
        ReExpr::Var(v) => {
            let node = ReNode::Var(
                VarNode {
                    initial: v.expr,
                    data: ReData { id: id as u32, family: Family::Variable, ty: v.ty, pin: true },
                },
            );
            Ok((s.add_node(node), seq![(id, v.ty)], Family::Variable))
        },
        ReExpr::Evt(v) => {
            let node = ReNode::Evt(
                EvtNode { data: ReData { id: id as u32, family: Family::Event, ty: v.ty, pin: true } },
            );
            Ok((s.add_node(node), seq![(id, v.ty)], Family::Event))
        },
        ReExpr::Ident(i) => match lookup(s.names, i.ident@) {
            Some(k) => Ok((s, seq![(s.names[k].1, s.names[k].0.data.ty)], s.names[k].0.data.family)),
            None => Err((s, err(ErrorKind::UnknownReactive, i.span))),
        },
        ReExpr::Group(g) => group_step(s, g.exprs@),
        ReExpr::Fold(f) => match expr_step(s, *f.left_expr) {
            Err(x) => Err(x),
            Ok((s1, outs, fam)) => if fam != Family::Event {
                Err((s1, err(ErrorKind::FoldRequiresEvent, f.fold_token)))
            } else if outs.len() != 1 {
                Err((s1, err(ErrorKind::UnexpectedGroup, f.fold_token)))
            } else {
                let ty = f.closure.return_type;
                let node = ReNode::Fold(
                    FoldNode {
                        initial: f.init_expr,
                        update_expr: f.closure,
                        data: ReData { id: s1.next() as u32, family: Family::Variable, ty, pin: true },
                    },
                );
                Ok(
                    (
                        link_all(s1.add_node(node), outs, s1.next()),
                        seq![(s1.next(), ty)],
                        Family::Variable,
                    ),
                )
            },
        },
        ReExpr::Mapping(m) => match expr_step(s, *m.left_expr) {
            Err(x) => Err(x),
            Ok((s1, outs, fam)) => {
                let ty = m.closure.return_type;
                let node = ReNode::Mapping(
                    MapNode {
                        update_expr: m.closure,
                        data: ReData { id: s1.next() as u32, family: fam, ty, pin: false },
                    },
                );
                Ok((link_all(s1.add_node(node), outs, s1.next()), seq![(s1.next(), ty)], fam))
            },
        },
        ReExpr::Filter(f) => match expr_step(s, *f.left_expr) {
            Err(x) => Err(x),
            Ok((s1, outs, fam)) => if fam != Family::Event {
                Err((s1, err(ErrorKind::FilterRequiresEvent, f.filter_token)))
            } else if outs.len() != 1 {
                Err((s1, err(ErrorKind::UnexpectedGroup, f.filter_token)))
            } else {
                let (src, ty) = outs[0];
                let node = ReNode::Filter(
                    FilterNode {
                        filter_expr: f.closure,
                        data: ReData { id: s1.next() as u32, family: Family::Event, ty, pin: false },
                    },
                );
                Ok(
                    (
                        s1.add_node(node).add_edge(src, s1.next(), ty),
                        seq![(s1.next(), ty)],
                        Family::Event,
                    ),
                )
            },
        },
        ReExpr::Changed(c) => match expr_step(s, *c.left_expr) {
            Err(x) => Err(x),
            Ok((s1, outs, fam)) => if fam == Family::Event {
                Err((s1, err(ErrorKind::ChangedRequiresVariable, c.changed_token)))
            } else if outs.len() != 1 {
                Err((s1, err(ErrorKind::UnexpectedGroup, c.changed_token)))
            } else {
                let (src, ty) = outs[0];
                let s2 = s1.pin_node(src);
                let node = ReNode::Changed(
                    ChangedNode {
                        data: ReData { id: s2.next() as u32, family: Family::Event, ty, pin: false },
                    },
                );
                Ok(
                    (
                        s2.add_node(node).add_edge(src, s2.next(), ty),
                        seq![(s2.next(), ty)],
                        Family::Event,
                    ),
                )
            },
        },
        ReExpr::Choice(c) => match expr_step(s, *c.left_expr) {
            Err(x) => Err(x),
            Ok((s1, a_outs, a_fam)) => match expr_step(s1, *c.right_expr) {
                Err(x) => Err(x),
                Ok((s2, b_outs, b_fam)) => {
                    let (a, a_ty) = a_outs[0];
                    let (b, b_ty) = b_outs[0];
                    if a_outs.len() != 1 || b_outs.len() != 1 {
                        Err((s2, err(ErrorKind::UnexpectedGroup, c.oror)))
                    } else if a_ty@ != b_ty@ {
                        Err((s2, err(ErrorKind::TypeMismatch, c.oror)))
                    } else if a_fam != Family::Event || b_fam != Family::Event {
                        Err((s2, err(ErrorKind::FamilyMismatch, c.oror)))
                    } else {
                        let node = ReNode::Choice(
                            ChoiceNode {
                                data: ReData {
                                    id: s2.next() as u32,
                                    family: Family::Event,
                                    ty: a_ty,
                                    pin: false,
                                },
                            },
                        );
                        Ok(
                            (
                                s2.add_node(node).add_edge(a, s2.next(), a_ty).add_edge(
                                    b,
                                    s2.next(),
                                    a_ty,
                                ),
                                seq![(s2.next(), a_ty)],
                                Family::Event,
                            ),
                        )
                    }
                },
            },
        },
    }
}

/// Compiling the members of a group in order: their results side by side,
/// `Event` if any member is one.
pub open spec fn group_step(s: BuildState, es: Seq<ReExpr>) -> StepResult
    decreases es,
{
    if es.len() == 0 {
        Ok((s, Seq::empty(), Family::Variable))
    } else {
        match group_step(s, es.drop_last()) {
            Err(x) => Err(x),
            Ok((s1, outs, fam)) => match expr_step(s1, es.last()) {
                Err(x) => Err(x),
                Ok((s2, o2, f2)) => Ok(
                    (s2, outs + o2, if f2 == Family::Event { Family::Event } else { fam }),
                ),
            },
        }
    }
}

/// Compiling one declaration. A name denotes a single reactive: a group of
/// several is rejected, as `CannotPinGroup` under a pin marker.
pub open spec fn local_step(s: BuildState, l: ReLocal) -> Result<BuildState, Failure> {
    match expr_step(s, l.init) {
        Err(x) => Err(x),
        Ok((s1, outs, fam)) => if lookup(s1.names, l.ident.ident@) is Some {
            Err((s1, err(ErrorKind::DuplicateBinding, l.ident.span)))
        } else if outs.len() != 1 {
            match l.pin_token {
                Some(sp) => Err((s1, err(ErrorKind::CannotPinGroup, sp))),
                None => Err((s1, err(ErrorKind::UnexpectedGroup, l.ident.span))),
            }
        } else {
            let (last, ty) = outs[0];
            let node = s1.nodes[last as int];
            match l.pin_token {
                Some(sp) => if node is Name {
                    Err((s1, err(ErrorKind::PinIndirection, node->Name_0.id.span)))
                } else {
                    Ok(bind(s1.pin_node(last), l.ident, last, ty, fam, true))
                },
                None => Ok(bind(s1, l.ident, last, ty, fam, node.data().pin)),
            }
        },
    }
}

/// Compiling declarations in order, stopping at the first error.
pub open spec fn block_step(s: BuildState, ls: Seq<ReLocal>) -> Result<BuildState, Failure>
    decreases ls.len(),
{
    if ls.len() == 0 {
        Ok(s)
    } else {
        match block_step(s, ls.drop_last()) {
            Err(x) => Err(x),
            Ok(s1) => local_step(s1, ls.last()),
        }
    }
}

pub open spec fn local_size(l: ReLocal) -> nat {
    expr_size(l.init) + 1
}

pub open spec fn block_size(ls: Seq<ReLocal>) -> nat
    decreases ls.len(),
{
    if ls.len() == 0 {
        0
    } else {
        block_size(ls.drop_last()) + local_size(ls.last())
    }
}

pub open spec fn block_wf(ls: Seq<ReLocal>) -> bool {
    forall|i: int| 0 <= i < ls.len() ==> expr_wf(#[trigger] ls[i].init)
}

/// The empty state that compilation starts from.
pub open spec fn empty_state() -> BuildState {
    BuildState { nodes: Seq::empty(), edges: Seq::empty(), names: Seq::empty() }
}

pub(crate) proof fn lemma_add_node_wf(s: BuildState, n: ReNode)
    requires
        s.wf(),
    ensures
        s.add_node(n).wf(),
        s.add_node(n).measure() == s.measure() + 1,
{
    assert(edges_forward(s.nodes.len(), s.edges));
    assert forall|k: int| 0 <= k < s.edges.len() implies #[trigger] s.edges[k].0 < s.edges[k].1
        && s.edges[k].1 < s.add_node(n).nodes.len() by {
        assert(s.edges[k].0 < s.edges[k].1 && s.edges[k].1 < s.nodes.len());
    }
}

pub(crate) proof fn lemma_pin_node_wf(s: BuildState, i: usize)
    requires
        s.wf(),
        i < s.nodes.len(),
    ensures
        s.pin_node(i).wf(),
        s.pin_node(i).measure() == s.measure(),
        s.pin_node(i).nodes.len() == s.nodes.len(),
{
}

pub(crate) proof fn lemma_add_edge_wf(s: BuildState, a: usize, b: usize, ty: String)
    requires
        s.wf(),
        a < b < s.nodes.len(),
    ensures
        s.add_edge(a, b, ty).wf(),
        s.add_edge(a, b, ty).measure() == s.measure() + 1,
{
    assert forall|k: int| 0 <= k < s.add_edge(a, b, ty).edges.len() implies #[trigger] s.add_edge(a, b, ty).edges[k].0 < s.add_edge(a, b, ty).edges[k].1
        && s.add_edge(a, b, ty).edges[k].1 < s.nodes.len() by {
        if k < s.edges.len() {
            assert(s.add_edge(a, b, ty).edges[k] == s.edges[k]);
        }
    }
}

pub(crate) proof fn lemma_link_all(s: BuildState, outs: Outs, target: usize)
    requires
        s.wf(),
        target < s.nodes.len(),
        forall|k: int| 0 <= k < outs.len() ==> #[trigger] outs[k].0 < target,
    ensures
        link_all(s, outs, target).wf(),
        link_all(s, outs, target).nodes == s.nodes,
        link_all(s, outs, target).names == s.names,
        link_all(s, outs, target).edges.len() == s.edges.len() + outs.len(),
    decreases outs.len(),
{
    if outs.len() > 0 {
        lemma_link_all(s, outs.drop_last(), target);
    }
}

pub(crate) proof fn lemma_exprs_prefix(es: Seq<ReExpr>, i: int)
    requires
        0 <= i <= es.len(),
    ensures
        exprs_size(es.take(i)) <= exprs_size(es),
        exprs_wf(es) ==> exprs_wf(es.take(i)),
        i < es.len() ==> es.take(i + 1).drop_last() == es.take(i) && es.take(i + 1).last() == es[i]
            && exprs_size(es.take(i + 1)) == exprs_size(es.take(i)) + expr_size(es[i]),
        i < es.len() && exprs_wf(es) ==> expr_wf(es[i]),
    decreases es.len(),
{
    assert(es.take(es.len() as int) =~= es);
    if i < es.len() {
        assert(es.take(i + 1).drop_last() =~= es.take(i));
        lemma_exprs_prefix(es.drop_last(), i);
        assert(es.drop_last().take(i) =~= es.take(i));
        if i + 1 < es.len() {
            lemma_exprs_prefix(es.drop_last(), i + 1);
            assert(es.drop_last().take(i + 1) =~= es.take(i + 1));
        }
    }
}

proof fn lemma_group_err(s: BuildState, es: Seq<ReExpr>, j: int)
    requires
        0 <= j <= es.len(),
        group_step(s, es.take(j)) is Err,
    ensures
        group_step(s, es) == group_step(s, es.take(j)),
    decreases es.len(),
{
    if j == es.len() {
        assert(es.take(j) =~= es);
    } else {
        assert(es.drop_last().take(j) =~= es.take(j));
        lemma_group_err(s, es.drop_last(), j);
    }
}

proof fn lemma_block_err(s: BuildState, ls: Seq<ReLocal>, j: int)
    requires
        0 <= j <= ls.len(),
        block_step(s, ls.take(j)) is Err,
    ensures
        block_step(s, ls) == block_step(s, ls.take(j)),
    decreases ls.len(),
{
    if j == ls.len() {
        assert(ls.take(j) =~= ls);
    } else {
        assert(ls.drop_last().take(j) =~= ls.take(j));
        lemma_block_err(s, ls.drop_last(), j);
    }
}

pub(crate) proof fn lemma_block_prefix(ls: Seq<ReLocal>, i: int)
    requires
        0 <= i <= ls.len(),
    ensures
        block_size(ls.take(i)) <= block_size(ls),
        i < ls.len() ==> ls.take(i + 1).drop_last() == ls.take(i) && ls.take(i + 1).last() == ls[i]
            && block_size(ls.take(i + 1)) == block_size(ls.take(i)) + local_size(ls[i]),
    decreases ls.len(),
{
    assert(ls.take(ls.len() as int) =~= ls);
    if i < ls.len() {
        assert(ls.take(i + 1).drop_last() =~= ls.take(i));
        lemma_block_prefix(ls.drop_last(), i);
        assert(ls.drop_last().take(i) =~= ls.take(i));
        if i + 1 < ls.len() {
            lemma_block_prefix(ls.drop_last(), i + 1);
            assert(ls.drop_last().take(i + 1) =~= ls.take(i + 1));
        }
    }
}

/// What compiling expression `e` from `old` to `new` must give: exactly what
/// `expr_step` says, the builder state included, which stays consistent
/// either way; on success at least one result, no node lost, and growth
/// bounded by the size of `e`.
pub open spec fn step_post(
    old: ReVisitor,
    new: ReVisitor,
    e: ReExpr,
    r: Result<(Vec<(usize, String)>, Family), ReError>,
) -> bool {
    match r {
        Ok((outs, fam)) => {
            &&& expr_step(old.state(), e) == ok_step(new.state(), outs@, fam)
            &&& new.wf()
            &&& outs@.len() >= 1
            &&& forall|k: int|
                0 <= k < outs@.len() ==> #[trigger] outs@[k].0 < new.state().nodes.len()
            &&& new.state().nodes.len() >= old.state().nodes.len()
            &&& new.state().measure() + outs@.len() <= old.state().measure() + 3 * expr_size(e)
        },
        Err(x) => expr_step(old.state(), e) == StepResult::Err((new.state(), x)) && new.wf(),
    }
}

fn single(idx: usize, ty: String) -> (r: Vec<(usize, String)>)
    ensures
        r@ == seq![(idx, ty)],
{
    let mut r = Vec::new();
    r.push((idx, ty));
    r
}

/// `min(exprs_size(g.exprs@), cap)`, and whether `g` and every group in it
/// are non-empty.
fn group_measure(g: &GroupExpr, cap: u64) -> (r: (u64, bool))
    ensures
        r.0 == if exprs_size(g.exprs@) < cap { exprs_size(g.exprs@) } else { cap as nat },
        r.1 == (g.exprs@.len() > 0 && exprs_wf(g.exprs@)),
    decreases *g,
{
        let mut total: u64 = 0;
        let mut wf = g.exprs.len() > 0;
        let mut k: usize = 0;
        while k < g.exprs.len()
            invariant
                0 <= k <= g.exprs@.len(),
                total == if exprs_size(g.exprs@.take(k as int)) < cap {
                    exprs_size(g.exprs@.take(k as int))
                } else {
                    cap as nat
                },
                wf == (g.exprs@.len() > 0 && exprs_wf(g.exprs@.take(k as int))),
            decreases g.exprs@.len() - k,
        {
            proof {
                lemma_exprs_prefix(g.exprs@, k as int);
            }
            let (m, w) = expr_measure(&g.exprs[k], cap);
            total = if total >= cap - m { cap } else { total + m };
            wf = wf && w;
            k = k + 1;
        }
        assert(g.exprs@.take(g.exprs@.len() as int) =~= g.exprs@);
        (total, wf)
}

/// `min(expr_size(e), cap)`, and whether every group in `e` is non-empty.
fn expr_measure(e: &ReExpr, cap: u64) -> (r: (u64, bool))
    ensures
        r.0 == if expr_size(*e) < cap { expr_size(*e) } else { cap as nat },
        r.1 == expr_wf(*e),
    decreases *e,
{
    let (inner, wf) = match e {
        ReExpr::Var(_) => (0, true),
        ReExpr::Evt(_) => (0, true),
        ReExpr::Ident(_) => (0, true),
        ReExpr::Group(g) => group_measure(g, cap),
        ReExpr::Fold(f) => expr_measure(&f.left_expr, cap),
        ReExpr::Mapping(m) => expr_measure(&m.left_expr, cap),
        ReExpr::Filter(f) => expr_measure(&f.left_expr, cap),
        ReExpr::Changed(c) => expr_measure(&c.left_expr, cap),
        ReExpr::Choice(c) => {
            let (a, wa) = expr_measure(&c.left_expr, cap);
            let (b, wb) = expr_measure(&c.right_expr, cap);
            (if a >= cap - b { cap } else { a + b }, wa && wb)
        },
    };
    (if inner >= cap { cap } else { inner + 1 }, wf)
}

/// Whether `compile` accepts `block`: every group in it is non-empty and the
/// graph it can make fits the `u32` index space.
pub fn fits(block: &ReBlock) -> (r: bool)
    ensures
        r == (block_wf(block.stmts@) && 3 * block_size(block.stmts@) < u32::MAX),
{
    let cap: u64 = 0x5555_5555;
    let mut total: u64 = 0;
    let mut k: usize = 0;
    while k < block.stmts.len()
        invariant
            0 <= k <= block.stmts@.len(),
            cap == 0x5555_5555,
            total == if block_size(block.stmts@.take(k as int)) < cap {
                block_size(block.stmts@.take(k as int))
            } else {
                cap as nat
            },
            forall|j: int| 0 <= j < k ==> expr_wf(#[trigger] block.stmts@[j].init),
        decreases block.stmts@.len() - k,
    {
        proof {
            lemma_block_prefix(block.stmts@, k as int);
        }
        let (m, w) = expr_measure(&block.stmts[k].init, cap);
        if !w {
            return false;
        }
        let m1 = if m >= cap { cap } else { m + 1 };
        total = if total >= cap - m1 { cap } else { total + m1 };
        k = k + 1;
    }
    assert(block.stmts@.take(block.stmts@.len() as int) =~= block.stmts@);
    total < cap
}

/// Compiles a block of declarations into its dataflow graph, or the first
/// error in it.
pub fn compile(block: &ReBlock) -> (r: Result<ReGraph, ReError>)
    requires
        block_wf(block.stmts@),
        3 * block_size(block.stmts@) < u32::MAX,
    ensures
        match block_step(empty_state(), block.stmts@) {
            Ok(s) => r matches Ok(g) && graph_nodes(g) == s.nodes && graph_edges(g) == s.edges,
            Err((_, x)) => r == Err::<ReGraph, ReError>(x),
        },
        r matches Ok(g) ==> edges_forward(graph_nodes(g).len(), graph_edges(g)),
{
    let mut visitor = ReVisitor::new();
    match visitor.visit_reblock(block) {
        Ok(()) => Ok(visitor.reactive_graph()),
        Err(x) => Err(x),
    }
}

/// The graph builder.
pub struct ReVisitor {
    pub graph: ReGraph,
    name_nodes: Vec<(NameNode, usize)>,
    node_count: u32,
}

impl ReVisitor {
    pub closed spec fn state(&self) -> BuildState {
        BuildState {
            nodes: graph_nodes(self.graph),
            edges: graph_edges(self.graph),
            names: self.name_nodes@,
        }
    }

    pub closed spec fn wf(&self) -> bool {
        &&& self.node_count as nat == graph_nodes(self.graph).len()
        &&& self.state().wf()
    }

    /// A consistent builder's state is consistent: every edge runs forward
    /// and every name denotes a node; `reactive_graph` hands out exactly the
    /// state's nodes and edges.
    pub proof fn lemma_view(&self)
        ensures
            self.wf() ==> self.state().wf(),
    {
    }

    pub fn new() -> (r: Self)
        ensures
            r.wf(),
            r.state() == empty_state(),
    {
        let r = Self { graph: graph_new(), name_nodes: Vec::new(), node_count: 0u32 };
        assert(r.state().names =~= Seq::<(NameNode, usize)>::empty());
        r
    }

    fn next_idx(&mut self) -> (r: u32)
        requires
            old(self).node_count < u32::MAX,
        ensures
            r == old(self).node_count,
            final(self).node_count == old(self).node_count + 1,
            final(self).graph == old(self).graph,
            final(self).name_nodes == old(self).name_nodes,
    {
        let res = self.node_count;
        self.node_count = self.node_count + 1;
        res
    }

    fn visit_reclosure<'a>(&mut self, i: &'a ReClosure) -> (r: Result<&'a String, ReError>)
        ensures
            r == Ok::<&String, ReError>(&i.return_type),
            *final(self) == *old(self),
    {
        Ok(&i.return_type)
    }

    /// Compiles the declarations in order; stops at the first error.
    pub fn visit_reblock(&mut self, i: &ReBlock) -> (r: Result<(), ReError>)
        requires
            old(self).wf(),
            block_wf(i.stmts@),
            old(self).state().measure() + 3 * block_size(i.stmts@) < u32::MAX,
        ensures
            match block_step(old(self).state(), i.stmts@) {
                Ok(s) => r is Ok && final(self).state() == s,
                Err((s, x)) => r == Err::<(), ReError>(x) && final(self).state() == s,
            },
            final(self).wf(),
    {
        let mut k: usize = 0;
        proof {
            assert(i.stmts@.take(0) =~= Seq::<ReLocal>::empty());
        }
        while k < i.stmts.len()
            invariant
                self.wf(),
                0 <= k <= i.stmts@.len(),
                block_wf(i.stmts@),
                old(self).state().measure() + 3 * block_size(i.stmts@) < u32::MAX,
                block_step(old(self).state(), i.stmts@.take(k as int)) == Ok::<BuildState, Failure>(
                    self.state(),
                ),
                self.state().measure() <= old(self).state().measure() + 3 * block_size(
                    i.stmts@.take(k as int),
                ),
            decreases i.stmts@.len() - k,
        {
            proof {
                lemma_block_prefix(i.stmts@, k as int);
                lemma_block_prefix(i.stmts@, k + 1);
            }
            match self.visit_relocal(&i.stmts[k]) {
                Ok(()) => {},
                Err(x) => {
                    proof {
                        lemma_block_err(old(self).state(), i.stmts@, k + 1);
                    }
                    return Err(x);
                },
            }
            k = k + 1;
        }
        assert(i.stmts@.take(i.stmts@.len() as int) =~= i.stmts@);
        Ok(())
    }

    fn visit_relocal(&mut self, i: &ReLocal) -> (r: Result<(), ReError>)
        requires
            old(self).wf(),
            expr_wf(i.init),
            old(self).state().measure() + 3 * local_size(*i) < u32::MAX,
        ensures
            match r {
                Ok(()) => {
                    &&& local_step(old(self).state(), *i) == Ok::<BuildState, Failure>(
                        final(self).state(),
                    )
                    &&& final(self).wf()
                    &&& final(self).state().measure() <= old(self).state().measure() + 3
                        * local_size(*i)
                },
                Err(x) => {
                    &&& local_step(old(self).state(), *i) == Err::<BuildState, Failure>(
                        (final(self).state(), x),
                    )
                    &&& final(self).wf()
                },
            },
    {
        let (last_idxs, last_fam) = match self.visit_reexpr(&i.init) {
            Ok(x) => x,
            Err(x) => {
                return Err(x);
            },
        };
        let name = &i.ident;
        if self.find_name(&name.ident).is_some() {
            return Err(ReError { kind: ErrorKind::DuplicateBinding, span: name.span });
        }
        if last_idxs.len() != 1 {
            return match i.pin_token {
                Some(pin_span) => Err(ReError { kind: ErrorKind::CannotPinGroup, span: pin_span }),
                None => Err(ReError { kind: ErrorKind::UnexpectedGroup, span: name.span }),
            };
        }
        let last_idx = last_idxs[0].0;
        let last_ty = last_idxs[0].1.clone();
        let ghost s1 = self.state();
        let pin = match i.pin_token {
            Some(pin_span) => {
                if let ReNode::Name(namenode) = node_weight(&self.graph, last_idx) {
                    return Err(ReError { kind: ErrorKind::PinIndirection, span: namenode.id.span });
                }
                let last_node = node_weight_mut(&mut self.graph, last_idx);
                *last_node.pin_mut() = true;
                proof {
                    assert(self.state().nodes =~= s1.pin_node(last_idx).nodes);
                    assert(self.state() == s1.pin_node(last_idx));
                    lemma_pin_node_wf(s1, last_idx);
                }
                true
            },
            None => node_weight(&self.graph, last_idx).pin(),
        };
        let ghost s2 = self.state();
        let name_node = NameNode {
            id: name.copy(),
            data: ReData { id: self.next_idx(), family: last_fam, ty: last_ty.clone(), pin },
        };
        let node_idx = add_node(&mut self.graph, ReNode::Name(name_node.copy()));
        self.name_nodes.push((name_node, node_idx));
        add_edge(&mut self.graph, last_idx, node_idx, ReEdge { ty: last_ty });
        proof {
            let b = bind(s2, i.ident, last_idx, last_idxs@[0].1, last_fam, pin);
            assert(self.state() == b);
            assert forall|k: int| 0 <= k < b.edges.len() implies #[trigger] b.edges[k].0 < b.edges[k].1
                && b.edges[k].1 < b.nodes.len() by {
                if k < s2.edges.len() {
                    assert(b.edges[k] == s2.edges[k]);
                    assert(s2.edges[k].0 < s2.edges[k].1 && s2.edges[k].1 < s2.nodes.len());
                }
            }
            assert forall|k: int| 0 <= k < b.names.len() implies #[trigger] b.names[k].1 < b.nodes.len() by {
                if k < s2.names.len() {
                    assert(b.names[k] == s2.names[k]);
                }
            }
        }
        Ok(())
    }

    pub fn visit_reexpr(&mut self, i: &ReExpr) -> (r: Result<(Vec<(usize, String)>, Family), ReError>)
        requires
            old(self).wf(),
            expr_wf(*i),
            old(self).state().measure() + 3 * expr_size(*i) < u32::MAX,
        ensures
            step_post(*old(self), *final(self), *i, r),
        decreases *i,
    {
        match i {
            ReExpr::Group(x) => self.visit_group(x),
            ReExpr::Var(x) => self.visit_var(x),
            ReExpr::Evt(x) => self.visit_evt(x),
            ReExpr::Ident(x) => self.visit_ident(x),
            ReExpr::Fold(x) => self.visit_fold(x),
            ReExpr::Mapping(x) => self.visit_map(x),
            ReExpr::Filter(x) => self.visit_filter(x),
            ReExpr::Changed(x) => self.visit_changed(x),
            ReExpr::Choice(x) => self.visit_choice(x),
        }
    }

    fn visit_group(&mut self, groupexpr: &GroupExpr) -> (r: Result<(Vec<(usize, String)>, Family), ReError>)
        requires
            old(self).wf(),
            expr_wf(ReExpr::Group(*groupexpr)),
            old(self).state().measure() + 3 * expr_size(ReExpr::Group(*groupexpr)) < u32::MAX,
        ensures
            step_post(*old(self), *final(self), ReExpr::Group(*groupexpr), r),
        decreases *groupexpr,
    {
        let ghost i = ReExpr::Group(*groupexpr);
        let mut incoming_nodes: Vec<(usize, String)> = Vec::new();
        let mut family = Family::Variable;
        let mut k: usize = 0;
        proof {
            assert(groupexpr.exprs@.take(0) =~= Seq::<ReExpr>::empty());
        }
        while k < groupexpr.exprs.len()
            invariant
                self.wf(),
                0 <= k <= groupexpr.exprs@.len(),
                i == ReExpr::Group(*groupexpr),
                groupexpr.exprs@.len() > 0,
                exprs_wf(groupexpr.exprs@),
                old(self).state().measure() + 3 * expr_size(i) < u32::MAX,
                group_step(old(self).state(), groupexpr.exprs@.take(k as int)) == ok_step(
                    self.state(),
                    incoming_nodes@,
                    family,
                ),
                k > 0 ==> incoming_nodes@.len() >= 1,
                forall|j: int|
                    0 <= j < incoming_nodes@.len() ==> #[trigger] incoming_nodes@[j].0
                        < self.state().nodes.len(),
                self.state().nodes.len() >= old(self).state().nodes.len(),
                self.state().measure() + incoming_nodes@.len() <= old(self).state().measure()
                    + 3 * exprs_size(groupexpr.exprs@.take(k as int)),
            decreases groupexpr.exprs@.len() - k,
        {
            proof {
                lemma_exprs_prefix(groupexpr.exprs@, k as int);
                lemma_exprs_prefix(groupexpr.exprs@, k + 1);
            }
            let ghost acc = incoming_nodes@;
            let (mut nodes, fam) = match self.visit_reexpr(&groupexpr.exprs[k]) {
                Ok(x) => x,
                Err(x) => {
                    proof {
                        lemma_group_err(old(self).state(), groupexpr.exprs@, k + 1);
                    }
                    return Err(x);
                },
            };
            incoming_nodes.append(&mut nodes);
            if fam == Family::Event {
                family = Family::Event;
            }
            k = k + 1;
            proof {
                assert forall|j: int|
                    0 <= j < incoming_nodes@.len() implies #[trigger] incoming_nodes@[j].0
                    < self.state().nodes.len() by {
                    if j < acc.len() {
                        assert(incoming_nodes@[j] == acc[j]);
                    }
                }
            }
        }
        assert(groupexpr.exprs@.take(groupexpr.exprs@.len() as int) =~= groupexpr.exprs@);
        Ok((incoming_nodes, family))
    }

    fn visit_var(&mut self, varexpr: &VarExpr) -> (r: Result<(Vec<(usize, String)>, Family), ReError>)
        requires
            old(self).wf(),
            expr_wf(ReExpr::Var(*varexpr)),
            old(self).state().measure() + 3 * expr_size(ReExpr::Var(*varexpr)) < u32::MAX,
        ensures
            step_post(*old(self), *final(self), ReExpr::Var(*varexpr), r),
    {
        let data = ReData {
            pin: true,
            ty: varexpr.ty.clone(),
            family: Family::Variable,
            id: self.next_idx(),
        };
        let node = ReNode::Var(VarNode { initial: varexpr.expr.clone(), data });
        let idx = add_node(&mut self.graph, node);
        proof {
            lemma_add_node_wf(old(self).state(), node);
            assert(self.state() == old(self).state().add_node(node));
        }
        Ok((single(idx, varexpr.ty.clone()), Family::Variable))
    }

    fn visit_evt(&mut self, evtexpr: &EvtExpr) -> (r: Result<(Vec<(usize, String)>, Family), ReError>)
        requires
            old(self).wf(),
            expr_wf(ReExpr::Evt(*evtexpr)),
            old(self).state().measure() + 3 * expr_size(ReExpr::Evt(*evtexpr)) < u32::MAX,
        ensures
            step_post(*old(self), *final(self), ReExpr::Evt(*evtexpr), r),
    {
        let node = ReNode::Evt(
            EvtNode {
                data: ReData {
                    pin: true,
                    ty: evtexpr.ty.clone(),
                    id: self.next_idx(),
                    family: Family::Event,
                },
            },
        );
        let idx = add_node(&mut self.graph, node);
        proof {
            lemma_add_node_wf(old(self).state(), node);
            assert(self.state() == old(self).state().add_node(node));
        }
        Ok((single(idx, evtexpr.ty.clone()), Family::Event))
    }

    fn visit_ident(&mut self, identexpr: &ReIdent) -> (r: Result<(Vec<(usize, String)>, Family), ReError>)
        requires
            old(self).wf(),
            expr_wf(ReExpr::Ident(*identexpr)),
            old(self).state().measure() + 3 * expr_size(ReExpr::Ident(*identexpr)) < u32::MAX,
        ensures
            step_post(*old(self), *final(self), ReExpr::Ident(*identexpr), r),
    {
        match self.find_name(&identexpr.ident) {
            Some(k) => {
                proof {
                    assert(self.state().names[k as int] == self.name_nodes@[k as int]);
                }
                let name = &self.name_nodes[k];
                Ok((single(name.1, name.0.data.ty.clone()), name.0.data.family))
            },
            None => Err(ReError { kind: ErrorKind::UnknownReactive, span: identexpr.span }),
        }
    }

    fn visit_fold(&mut self, foldexpr: &FoldExpr) -> (r: Result<(Vec<(usize, String)>, Family), ReError>)
        requires
            old(self).wf(),
            expr_wf(ReExpr::Fold(*foldexpr)),
            old(self).state().measure() + 3 * expr_size(ReExpr::Fold(*foldexpr)) < u32::MAX,
        ensures
            step_post(*old(self), *final(self), ReExpr::Fold(*foldexpr), r),
        decreases *foldexpr,
    {
        let (incoming, fam) = match self.visit_reexpr(&foldexpr.left_expr) {
            Ok(x) => x,
            Err(x) => {
                return Err(x);
            },
        };
        let ty = match self.visit_reclosure(&foldexpr.closure) {
            Ok(t) => t.clone(),
            Err(x) => {
                return Err(x);
            },
        };
        if fam != Family::Event {
            return Err(ReError { kind: ErrorKind::FoldRequiresEvent, span: foldexpr.fold_token });
        }
        if incoming.len() != 1 {
            return Err(ReError { kind: ErrorKind::UnexpectedGroup, span: foldexpr.fold_token });
        }
        let node = ReNode::Fold(
            FoldNode {
                initial: foldexpr.init_expr.clone(),
                update_expr: foldexpr.closure.copy(),
                data: ReData {
                    ty: ty.clone(),
                    id: self.next_idx(),
                    family: Family::Variable,
                    pin: true,
                },
            },
        );
        let ghost s1 = self.state();
        let idx = add_node(&mut self.graph, node);
        proof {
            lemma_add_node_wf(s1, node);
            assert(self.state() == s1.add_node(node));
            lemma_link_all(self.state(), incoming@, idx);
        }
        self.link_incoming(&incoming, idx);
        Ok((single(idx, ty), Family::Variable))
    }

    fn visit_map(&mut self, mapexpr: &MapExpr) -> (r: Result<(Vec<(usize, String)>, Family), ReError>)
        requires
            old(self).wf(),
            expr_wf(ReExpr::Mapping(*mapexpr)),
            old(self).state().measure() + 3 * expr_size(ReExpr::Mapping(*mapexpr)) < u32::MAX,
        ensures
            step_post(*old(self), *final(self), ReExpr::Mapping(*mapexpr), r),
        decreases *mapexpr,
    {
        let (incoming, incoming_fam) = match self.visit_reexpr(&mapexpr.left_expr) {
            Ok(x) => x,
            Err(x) => {
                return Err(x);
            },
        };
        let ty = match self.visit_reclosure(&mapexpr.closure) {
            Ok(t) => t.clone(),
            Err(x) => {
                return Err(x);
            },
        };
        let node = ReNode::Mapping(
            MapNode {
                update_expr: mapexpr.closure.copy(),
                data: ReData {
                    pin: false,
                    ty: ty.clone(),
                    id: self.next_idx(),
                    family: incoming_fam,
                },
            },
        );
        let ghost s1 = self.state();
        let idx = add_node(&mut self.graph, node);
        proof {
            lemma_add_node_wf(s1, node);
            assert(self.state() == s1.add_node(node));
            lemma_link_all(self.state(), incoming@, idx);
        }
        self.link_incoming(&incoming, idx);
        Ok((single(idx, ty), incoming_fam))
    }

    fn visit_filter(&mut self, filterexpr: &FilterExpr) -> (r: Result<(Vec<(usize, String)>, Family), ReError>)
        requires
            old(self).wf(),
            expr_wf(ReExpr::Filter(*filterexpr)),
            old(self).state().measure() + 3 * expr_size(ReExpr::Filter(*filterexpr)) < u32::MAX,
        ensures
            step_post(*old(self), *final(self), ReExpr::Filter(*filterexpr), r),
        decreases *filterexpr,
    {
        let (incoming, incoming_fam) = match self.visit_reexpr(&filterexpr.left_expr) {
            Ok(x) => x,
            Err(x) => {
                return Err(x);
            },
        };
        match self.visit_reclosure(&filterexpr.closure) {
            Ok(_) => {},
            Err(x) => {
                return Err(x);
            },
        }
        if incoming_fam != Family::Event {
            return Err(
                ReError { kind: ErrorKind::FilterRequiresEvent, span: filterexpr.filter_token },
            );
        }
        if incoming.len() != 1 {
            return Err(ReError { kind: ErrorKind::UnexpectedGroup, span: filterexpr.filter_token });
        }
        let idx = incoming[0].0;
        let ty = incoming[0].1.clone();
        let node = ReNode::Filter(
            FilterNode {
                filter_expr: filterexpr.closure.copy(),
                data: ReData {
                    pin: false,
                    ty: ty.clone(),
                    id: self.next_idx(),
                    family: Family::Event,
                },
            },
        );
        let ghost s1 = self.state();
        let idx_filter = add_node(&mut self.graph, node);
        proof {
            lemma_add_node_wf(s1, node);
            assert(self.state() == s1.add_node(node));
            lemma_add_edge_wf(s1.add_node(node), idx, idx_filter, ty);
        }
        add_edge(&mut self.graph, idx, idx_filter, ReEdge { ty: ty.clone() });
        proof {
            assert(self.state() == s1.add_node(node).add_edge(idx, idx_filter, ty));
        }
        Ok((single(idx_filter, ty), Family::Event))
    }

    fn visit_changed(&mut self, changedexpr: &ChangedExpr) -> (r: Result<(Vec<(usize, String)>, Family), ReError>)
        requires
            old(self).wf(),
            expr_wf(ReExpr::Changed(*changedexpr)),
            old(self).state().measure() + 3 * expr_size(ReExpr::Changed(*changedexpr)) < u32::MAX,
        ensures
            step_post(*old(self), *final(self), ReExpr::Changed(*changedexpr), r),
        decreases *changedexpr,
    {
        let (incoming, incoming_fam) = match self.visit_reexpr(&changedexpr.left_expr) {
            Ok(x) => x,
            Err(x) => {
                return Err(x);
            },
        };
        if incoming_fam == Family::Event {
            return Err(
                ReError {
                    kind: ErrorKind::ChangedRequiresVariable,
                    span: changedexpr.changed_token,
                },
            );
        }
        if incoming.len() != 1 {
            return Err(ReError { kind: ErrorKind::UnexpectedGroup, span: changedexpr.changed_token });
        }
        let idx = incoming[0].0;
        let ty = incoming[0].1.clone();
        let ghost s1 = self.state();
        let incoming_node = node_weight_mut(&mut self.graph, idx);
        *incoming_node.pin_mut() = true;
        proof {
            assert(self.state().nodes =~= s1.pin_node(idx).nodes);
            assert(self.state() == s1.pin_node(idx));
            lemma_pin_node_wf(s1, idx);
        }
        let ghost s2 = self.state();
        let node = ReNode::Changed(
            ChangedNode {
                data: ReData {
                    pin: false,
                    ty: ty.clone(),
                    id: self.next_idx(),
                    family: Family::Event,
                },
            },
        );
        let idx_changed = add_node(&mut self.graph, node);
        proof {
            lemma_add_node_wf(s2, node);
            assert(self.state() == s2.add_node(node));
            lemma_add_edge_wf(s2.add_node(node), idx, idx_changed, ty);
        }
        add_edge(&mut self.graph, idx, idx_changed, ReEdge { ty: ty.clone() });
        proof {
            assert(self.state() == s2.add_node(node).add_edge(idx, idx_changed, ty));
        }
        Ok((single(idx_changed, ty), Family::Event))
    }

    fn visit_choice(&mut self, choiceexpr: &ChoiceExpr) -> (r: Result<(Vec<(usize, String)>, Family), ReError>)
        requires
            old(self).wf(),
            expr_wf(ReExpr::Choice(*choiceexpr)),
            old(self).state().measure() + 3 * expr_size(ReExpr::Choice(*choiceexpr)) < u32::MAX,
        ensures
            step_post(*old(self), *final(self), ReExpr::Choice(*choiceexpr), r),
        decreases *choiceexpr,
    {
        let (a_nodes, a_fam) = match self.visit_reexpr(&choiceexpr.left_expr) {
            Ok(x) => x,
            Err(x) => {
                return Err(x);
            },
        };
        let (b_nodes, b_fam) = match self.visit_reexpr(&choiceexpr.right_expr) {
            Ok(x) => x,
            Err(x) => {
                return Err(x);
            },
        };
        let span = choiceexpr.oror;
        if a_nodes.len() != 1 || b_nodes.len() != 1 {
            return Err(ReError { kind: ErrorKind::UnexpectedGroup, span });
        }
        let a_idx = a_nodes[0].0;
        let b_idx = b_nodes[0].0;
        let a_ty = a_nodes[0].1.clone();
        if !(a_ty == b_nodes[0].1) {
            return Err(ReError { kind: ErrorKind::TypeMismatch, span });
        }
        if a_fam != Family::Event || b_fam != Family::Event {
            return Err(ReError { kind: ErrorKind::FamilyMismatch, span });
        }
        let node = ReNode::Choice(
            ChoiceNode {
                data: ReData {
                    ty: a_ty.clone(),
                    id: self.next_idx(),
                    family: Family::Event,
                    pin: false,
                },
            },
        );
        let ghost s2 = self.state();
        let idx = add_node(&mut self.graph, node);
        proof {
            lemma_add_node_wf(s2, node);
            assert(self.state() == s2.add_node(node));
            lemma_add_edge_wf(s2.add_node(node), a_idx, idx, a_ty);
            lemma_add_edge_wf(s2.add_node(node).add_edge(a_idx, idx, a_ty), b_idx, idx, a_ty);
        }
        add_edge(&mut self.graph, a_idx, idx, ReEdge { ty: a_ty.clone() });
        add_edge(&mut self.graph, b_idx, idx, ReEdge { ty: a_ty.clone() });
        proof {
            assert(self.state() == s2.add_node(node).add_edge(a_idx, idx, a_ty).add_edge(b_idx, idx, a_ty));
        }
        Ok((single(idx, a_ty), Family::Event))
    }

    /// Index of the first binding of `x`.
    fn find_name(&self, x: &String) -> (r: Option<usize>)
        ensures
            r matches Some(k) ==> k < self.name_nodes@.len() && lookup(self.state().names, x@)
                == Some(k as int),
            r is None ==> lookup(self.state().names, x@) is None,
    {
        let mut i: usize = 0;
        while i < self.name_nodes.len()
            invariant
                0 <= i <= self.name_nodes@.len(),
                lookup(self.name_nodes@.take(i as int), x@) is None,
            decreases self.name_nodes@.len() - i,
        {
            assert(self.name_nodes@.take(i + 1).drop_last() =~= self.name_nodes@.take(i as int));
            if self.name_nodes[i].0.id.ident == *x {
                assert(self.name_nodes@.take(self.name_nodes@.len() as int) =~= self.name_nodes@);
                proof {
                    lemma_lookup_found(self.name_nodes@, x@, i as int);
                }
                proof {
                    lemma_lookup_bound(self.name_nodes@, x@);
                }
                return Some(i);
            }
            i = i + 1;
        }
        assert(self.name_nodes@.take(self.name_nodes@.len() as int) =~= self.name_nodes@);
        None
    }

    /// Adds an edge from each of `incoming`, in order, to `idx`.
    fn link_incoming(&mut self, incoming: &Vec<(usize, String)>, idx: usize)
        requires
            old(self).wf(),
            idx < old(self).state().nodes.len(),
            forall|k: int| 0 <= k < incoming@.len() ==> #[trigger] incoming@[k].0 < idx,
            old(self).state().edges.len() + incoming@.len() < u32::MAX,
        ensures
            final(self).wf(),
            final(self).state() == link_all(old(self).state(), incoming@, idx),
    {
        let mut i: usize = 0;
        while i < incoming.len()
            invariant
                self.wf(),
                0 <= i <= incoming@.len(),
                idx < old(self).state().nodes.len(),
                forall|k: int| 0 <= k < incoming@.len() ==> #[trigger] incoming@[k].0 < idx,
                old(self).state().edges.len() + incoming@.len() < u32::MAX,
                old(self).wf(),
                self.state() == link_all(old(self).state(), incoming@.take(i as int), idx),
            decreases incoming@.len() - i,
        {
            proof {
                lemma_link_all(old(self).state(), incoming@.take(i as int), idx);
                assert(incoming@.take(i + 1).drop_last() =~= incoming@.take(i as int));
            }
            let ty = incoming[i].1.clone();
            add_edge(&mut self.graph, incoming[i].0, idx, ReEdge { ty });
            i = i + 1;
            proof {
                lemma_link_all(old(self).state(), incoming@.take(i as int), idx);
            }
        }
        assert(incoming@.take(incoming@.len() as int) =~= incoming@);
    }

    pub fn reactive_graph(self) -> (r: ReGraph)
        ensures
            graph_nodes(r) == self.state().nodes,
            graph_edges(r) == self.state().edges,
            self.wf() ==> edges_forward(graph_nodes(r).len(), graph_edges(r)),
    {
        self.graph
    }
}

} // verus!
