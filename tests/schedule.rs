use proc_macro2::Span;
use rerust::analysis::{NodeData, ReNode};
use rerust::ast::{ChoiceExpr, EvtExpr, GroupExpr, MapExpr, ReBlock, ReClosure, ReExpr, ReIdent, ReLocal, VarExpr};
use rerust::graph::ReGraph;
use rerust::schedule::{get_incoming_weights, topological_order};
use rerust::tick::{tick, update_node, Slot};
use rerust::visitor::compile;

fn ident(name: &str) -> ReIdent {
    ReIdent { ident: name.to_string(), span: Span::call_site() }
}

fn name(n: &str) -> ReExpr {
    ReExpr::Ident(ident(n))
}

fn var(init: &str) -> ReExpr {
    ReExpr::Var(VarExpr { var_token: Span::call_site(), ty: "i32".to_string(), expr: init.to_string() })
}

fn evt() -> ReExpr {
    ReExpr::Evt(EvtExpr { evt_token: Span::call_site(), ty: "i32".to_string() })
}

fn map(e: ReExpr) -> ReExpr {
    ReExpr::Mapping(MapExpr {
        left_expr: Box::new(e),
        map_token: Span::call_site(),
        closure: ReClosure { inputs: "x".to_string(), return_type: "i32".to_string(), body: "{ x % 2 }".to_string() },
    })
}

fn local(n: &str, e: ReExpr) -> ReLocal {
    ReLocal { pin_token: None, ident: ident(n), init: e }
}

fn graph(stmts: Vec<ReLocal>) -> ReGraph {
    compile(&ReBlock { stmts }).ok().unwrap()
}

fn diamond() -> ReGraph {
    graph(vec![
        local("a", evt()),
        local("l", map(name("a"))),
        local("r", map(name("a"))),
        local("j", map(ReExpr::Group(GroupExpr { paren: Span::call_site(), exprs: vec![name("l"), name("r")] }))),
    ])
}

fn position(order: &[usize], x: usize) -> usize {
    order.iter().position(|&y| y == x).unwrap()
}

fn assert_valid_order(g: &ReGraph, order: &[usize]) {
    assert_eq!(order.len(), g.node_count());
    for i in 0..g.node_count() {
        assert_eq!(order.iter().filter(|&&y| y == i).count(), 1);
    }
    for e in g.raw_edges() {
        assert!(position(order, e.source().index()) < position(order, e.target().index()));
    }
}

#[test]
fn order_visits_every_node_once() {
    let g = diamond();
    let order = topological_order(&g);
    assert_valid_order(&g, &order);
}

#[test]
fn order_respects_every_edge() {
    let g = graph(vec![
        local("v", var("0")),
        local("e", evt()),
        local("m", map(name("v"))),
        local("n", map(name("m"))),
        local("k", map(name("e"))),
    ]);
    let order = topological_order(&g);
    assert_valid_order(&g, &order);
}

#[test]
fn rescheduling_gives_valid_orders() {
    let g = diamond();
    let first = topological_order(&g);
    let second = topological_order(&g);
    assert_valid_order(&g, &first);
    assert_valid_order(&g, &second);
}

#[test]
fn empty_graph_has_empty_order() {
    let g = graph(vec![]);
    assert!(topological_order(&g).is_empty());
}

#[test]
fn incoming_weights_skip_aliases() {
    let g = diamond();
    // node 6 is the map over the group (l, r); its inputs are the aliases
    // `l` (3) and `r` (5), which resolve to the maps 2 and 4
    let inputs = get_incoming_weights(&g, 6);
    assert_eq!(inputs.len(), 2);
    let ids: Vec<u32> = inputs.iter().map(|n| n.id()).collect();
    // declared operand order: `l` before `r`
    assert_eq!(ids, vec![2, 4]);
    assert!(inputs.iter().all(|n| matches!(n, ReNode::Mapping(_))));
}

#[test]
fn incoming_weights_of_a_source_are_empty() {
    let g = diamond();
    assert!(get_incoming_weights(&g, 0).is_empty());
}

fn run(g: &ReGraph, state: &mut Vec<Slot>, ext: Vec<Option<i64>>) {
    let order = topological_order(g);
    let combine = |_node: usize, args: Vec<i64>| args[0] % 2;
    let keep = |_node: usize, _v: i64| true;
    tick(g, &order, &ext, state, &combine, &keep);
}

#[test]
fn choice_prefers_left_operand() {
    let g = graph(vec![
        local("a", evt()),
        local("b", evt()),
        local(
            "c",
            ReExpr::Choice(ChoiceExpr {
                left_expr: Box::new(name("a")),
                oror: Span::call_site(),
                right_expr: Box::new(name("b")),
            }),
        ),
    ]);
    let n = g.node_count();
    let mut state = vec![Slot::new(0); n];
    let mut ext = vec![None; n];
    ext[0] = Some(10);
    ext[2] = Some(20);
    run(&g, &mut state, ext);
    // `c` is the alias at index 5
    assert_eq!(state[5], Slot { value: 10, fired: true });

    let mut ext = vec![None; n];
    ext[2] = Some(20);
    run(&g, &mut state, ext);
    assert_eq!(state[5], Slot { value: 20, fired: true });

    run(&g, &mut state, vec![None; n]);
    assert!(!state[5].fired);
}

#[test]
fn unchanged_map_result_is_suppressed() {
    let g = graph(vec![local("v", var("0")), local("m", map(name("v")))]);
    let n = g.node_count();
    let mut state = vec![Slot::new(0); n];
    let mut ext = vec![None; n];
    ext[0] = Some(2);
    run(&g, &mut state, ext);
    assert!(state[1].fired);
    assert_eq!(state[3], Slot { value: 0, fired: false });

    let mut ext = vec![None; n];
    ext[0] = Some(1);
    run(&g, &mut state, ext);
    assert_eq!(state[3], Slot { value: 1, fired: true });
}

#[test]
fn variable_source_fires_only_on_a_new_value() {
    let g = graph(vec![local("v", var("0"))]);
    let mut state = vec![Slot::new(5); 2];
    run(&g, &mut state, vec![Some(5), None]);
    assert_eq!(state[0], Slot { value: 5, fired: false });
    run(&g, &mut state, vec![Some(6), None]);
    assert_eq!(state[1], Slot { value: 6, fired: true });
}

#[test]
fn event_source_fires_on_every_value() {
    let g = graph(vec![local("e", evt())]);
    let mut state = vec![Slot::new(5); 2];
    run(&g, &mut state, vec![Some(5), None]);
    assert_eq!(state[1], Slot { value: 5, fired: true });
}

#[test]
fn update_node_applies_combinator() {
    let g = graph(vec![local("e", evt()), local("m", map(name("e")))]);
    let st = vec![Slot { value: 7, fired: true }, Slot { value: 7, fired: true }, Slot::new(0), Slot::new(0)];
    let combine = |_n: usize, args: Vec<i64>| args[0] * 3;
    let keep = |_n: usize, _v: i64| true;
    let r = update_node(&g, 2, None, Slot::new(0), &st, &combine, &keep);
    assert_eq!(r, Slot { value: 21, fired: true });
}

fn fold_expr(e: ReExpr) -> ReExpr {
    ReExpr::Fold(rerust::ast::FoldExpr {
        left_expr: Box::new(e),
        fold_token: Span::call_site(),
        init_expr: "0".to_string(),
        closure: ReClosure { inputs: "acc, x".to_string(), return_type: "i64".to_string(), body: "{ acc + x }".to_string() },
    })
}

fn filter_expr(e: ReExpr) -> ReExpr {
    ReExpr::Filter(rerust::ast::FilterExpr {
        left_expr: Box::new(e),
        filter_token: Span::call_site(),
        closure: ReClosure { inputs: "x".to_string(), return_type: "bool".to_string(), body: "{ x > 0 }".to_string() },
    })
}

fn changed_expr(e: ReExpr) -> ReExpr {
    ReExpr::Changed(rerust::ast::ChangedExpr { left_expr: Box::new(e), changed_token: Span::call_site() })
}

fn run_sum(g: &ReGraph, state: &mut Vec<Slot>, ext: Vec<Option<i64>>) {
    let order = topological_order(g);
    let combine = |_node: usize, args: Vec<i64>| args.iter().sum::<i64>();
    let keep = |_node: usize, v: i64| v > 0;
    tick(g, &order, &ext, state, &combine, &keep);
}

#[test]
fn fold_accumulates_events() {
    let g = graph(vec![local("e", evt()), local("s", fold_expr(name("e")))]);
    let n = g.node_count();
    let mut state = vec![Slot::new(0); n];
    let mut ext = vec![None; n];
    ext[0] = Some(3);
    run_sum(&g, &mut state, ext.clone());
    assert_eq!(state[3], Slot { value: 3, fired: true });
    run_sum(&g, &mut state, ext);
    assert_eq!(state[3], Slot { value: 6, fired: true });
    run_sum(&g, &mut state, vec![None; n]);
    assert_eq!(state[3], Slot { value: 6, fired: false });
    let mut zero = vec![None; n];
    zero[0] = Some(0);
    run_sum(&g, &mut state, zero);
    assert_eq!(state[3], Slot { value: 6, fired: false });
}

#[test]
fn filter_drops_rejected_events() {
    let g = graph(vec![local("e", evt()), local("p", filter_expr(name("e")))]);
    let n = g.node_count();
    let mut state = vec![Slot::new(0); n];
    let mut ext = vec![None; n];
    ext[0] = Some(-4);
    run_sum(&g, &mut state, ext);
    assert!(!state[3].fired);
    let mut ext = vec![None; n];
    ext[0] = Some(4);
    run_sum(&g, &mut state, ext);
    assert_eq!(state[3], Slot { value: 4, fired: true });
}

#[test]
fn changed_fires_with_the_new_value() {
    let g = graph(vec![local("v", var("0")), local("c", changed_expr(name("v")))]);
    let n = g.node_count();
    let mut state = vec![Slot::new(0); n];
    let mut ext = vec![None; n];
    ext[0] = Some(9);
    run_sum(&g, &mut state, ext);
    assert_eq!(state[3], Slot { value: 9, fired: true });
    let mut ext = vec![None; n];
    ext[0] = Some(9);
    run_sum(&g, &mut state, ext);
    assert!(!state[3].fired);
}

#[test]
fn choice_inputs_come_left_first() {
    let g = graph(vec![
        local("a", evt()),
        local("b", evt()),
        local(
            "c",
            ReExpr::Choice(ChoiceExpr {
                left_expr: Box::new(name("b")),
                oror: Span::call_site(),
                right_expr: Box::new(name("a")),
            }),
        ),
    ]);
    let ids: Vec<u32> = get_incoming_weights(&g, 4).iter().map(|n| n.id()).collect();
    assert_eq!(ids, vec![2, 0]);
}
