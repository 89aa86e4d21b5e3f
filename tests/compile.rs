use proc_macro2::Span;
use rerust::analysis::{ErrorKind, Family, NodeData, ReNode};
use rerust::ast::{
    is_keyword, ChangedExpr, ChoiceExpr, EvtExpr, FilterExpr, FoldExpr, GroupExpr, MapExpr,
    ReBlock, ReClosure, ReExpr, ReIdent, ReLocal, VarExpr,
};
use rerust::graph::ReGraph;
use rerust::visitor::{compile, ReVisitor};

fn sp() -> Span {
    Span::call_site()
}

fn ident(name: &str) -> ReIdent {
    ReIdent { ident: name.to_string(), span: sp() }
}

fn name(n: &str) -> ReExpr {
    ReExpr::Ident(ident(n))
}

fn var(ty: &str, init: &str) -> ReExpr {
    ReExpr::Var(VarExpr { var_token: sp(), ty: ty.to_string(), expr: init.to_string() })
}

fn evt(ty: &str) -> ReExpr {
    ReExpr::Evt(EvtExpr { evt_token: sp(), ty: ty.to_string() })
}

fn closure(ret: &str) -> ReClosure {
    ReClosure { inputs: "x".to_string(), return_type: ret.to_string(), body: "{ x }".to_string() }
}

fn map(e: ReExpr, ret: &str) -> ReExpr {
    ReExpr::Mapping(MapExpr { left_expr: Box::new(e), map_token: sp(), closure: closure(ret) })
}

fn fold(e: ReExpr, ret: &str) -> ReExpr {
    ReExpr::Fold(FoldExpr {
        left_expr: Box::new(e),
        fold_token: sp(),
        init_expr: "0".to_string(),
        closure: closure(ret),
    })
}

fn filter(e: ReExpr) -> ReExpr {
    ReExpr::Filter(FilterExpr { left_expr: Box::new(e), filter_token: sp(), closure: closure("bool") })
}

fn changed(e: ReExpr) -> ReExpr {
    ReExpr::Changed(ChangedExpr { left_expr: Box::new(e), changed_token: sp() })
}

fn choice(a: ReExpr, b: ReExpr) -> ReExpr {
    ReExpr::Choice(ChoiceExpr { left_expr: Box::new(a), oror: sp(), right_expr: Box::new(b) })
}

fn group(es: Vec<ReExpr>) -> ReExpr {
    ReExpr::Group(GroupExpr { paren: sp(), exprs: es })
}

fn local(n: &str, e: ReExpr) -> ReLocal {
    ReLocal { pin_token: None, ident: ident(n), init: e }
}

fn pinned(n: &str, e: ReExpr) -> ReLocal {
    ReLocal { pin_token: Some(sp()), ident: ident(n), init: e }
}

fn build(stmts: Vec<ReLocal>) -> Result<ReGraph, ErrorKind> {
    compile(&ReBlock { stmts }).map_err(|e| e.kind)
}

fn error_of(stmts: Vec<ReLocal>) -> ErrorKind {
    match build(stmts) {
        Ok(_) => panic!("expected a compile error"),
        Err(k) => k,
    }
}

#[test]
fn duplicate_binding_rejected() {
    let k = error_of(vec![local("x", var("i32", "0")), local("x", evt("i32"))]);
    assert!(matches!(k, ErrorKind::DuplicateBinding));
}

#[test]
fn unknown_reference_rejected() {
    let k = error_of(vec![local("y", map(name("x"), "i32"))]);
    assert!(matches!(k, ErrorKind::UnknownReactive));
}

#[test]
fn fold_over_variable_rejected() {
    let k = error_of(vec![
        local("some_variable", var("i32", "0")),
        local("f", fold(name("some_variable"), "i32")),
    ]);
    assert!(matches!(k, ErrorKind::FoldRequiresEvent));
}

#[test]
fn choice_type_mismatch_rejected() {
    let k = error_of(vec![
        local("a", evt("i32")),
        local("b", evt("u8")),
        local("c", choice(name("a"), name("b"))),
    ]);
    assert!(matches!(k, ErrorKind::TypeMismatch));
}

#[test]
fn choice_family_mismatch_rejected() {
    let k = error_of(vec![
        local("a", evt("i32")),
        local("b", var("i32", "0")),
        local("c", choice(name("a"), name("b"))),
    ]);
    assert!(matches!(k, ErrorKind::FamilyMismatch));
}

#[test]
fn filter_over_variable_rejected() {
    let k = error_of(vec![local("v", var("i32", "0")), local("f", filter(name("v")))]);
    assert!(matches!(k, ErrorKind::FilterRequiresEvent));
}

#[test]
fn changed_over_event_rejected() {
    let k = error_of(vec![local("e", evt("i32")), local("c", changed(name("e")))]);
    assert!(matches!(k, ErrorKind::ChangedRequiresVariable));
}

#[test]
fn pinning_group_rejected() {
    let k = error_of(vec![
        local("a", evt("i32")),
        local("b", evt("i32")),
        pinned("g", group(vec![name("a"), name("b")])),
    ]);
    assert!(matches!(k, ErrorKind::CannotPinGroup));
}

#[test]
fn pinning_alias_rejected() {
    let k = error_of(vec![local("a", var("i32", "0")), pinned("b", name("a"))]);
    assert!(matches!(k, ErrorKind::PinIndirection));
}

#[test]
fn first_error_wins() {
    let k = error_of(vec![local("y", map(name("nope"), "i32")), local("y", evt("i32"))]);
    assert!(matches!(k, ErrorKind::UnknownReactive));
}

#[test]
fn error_messages() {
    let e = compile(&ReBlock { stmts: vec![local("y", name("x"))] }).err().unwrap();
    assert_eq!(e.message(), "unknown reactive");
}

#[test]
fn empty_block_gives_empty_graph() {
    let g = build(vec![]).ok().unwrap();
    assert_eq!(g.node_count(), 0);
    assert_eq!(g.edge_count(), 0);
}

#[test]
fn map_over_event_is_event() {
    let g = build(vec![local("e", evt("i32")), local("m", map(name("e"), "i64"))]).ok().unwrap();
    // e: source, alias; m: map, alias
    assert_eq!(g.node_count(), 4);
    let node = &g[petgraph::graph::NodeIndex::new(2)];
    assert!(matches!(node, ReNode::Mapping(_)));
    assert_eq!(node.family(), Family::Event);
    assert_eq!(node.ty(), "i64");
    assert!(!node.pin());
    let alias = &g[petgraph::graph::NodeIndex::new(3)];
    assert_eq!(alias.family(), Family::Event);
    assert_eq!(alias.id(), 3);
}

#[test]
fn map_over_variable_is_variable() {
    let g = build(vec![local("v", var("i32", "0")), local("m", map(name("v"), "i32"))]).ok().unwrap();
    let node = &g[petgraph::graph::NodeIndex::new(2)];
    assert!(matches!(node, ReNode::Mapping(_)));
    assert_eq!(node.family(), Family::Variable);
}

#[test]
fn group_family_is_event_iff_a_member_is() {
    let g = build(vec![
        local("v", var("i32", "0")),
        local("w", var("i32", "1")),
        local("e", evt("i32")),
        local("mixed", map(group(vec![name("v"), name("e")]), "i32")),
        local("plain", map(group(vec![name("v"), name("w")]), "i32")),
    ])
    .ok()
    .unwrap();
    let mixed = &g[petgraph::graph::NodeIndex::new(6)];
    let plain = &g[petgraph::graph::NodeIndex::new(8)];
    assert!(matches!(mixed, ReNode::Mapping(_)));
    assert!(matches!(plain, ReNode::Mapping(_)));
    assert_eq!(mixed.family(), Family::Event);
    assert_eq!(plain.family(), Family::Variable);
    // a map over a group has one incoming edge per member
    assert_eq!(g.edges_directed(petgraph::graph::NodeIndex::new(6), petgraph::Incoming).count(), 2);
}

#[test]
fn fold_over_event_is_pinned_variable() {
    let g = build(vec![local("e", evt("i32")), local("f", fold(name("e"), "i64"))]).ok().unwrap();
    let node = &g[petgraph::graph::NodeIndex::new(2)];
    assert!(matches!(node, ReNode::Fold(_)));
    assert!(node.pin());
    assert_eq!(node.family(), Family::Variable);
    assert_eq!(node.outgoing_family(), Family::Variable);
    assert_eq!(g[petgraph::graph::NodeIndex::new(3)].family(), Family::Variable);
}

#[test]
fn changed_pins_its_input_and_fires_events() {
    let g = build(vec![
        local("v", var("i32", "0")),
        local("m", map(name("v"), "i32")),
        local("c", changed(name("m"))),
    ])
    .ok()
    .unwrap();
    // the alias `m` (index 3) is what `changed` reads, and it becomes pinned
    assert!(g[petgraph::graph::NodeIndex::new(3)].pin());
    let node = &g[petgraph::graph::NodeIndex::new(4)];
    assert!(matches!(node, ReNode::Changed(_)));
    assert_eq!(node.outgoing_family(), Family::Event);
    assert_eq!(g[petgraph::graph::NodeIndex::new(5)].family(), Family::Event);
}

#[test]
fn filter_and_choice_build_event_nodes() {
    let g = build(vec![
        local("a", evt("i32")),
        local("b", evt("i32")),
        local("c", choice(name("a"), name("b"))),
        local("f", filter(name("c"))),
    ])
    .ok()
    .unwrap();
    let c = &g[petgraph::graph::NodeIndex::new(4)];
    assert!(matches!(c, ReNode::Choice(_)));
    assert_eq!(g.edges_directed(petgraph::graph::NodeIndex::new(4), petgraph::Incoming).count(), 2);
    let f = &g[petgraph::graph::NodeIndex::new(6)];
    assert!(matches!(f, ReNode::Filter(_)));
    assert_eq!(f.family(), Family::Event);
    assert_eq!(f.ty(), "i32");
    // `f` names the filter node
    assert!(g.contains_edge(petgraph::graph::NodeIndex::new(6), petgraph::graph::NodeIndex::new(7)));
}

#[test]
fn pin_marks_the_node() {
    let g = build(vec![local("e", evt("i32")), pinned("m", map(name("e"), "i32"))]).ok().unwrap();
    assert!(g[petgraph::graph::NodeIndex::new(2)].pin());
    assert!(g[petgraph::graph::NodeIndex::new(3)].pin());
}

#[test]
fn visitor_step_by_step() {
    let mut v = ReVisitor::new();
    let block = ReBlock { stmts: vec![local("x", var("u8", "7"))] };
    assert!(v.visit_reblock(&block).is_ok());
    let g = v.reactive_graph();
    assert_eq!(g.node_count(), 2);
    match &g[petgraph::graph::NodeIndex::new(0)] {
        ReNode::Var(n) => {
            assert_eq!(n.initial, "7");
            assert!(n.pin());
        }
        _ => panic!("expected a variable source"),
    }
}

#[test]
fn keywords() {
    assert!(is_keyword("Var".to_string()));
    assert!(is_keyword("Evt".to_string()));
    assert!(is_keyword("map".to_string()));
    assert!(is_keyword("fold".to_string()));
    assert!(is_keyword("filter".to_string()));
    assert!(!is_keyword("x".to_string()));
    assert!(!is_keyword("Map".to_string()));
}

#[test]
fn fits_accepts_ordinary_blocks() {
    let block = ReBlock {
        stmts: vec![local("a", evt("i32")), local("m", map(group(vec![name("a")]), "i32"))],
    };
    assert!(rerust::visitor::fits(&block));
}

#[test]
fn fits_rejects_empty_group() {
    let block = ReBlock { stmts: vec![local("m", map(group(vec![]), "i32"))] };
    assert!(!rerust::visitor::fits(&block));
}

#[test]
fn binding_a_group_rejected() {
    let k = error_of(vec![
        local("v", var("i32", "0")),
        local("e", evt("i32")),
        local("g", group(vec![name("v"), name("e")])),
    ]);
    assert!(matches!(k, ErrorKind::UnexpectedGroup));
}

#[test]
fn binding_a_single_member_group_accepted() {
    let g = build(vec![local("e", evt("i32")), local("g", group(vec![name("e")]))]).ok().unwrap();
    assert_eq!(g[petgraph::graph::NodeIndex::new(2)].family(), Family::Event);
}

#[test]
fn fold_over_group_rejected() {
    let k = error_of(vec![
        local("a", evt("i32")),
        local("b", evt("i32")),
        local("f", fold(group(vec![name("a"), name("b")]), "i32")),
    ]);
    assert!(matches!(k, ErrorKind::UnexpectedGroup));
}

#[test]
fn filter_over_group_rejected() {
    let k = error_of(vec![
        local("a", evt("i32")),
        local("b", evt("i32")),
        local("f", filter(group(vec![name("a"), name("b")]))),
    ]);
    assert!(matches!(k, ErrorKind::UnexpectedGroup));
}

#[test]
fn changed_over_group_rejected() {
    let k = error_of(vec![
        local("v", var("i32", "0")),
        local("w", var("i32", "0")),
        local("c", changed(group(vec![name("v"), name("w")]))),
    ]);
    assert!(matches!(k, ErrorKind::UnexpectedGroup));
}

#[test]
fn choice_over_group_rejected() {
    let k = error_of(vec![
        local("a", evt("i32")),
        local("b", evt("i32")),
        local("c", choice(group(vec![name("a"), name("b")]), name("a"))),
    ]);
    assert!(matches!(k, ErrorKind::UnexpectedGroup));
}

fn run_visitor(stmts: Vec<ReLocal>) -> (bool, ReGraph) {
    let mut v = ReVisitor::new();
    let ok = v.visit_reblock(&ReBlock { stmts }).is_ok();
    (ok, v.reactive_graph())
}

#[test]
fn nothing_added_after_the_first_error() {
    let (ok, g) = run_visitor(vec![
        local("v", var("i32", "0")),
        local("f", filter(name("v"))),
        local("e", evt("i32")),
    ]);
    assert!(!ok);
    // only `v` and its alias: no filter node, nothing of `e`
    assert_eq!(g.node_count(), 2);
    assert_eq!(g.edge_count(), 1);
}

#[test]
fn rejected_duplicate_adds_no_name() {
    let (ok, g) = run_visitor(vec![local("x", var("i32", "0")), local("x", evt("i32"))]);
    assert!(!ok);
    // the event source was built before the duplicate was found; no alias for it
    assert_eq!(g.node_count(), 3);
    assert_eq!(g.edge_count(), 1);
    assert!(matches!(&g[petgraph::graph::NodeIndex::new(2)], ReNode::Evt(_)));
}

#[test]
fn rejected_pin_of_alias_sets_no_pin() {
    let (ok, g) = run_visitor(vec![local("e", evt("i32")), local("m", map(name("e"), "i32")), pinned("p", name("m"))]);
    assert!(!ok);
    assert_eq!(g.node_count(), 4);
    assert!(!g[petgraph::graph::NodeIndex::new(3)].pin());
}

#[test]
fn fold_over_variable_group_needs_event() {
    let k = error_of(vec![
        local("v1", var("i32", "0")),
        local("v2", var("i32", "0")),
        local("f", fold(group(vec![name("v1"), name("v2")]), "i32")),
    ]);
    assert!(matches!(k, ErrorKind::FoldRequiresEvent));
}

#[test]
fn filter_over_variable_group_needs_event() {
    let k = error_of(vec![
        local("v1", var("i32", "0")),
        local("v2", var("i32", "0")),
        local("f", filter(group(vec![name("v1"), name("v2")]))),
    ]);
    assert!(matches!(k, ErrorKind::FilterRequiresEvent));
}

#[test]
fn changed_over_event_group_needs_variable() {
    let k = error_of(vec![
        local("a", evt("i32")),
        local("b", evt("i32")),
        local("c", changed(group(vec![name("a"), name("b")]))),
    ]);
    assert!(matches!(k, ErrorKind::ChangedRequiresVariable));
}
