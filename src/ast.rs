//! The declarations that the dataflow compiler consumes.
//!
//! Types, initial values and closure bodies are kept as the text of their
//! tokens: the compiler compares types for equality and hands the rest on to
//! code emission untouched.
use proc_macro2::Span;
use vstd::prelude::*;
use vstd::string::*;

verus! {

/// `proc_macro2::Span`, opaque: a location carried through to errors.
#[verifier::external_type_specification]
#[verifier::external_body]
pub struct ExSpan(proc_macro2::Span);

/// A block of `let` declarations, in source order.
pub struct ReBlock {
    pub stmts: Vec<ReLocal>,
}

/// `let [pin] <ident> = <expr>;`
pub struct ReLocal {
    /// Location of the `pin` marker, when present.
    pub pin_token: Option<Span>,
    pub ident: ReIdent,
    pub init: ReExpr,
}

/// An identifier together with where it was written.
pub struct ReIdent {
    pub ident: String,
    pub span: Span,
}

pub enum ReExpr {
    Var(VarExpr),
    Evt(EvtExpr),
    Ident(ReIdent),
    Group(GroupExpr),
    Fold(FoldExpr),
    Choice(ChoiceExpr),
    Mapping(MapExpr),
    Filter(FilterExpr),
    Changed(ChangedExpr),
}

/// `a || b`
pub struct ChoiceExpr {
    pub left_expr: Box<ReExpr>,
    pub oror: Span,
    pub right_expr: Box<ReExpr>,
}

/// `(e1, e2, ...)`
pub struct GroupExpr {
    pub paren: Span,
    pub exprs: Vec<ReExpr>,
}

/// `Var::<T>(init)`
pub struct VarExpr {
    pub var_token: Span,
    pub ty: String,
    pub expr: String,
}

/// `Evt::<T>()`
pub struct EvtExpr {
    pub evt_token: Span,
    pub ty: String,
}

/// `e.map(closure)`
pub struct MapExpr {
    pub left_expr: Box<ReExpr>,
    pub map_token: Span,
    pub closure: ReClosure,
}

/// `e.fold(init, closure)`
pub struct FoldExpr {
    pub left_expr: Box<ReExpr>,
    pub fold_token: Span,
    pub init_expr: String,
    pub closure: ReClosure,
}

/// `e.filter(closure)`
pub struct FilterExpr {
    pub left_expr: Box<ReExpr>,
    pub filter_token: Span,
    pub closure: ReClosure,
}

/// `e.changed()`
pub struct ChangedExpr {
    pub left_expr: Box<ReExpr>,
    pub changed_token: Span,
}

/// `|inputs| -> return_type body`
pub struct ReClosure {
    pub inputs: String,
    pub return_type: String,
    pub body: String,
}

impl ReIdent {
    pub fn copy(&self) -> (r: ReIdent)
        ensures
            r == *self,
    {
        ReIdent { ident: self.ident.clone(), span: self.span }
    }
}

impl ReClosure {
    pub fn copy(&self) -> (r: ReClosure)
        ensures
            r == *self,
    {
        ReClosure {
            inputs: self.inputs.clone(),
            return_type: self.return_type.clone(),
            body: self.body.clone(),
        }
    }
}

/// The words that the declaration syntax reserves.
pub open spec fn keyword(s: Seq<char>) -> bool {
    s == "Var"@ || s == "Evt"@ || s == "map"@ || s == "fold"@ || s == "filter"@
}

/// Whether `str` is reserved, and so cannot name a reactive.
pub fn is_keyword(str: String) -> (r: bool)
    ensures
        r == keyword(str@),
{
    let words = [
        String::from_str("Var"),
        String::from_str("Evt"),
        String::from_str("map"),
        String::from_str("fold"),
        String::from_str("filter"),
    ];
    let mut i: usize = 0;
    while i < 5
        invariant
            0 <= i <= 5,
            words@.len() == 5,
            words@[0]@ == "Var"@,
            words@[1]@ == "Evt"@,
            words@[2]@ == "map"@,
            words@[3]@ == "fold"@,
            words@[4]@ == "filter"@,
            forall|j: int| 0 <= j < i ==> words@[j]@ != str@,
        decreases 5 - i,
    {
        if words[i] == str {
            return true;
        }
        i = i + 1;
    }
    false
}

/// Number of syntax nodes in an expression; bounds how much of the graph it
/// can make.
pub open spec fn expr_size(e: ReExpr) -> nat
    decreases e,
{
    match e {
        ReExpr::Var(_) => 1,
        ReExpr::Evt(_) => 1,
        ReExpr::Ident(_) => 1,
        ReExpr::Group(g) => 1 + exprs_size(g.exprs@),
        ReExpr::Fold(f) => 1 + expr_size(*f.left_expr),
        ReExpr::Choice(c) => 1 + expr_size(*c.left_expr) + expr_size(*c.right_expr),
        ReExpr::Mapping(m) => 1 + expr_size(*m.left_expr),
        ReExpr::Filter(f) => 1 + expr_size(*f.left_expr),
        ReExpr::Changed(c) => 1 + expr_size(*c.left_expr),
    }
}

pub open spec fn exprs_size(es: Seq<ReExpr>) -> nat
    decreases es,
{
    if es.len() == 0 {
        0
    } else {
        exprs_size(es.drop_last()) + expr_size(es.last())
    }
}

/// Every group holds at least one expression, as the syntax demands.
pub open spec fn expr_wf(e: ReExpr) -> bool
    decreases e,
{
    match e {
        ReExpr::Var(_) => true,
        ReExpr::Evt(_) => true,
        ReExpr::Ident(_) => true,
        ReExpr::Group(g) => g.exprs@.len() > 0 && exprs_wf(g.exprs@),
        ReExpr::Fold(f) => expr_wf(*f.left_expr),
        ReExpr::Choice(c) => expr_wf(*c.left_expr) && expr_wf(*c.right_expr),
        ReExpr::Mapping(m) => expr_wf(*m.left_expr),
        ReExpr::Filter(f) => expr_wf(*f.left_expr),
        ReExpr::Changed(c) => expr_wf(*c.left_expr),
    }
}

pub open spec fn exprs_wf(es: Seq<ReExpr>) -> bool
    decreases es,
{
    if es.len() == 0 {
        true
    } else {
        exprs_wf(es.drop_last()) && expr_wf(es.last())
    }
}

} // verus!
