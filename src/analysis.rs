//! The nodes of the dataflow graph and the compiler's errors.
use crate::ast::{ReClosure, ReIdent};
use proc_macro2::Span;
use vstd::prelude::*;

verus! {

/// Propagation semantics of a reactive: an `Event` arrives at most once per
/// tick, a `Variable` always holds a current value.
#[derive(Debug, Clone, Copy, PartialEq, Eq, Structural)]
pub enum Family {
    Event,
    Variable,
}

/// What every node records.
pub struct ReData {
    pub id: u32,
    pub family: Family,
    pub ty: String,
    pub pin: bool,
}

/// Fires with a variable's new value on the ticks where it changed.
pub struct ChangedNode {
    pub data: ReData,
}

/// An external event source.
pub struct EvtNode {
    pub data: ReData,
}

/// An external variable source with its initial value.
pub struct VarNode {
    pub initial: String,
    pub data: ReData,
}

/// A name bound by a declaration; forwards its single input.
pub struct NameNode {
    pub id: ReIdent,
    pub data: ReData,
}

/// Accumulates the events of its input.
pub struct FoldNode {
    pub initial: String,
    pub update_expr: ReClosure,
    pub data: ReData,
}

/// Applies a closure to its inputs.
pub struct MapNode {
    pub update_expr: ReClosure,
    pub data: ReData,
}

/// Lets through the events on which a predicate holds.
pub struct FilterNode {
    pub filter_expr: ReClosure,
    pub data: ReData,
}

/// Fires with its left input when that fires, else with its right one.
pub struct ChoiceNode {
    pub data: ReData,
}

pub enum ReNode {
    Var(VarNode),
    Evt(EvtNode),
    Name(NameNode),
    Fold(FoldNode),
    Mapping(MapNode),
    Filter(FilterNode),
    Changed(ChangedNode),
    Choice(ChoiceNode),
}

/// An edge carries the type of the value that flows along it.
pub struct ReEdge {
    pub ty: String,
}

pub enum ErrorKind {
    DuplicateBinding,
    UnknownReactive,
    TypeMismatch,
    FamilyMismatch,
    FoldRequiresEvent,
    FilterRequiresEvent,
    ChangedRequiresVariable,
    CannotPinGroup,
    PinIndirection,
    UnexpectedGroup,
}

/// A compile error and the place in the declarations it points at.
pub struct ReError {
    pub kind: ErrorKind,
    pub span: Span,
}

/// The text reported for each kind of error.
pub open spec fn error_text(kind: ErrorKind) -> Seq<char> {
    match kind {
        ErrorKind::DuplicateBinding => "identifier already occupied"@,
        ErrorKind::UnknownReactive => "unknown reactive"@,
        ErrorKind::TypeMismatch => "mismatching types"@,
        ErrorKind::FamilyMismatch => "mismatching reactive family"@,
        ErrorKind::FoldRequiresEvent => "incoming node must be event"@,
        ErrorKind::FilterRequiresEvent => "filter only valid on events"@,
        ErrorKind::ChangedRequiresVariable => "changed only valid on variables"@,
        ErrorKind::CannotPinGroup => "cannot pin group of reactives"@,
        ErrorKind::PinIndirection => "pin original signal instead"@,
        ErrorKind::UnexpectedGroup => "expected a single reactive, not a group"@,
    }
}

impl ReError {
    /// The text reported for this error.
    pub fn message(&self) -> (r: &'static str)
        ensures
            r@ == error_text(self.kind),
    {
        match self.kind {
            ErrorKind::DuplicateBinding => "identifier already occupied",
            ErrorKind::UnknownReactive => "unknown reactive",
            ErrorKind::TypeMismatch => "mismatching types",
            ErrorKind::FamilyMismatch => "mismatching reactive family",
            ErrorKind::FoldRequiresEvent => "incoming node must be event",
            ErrorKind::FilterRequiresEvent => "filter only valid on events",
            ErrorKind::ChangedRequiresVariable => "changed only valid on variables",
            ErrorKind::CannotPinGroup => "cannot pin group of reactives",
            ErrorKind::PinIndirection => "pin original signal instead",
            ErrorKind::UnexpectedGroup => "expected a single reactive, not a group",
        }
    }
}

/// What every kind of node answers about itself.
pub trait NodeData: Sized {
    spec fn data_view(&self) -> ReData;

    /// The same value with its pin flag set to `p`.
    spec fn with_pin(&self, p: bool) -> Self;

    spec fn outgoing_view(&self) -> Family;

    fn outgoing_family(&self) -> (r: Family)
        ensures
            r == self.outgoing_view(),
    ;

    fn family(&self) -> (r: Family)
        ensures
            r == self.data_view().family,
    ;

    fn ty(&self) -> (r: &String)
        ensures
            *r == self.data_view().ty,
    ;

    fn pin(&self) -> (r: bool)
        ensures
            r == self.data_view().pin,
    ;

    fn pin_mut(&mut self) -> (r: &mut bool)
        ensures
            *r == old(self).data_view().pin,
            *final(self) == old(self).with_pin(*final(r)),
    ;

    fn id(&self) -> (r: u32)
        ensures
            r == self.data_view().id,
    ;
}

impl NodeData for ReData {
    open spec fn data_view(&self) -> ReData {
        *self
    }

    open spec fn with_pin(&self, p: bool) -> ReData {
        ReData { pin: p, ..*self }
    }

    open spec fn outgoing_view(&self) -> Family {
        self.family
    }

    fn outgoing_family(&self) -> (r: Family) {
        self.family()
    }

    fn family(&self) -> (r: Family) {
        self.family
    }

    fn ty(&self) -> (r: &String) {
        &self.ty
    }

    fn pin(&self) -> (r: bool) {
        self.pin
    }

    fn pin_mut(&mut self) -> (r: &mut bool) {
        &mut self.pin
    }

    fn id(&self) -> (r: u32) {
        self.id
    }
}

impl NodeData for VarNode {
    open spec fn data_view(&self) -> ReData {
        self.data
    }

    open spec fn with_pin(&self, p: bool) -> VarNode {
        VarNode { data: ReData { pin: p, ..self.data }, ..*self }
    }

    open spec fn outgoing_view(&self) -> Family {
        self.data.family
    }

    fn outgoing_family(&self) -> (r: Family) {
        self.family()
    }

    fn family(&self) -> (r: Family) {
        self.data.family()
    }

    fn ty(&self) -> (r: &String) {
        self.data.ty()
    }

    fn pin(&self) -> (r: bool) {
        self.data.pin()
    }

    fn pin_mut(&mut self) -> (r: &mut bool) {
        self.data.pin_mut()
    }

    fn id(&self) -> (r: u32) {
        self.data.id()
    }
}

impl NodeData for EvtNode {
    open spec fn data_view(&self) -> ReData {
        self.data
    }

    open spec fn with_pin(&self, p: bool) -> EvtNode {
        EvtNode { data: ReData { pin: p, ..self.data }, ..*self }
    }

    open spec fn outgoing_view(&self) -> Family {
        self.data.family
    }

    fn outgoing_family(&self) -> (r: Family) {
        self.family()
    }

    fn family(&self) -> (r: Family) {
        self.data.family()
    }

    fn ty(&self) -> (r: &String) {
        self.data.ty()
    }

    fn pin(&self) -> (r: bool) {
        self.data.pin()
    }

    fn pin_mut(&mut self) -> (r: &mut bool) {
        self.data.pin_mut()
    }

    fn id(&self) -> (r: u32) {
        self.data.id()
    }
}

impl NodeData for NameNode {
    open spec fn data_view(&self) -> ReData {
        self.data
    }

    open spec fn with_pin(&self, p: bool) -> NameNode {
        NameNode { data: ReData { pin: p, ..self.data }, ..*self }
    }

    open spec fn outgoing_view(&self) -> Family {
        self.data.family
    }

    fn outgoing_family(&self) -> (r: Family) {
        self.family()
    }

    fn family(&self) -> (r: Family) {
        self.data.family()
    }

    fn ty(&self) -> (r: &String) {
        self.data.ty()
    }

    fn pin(&self) -> (r: bool) {
        self.data.pin()
    }

    fn pin_mut(&mut self) -> (r: &mut bool) {
        self.data.pin_mut()
    }

    fn id(&self) -> (r: u32) {
        self.data.id()
    }
}

impl NodeData for FoldNode {
    open spec fn data_view(&self) -> ReData {
        self.data
    }

    open spec fn with_pin(&self, p: bool) -> FoldNode {
        FoldNode { data: ReData { pin: p, ..self.data }, ..*self }
    }

    open spec fn outgoing_view(&self) -> Family {
        Family::Variable
    }

    fn outgoing_family(&self) -> (r: Family) {
        Family::Variable
    }

    fn family(&self) -> (r: Family) {
        self.data.family()
    }

    fn ty(&self) -> (r: &String) {
        self.data.ty()
    }

    fn pin(&self) -> (r: bool) {
        self.data.pin()
    }

    fn pin_mut(&mut self) -> (r: &mut bool) {
        self.data.pin_mut()
    }

    fn id(&self) -> (r: u32) {
        self.data.id()
    }
}

impl NodeData for MapNode {
    open spec fn data_view(&self) -> ReData {
        self.data
    }

    open spec fn with_pin(&self, p: bool) -> MapNode {
        MapNode { data: ReData { pin: p, ..self.data }, ..*self }
    }

    open spec fn outgoing_view(&self) -> Family {
        self.data.family
    }

    fn outgoing_family(&self) -> (r: Family) {
        self.family()
    }

    fn family(&self) -> (r: Family) {
        self.data.family()
    }

    fn ty(&self) -> (r: &String) {
        self.data.ty()
    }

    fn pin(&self) -> (r: bool) {
        self.data.pin()
    }

    fn pin_mut(&mut self) -> (r: &mut bool) {
        self.data.pin_mut()
    }

    fn id(&self) -> (r: u32) {
        self.data.id()
    }
}

impl NodeData for FilterNode {
    open spec fn data_view(&self) -> ReData {
        self.data
    }

    open spec fn with_pin(&self, p: bool) -> FilterNode {
        FilterNode { data: ReData { pin: p, ..self.data }, ..*self }
    }

    open spec fn outgoing_view(&self) -> Family {
        self.data.family
    }

    fn outgoing_family(&self) -> (r: Family) {
        self.family()
    }

    fn family(&self) -> (r: Family) {
        self.data.family()
    }

    fn ty(&self) -> (r: &String) {
        self.data.ty()
    }

    fn pin(&self) -> (r: bool) {
        self.data.pin()
    }

    fn pin_mut(&mut self) -> (r: &mut bool) {
        self.data.pin_mut()
    }

    fn id(&self) -> (r: u32) {
        self.data.id()
    }
}

impl NodeData for ChangedNode {
    open spec fn data_view(&self) -> ReData {
        self.data
    }

    open spec fn with_pin(&self, p: bool) -> ChangedNode {
        ChangedNode { data: ReData { pin: p, ..self.data }, ..*self }
    }

    open spec fn outgoing_view(&self) -> Family {
        Family::Event
    }

    fn outgoing_family(&self) -> (r: Family) {
        Family::Event
    }

    fn family(&self) -> (r: Family) {
        self.data.family()
    }

    fn ty(&self) -> (r: &String) {
        self.data.ty()
    }

    fn pin(&self) -> (r: bool) {
        self.data.pin()
    }

    fn pin_mut(&mut self) -> (r: &mut bool) {
        self.data.pin_mut()
    }

    fn id(&self) -> (r: u32) {
        self.data.id()
    }
}

impl NodeData for ChoiceNode {
    open spec fn data_view(&self) -> ReData {
        self.data
    }

    open spec fn with_pin(&self, p: bool) -> ChoiceNode {
        ChoiceNode { data: ReData { pin: p, ..self.data }, ..*self }
    }

    open spec fn outgoing_view(&self) -> Family {
        self.data.family
    }

    fn outgoing_family(&self) -> (r: Family) {
        self.family()
    }

    fn family(&self) -> (r: Family) {
        self.data.family()
    }

    fn ty(&self) -> (r: &String) {
        self.data.ty()
    }

    fn pin(&self) -> (r: bool) {
        self.data.pin()
    }

    fn pin_mut(&mut self) -> (r: &mut bool) {
        self.data.pin_mut()
    }

    fn id(&self) -> (r: u32) {
        self.data.id()
    }
}

impl NodeData for ReNode {
    open spec fn data_view(&self) -> ReData {
        self.data()
    }

    open spec fn with_pin(&self, p: bool) -> ReNode {
        self.with_data(ReData { pin: p, ..self.data() })
    }

    open spec fn outgoing_view(&self) -> Family {
        self.outgoing()
    }

    fn outgoing_family(&self) -> (r: Family) {
        match self {
            ReNode::Fold(_) => Family::Variable,
            ReNode::Changed(_) => Family::Event,
            _ => self.family(),
        }
    }

    fn family(&self) -> (r: Family) {
        self.ty_data().family
    }

    fn ty(&self) -> (r: &String) {
        &self.ty_data().ty
    }

    fn pin(&self) -> (r: bool) {
        self.ty_data().pin
    }

    fn pin_mut(&mut self) -> (r: &mut bool) {
        match self {
            ReNode::Var(n) => &mut n.data.pin,
            ReNode::Evt(n) => &mut n.data.pin,
            ReNode::Name(n) => &mut n.data.pin,
            ReNode::Fold(n) => &mut n.data.pin,
            ReNode::Mapping(n) => &mut n.data.pin,
            ReNode::Filter(n) => &mut n.data.pin,
            ReNode::Changed(n) => &mut n.data.pin,
            ReNode::Choice(n) => &mut n.data.pin,
        }
    }

    fn id(&self) -> (r: u32) {
        self.ty_data().id
    }
}

impl ReNode {
    /// The record shared by all kinds of node.
    pub fn ty_data(&self) -> (r: &ReData)
        ensures
            *r == self.data(),
    {
        match self {
            ReNode::Var(n) => &n.data,
            ReNode::Evt(n) => &n.data,
            ReNode::Name(n) => &n.data,
            ReNode::Fold(n) => &n.data,
            ReNode::Mapping(n) => &n.data,
            ReNode::Filter(n) => &n.data,
            ReNode::Changed(n) => &n.data,
            ReNode::Choice(n) => &n.data,
        }
    }
}

impl ReData {
    pub fn copy(&self) -> (r: ReData)
        ensures
            r == *self,
    {
        ReData { id: self.id, family: self.family, ty: self.ty.clone(), pin: self.pin }
    }
}

impl NameNode {
    pub fn copy(&self) -> (r: NameNode)
        ensures
            r == *self,
    {
        NameNode { id: self.id.copy(), data: self.data.copy() }
    }
}

impl ReNode {
    /// The record shared by all kinds of node.
    pub open spec fn data(self) -> ReData {
        match self {
            ReNode::Var(n) => n.data,
            ReNode::Evt(n) => n.data,
            ReNode::Name(n) => n.data,
            ReNode::Fold(n) => n.data,
            ReNode::Mapping(n) => n.data,
            ReNode::Filter(n) => n.data,
            ReNode::Changed(n) => n.data,
            ReNode::Choice(n) => n.data,
        }
    }

    /// The same node with its record replaced.
    pub open spec fn with_data(self, d: ReData) -> ReNode {
        match self {
            ReNode::Var(n) => ReNode::Var(VarNode { data: d, ..n }),
            ReNode::Evt(n) => ReNode::Evt(EvtNode { data: d, ..n }),
            ReNode::Name(n) => ReNode::Name(NameNode { data: d, ..n }),
            ReNode::Fold(n) => ReNode::Fold(FoldNode { data: d, ..n }),
            ReNode::Mapping(n) => ReNode::Mapping(MapNode { data: d, ..n }),
            ReNode::Filter(n) => ReNode::Filter(FilterNode { data: d, ..n }),
            ReNode::Changed(n) => ReNode::Changed(ChangedNode { data: d, ..n }),
            ReNode::Choice(n) => ReNode::Choice(ChoiceNode { data: d, ..n }),
        }
    }

    /// The same node, marked as retained across ticks.
    pub open spec fn pinned(self) -> ReNode {
        self.with_data(ReData { pin: true, ..self.data() })
    }

    /// The family that consumers of this node see.
    pub open spec fn outgoing(self) -> Family {
        match self {
            ReNode::Fold(_) => Family::Variable,
            ReNode::Changed(_) => Family::Event,
            _ => self.data().family,
        }
    }

    pub open spec fn is_name(self) -> bool {
        self is Name
    }
}

} // verus!
