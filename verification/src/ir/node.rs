//! The entities that a component's arenas hold.

use vstd::prelude::*;
use crate::ir::idx::{EventIdx, ExprIdx, InfoIdx, InstIdx, InvIdx, ParamIdx, PropIdx, TimeIdx};

verus! {

/// Binary operators of expressions.
#[derive(Clone, Copy, Debug, PartialEq, Eq, Structural, Hash)]
pub enum Op {
    Add,
    /// Subtraction of naturals: zero where the right side is larger.
    Sub,
    Mul,
}

/// A numeric expression over parameters.
#[derive(Clone, Copy, Debug, PartialEq, Eq, Structural, Hash)]
pub enum Expr {
    Param(ParamIdx),
    Concrete(u64),
    Bin { op: Op, lhs: ExprIdx, rhs: ExprIdx },
}

/// A point in time: an offset from the trigger of an event.
#[derive(Clone, Copy, Debug, PartialEq, Eq, Structural, Hash)]
pub struct Time {
    pub event: EventIdx,
    pub offset: ExprIdx,
}

/// A span of time: a plain number of cycles, or the distance from `r` to `l`.
#[derive(Clone, Copy, Debug, PartialEq, Eq, Structural, Hash)]
pub enum TimeSub {
    Unit(ExprIdx),
    Sym { l: TimeIdx, r: TimeIdx },
}

/// The relations of atomic propositions. `<` and `<=` are written with the
/// sides exchanged.
#[derive(Clone, Copy, Debug, PartialEq, Eq, Structural, Hash)]
pub enum Rel {
    Gt,
    Gte,
    Eq,
}

/// A proposition over expressions, times and spans.
#[allow(inconsistent_fields)]
#[derive(Clone, Copy, Debug, PartialEq, Eq, Structural, Hash)]
pub enum Prop {
    True,
    False,
    /// A relation between two numbers.
    Num { op: Rel, lhs: ExprIdx, rhs: ExprIdx },
    /// A relation between two points in time.
    At { op: Rel, lhs: TimeIdx, rhs: TimeIdx },
    /// A relation between two spans of time.
    Span { op: Rel, lhs: TimeSub, rhs: TimeSub },
    Not(PropIdx),
    And(PropIdx, PropIdx),
    Or(PropIdx, PropIdx),
    Implies(PropIdx, PropIdx),
}

/// The validity window of a port, relative to events.
#[derive(Clone, Copy, Debug, PartialEq, Eq, Structural, Hash)]
pub struct Range {
    pub start: TimeIdx,
    pub end: TimeIdx,
}

/// When a bundle of ports is valid: `len` ports, numbered by the parameter
/// `idx`, each valid during `range`.
#[derive(Clone, Copy, Debug, PartialEq, Eq, Structural, Hash)]
pub struct Liveness {
    pub idx: ParamIdx,
    pub len: ExprIdx,
    pub range: Range,
}

/// Direction of a port.
#[derive(Clone, Copy, Debug, PartialEq, Eq, Structural, Hash)]
pub enum Direction {
    In,
    Out,
}

/// Who declares a port.
#[derive(Clone, Copy, Debug, PartialEq, Eq, Structural, Hash)]
pub enum PortOwner {
    /// A port of the component's signature.
    Sig { dir: Direction },
    /// A port that an invocation creates at its call site.
    Inv { inv: InvIdx, dir: Direction },
    /// A port that lives inside the component.
    Local,
}

/// A port or a bundle of ports.
#[derive(Clone, Copy, Debug, PartialEq, Eq, Structural, Hash)]
pub struct Port {
    pub owner: PortOwner,
    pub live: Liveness,
    pub info: InfoIdx,
}

/// Who declares an event.
#[derive(Clone, Copy, Debug, PartialEq, Eq, Structural, Hash)]
pub enum EventOwner {
    /// An event of the component's signature.
    Sig,
    /// An event of the signature of an instance.
    Inst { inst: InstIdx },
}

/// A trigger with a least gap between two firings.
#[derive(Clone, Copy, Debug, PartialEq, Eq, Structural, Hash)]
pub struct Event {
    pub delay: TimeSub,
    pub owner: EventOwner,
    pub info: InfoIdx,
}

/// Who binds a parameter.
#[derive(Clone, Copy, Debug, PartialEq, Eq, Structural, Hash)]
pub enum ParamOwner {
    Sig,
    Bundle,
    Loop,
}

/// A parameter.
#[derive(Clone, Copy, Debug, PartialEq, Eq, Structural, Hash)]
pub struct Param {
    pub owner: ParamOwner,
    pub info: InfoIdx,
}

/// An instance of another component, named by its place in the table of
/// components.
#[derive(Clone, Copy, Debug, PartialEq, Eq, Structural, Hash)]
pub struct Instance {
    pub comp: usize,
    pub info: InfoIdx,
}

/// Binds an event of the invoked instance to a time of the caller.
#[derive(Clone, Copy, Debug, PartialEq, Eq, Structural, Hash)]
pub struct EventBind {
    /// The event of the callee that is bound.
    pub event: EventIdx,
    /// The time of the caller at which it triggers.
    pub arg: TimeIdx,
    pub info: InfoIdx,
}

/// A use of an instance.
#[derive(Clone, Debug, PartialEq, Eq)]
pub struct Invoke {
    pub inst: InstIdx,
    pub events: Vec<EventBind>,
}

} // verus!

verus! {

/// A use of an instance, with its bindings as a sequence.
pub struct InvokeView {
    pub inst: InstIdx,
    pub events: Seq<EventBind>,
}

impl View for Invoke {
    type V = InvokeView;

    open spec fn view(&self) -> InvokeView {
        InvokeView { inst: self.inst, events: self.events@ }
    }
}

impl EventOwner {
    /// Whether the signature of the component declares the event.
    pub fn is_sig(&self) -> (b: bool)
        ensures
            b == (*self is Sig),
    {
        match self {
            EventOwner::Sig => true,
            EventOwner::Inst { .. } => false,
        }
    }
}

impl PortOwner {
    /// Whether an invocation owns the port.
    pub fn is_inv(&self) -> (b: bool)
        ensures
            b == (*self is Inv),
    {
        match self {
            PortOwner::Inv { .. } => true,
            _ => false,
        }
    }
}

} // verus!
