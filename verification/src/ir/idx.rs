//! Typed indices into the arenas of a component.

use vstd::prelude::*;

verus! {

/// Index of a port.
#[derive(Clone, Copy, Debug, PartialEq, Eq, Structural, Hash)]
pub struct PortIdx(pub usize);

/// Index of an event.
#[derive(Clone, Copy, Debug, PartialEq, Eq, Structural, Hash)]
pub struct EventIdx(pub usize);

/// Index of a parameter.
#[derive(Clone, Copy, Debug, PartialEq, Eq, Structural, Hash)]
pub struct ParamIdx(pub usize);

/// Index of an instance.
#[derive(Clone, Copy, Debug, PartialEq, Eq, Structural, Hash)]
pub struct InstIdx(pub usize);

/// Index of an invocation.
#[derive(Clone, Copy, Debug, PartialEq, Eq, Structural, Hash)]
pub struct InvIdx(pub usize);

/// Index of an expression.
#[derive(Clone, Copy, Debug, PartialEq, Eq, Structural, Hash)]
pub struct ExprIdx(pub usize);

/// Index of a time.
#[derive(Clone, Copy, Debug, PartialEq, Eq, Structural, Hash)]
pub struct TimeIdx(pub usize);

/// Index of a proposition.
#[derive(Clone, Copy, Debug, PartialEq, Eq, Structural, Hash)]
pub struct PropIdx(pub usize);

/// Index of a metadata record.
#[derive(Clone, Copy, Debug, PartialEq, Eq, Structural, Hash)]
pub struct InfoIdx(pub usize);

} // verus!
