//! Timing checks for a hardware description language in which the ports of
//! a component are live during windows that follow events.
//!
//! A component promises when its ports are live and how often its events
//! may trigger. The passes of this crate generate, for a component, every
//! proposition that has to hold for that promise to be sound, and put the
//! propositions into a form that a solver can take one by one:
//!
//! - [`ir`] holds the components: arenas of ports, events, parameters,
//!   expressions, times and propositions that refer to each other by index,
//!   the operations that build expressions and propositions, and what
//!   propositions mean.
//! - [`ir_visitor`] is the traversal of the commands of a component that
//!   every pass shares.
//! - [`ir_passes`] holds interval checking, which generates the assertions,
//!   and fact hoisting, which lifts every assertion out of the conditionals
//!   and loops around it.
//! - [`ast`] and [`passes`] hold what comes before lowering: values with a
//!   position in the source text, and the elimination of bundles.
//!
//! The passes prove no proposition. They only generate them.

pub mod utils;
pub mod ast;
pub mod ir;
pub mod ir_visitor;
pub mod ir_passes;
pub mod passes;
