//! The surface syntax, as far as the passes need it.

pub mod loc;
pub mod syntax;

pub use loc::Loc;
