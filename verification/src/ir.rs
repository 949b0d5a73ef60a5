//! The intermediate representation: components whose entities live in
//! arenas and refer to each other by index.

pub mod idx;
pub mod node;
pub mod info;
pub mod control;
pub mod comp;
pub mod tree;
pub mod builder;
pub mod algebra;
pub mod subst;
pub mod validate;
pub mod eval;
