//! The passes over the surface syntax.

pub mod bundle_elim;
