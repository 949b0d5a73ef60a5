//! Source positions.

use vstd::prelude::*;

verus! {

/// A handle for a location in the source text.
#[derive(Clone, Copy, Debug, PartialEq, Eq, Structural, Hash)]
pub struct GPosIdx(pub u32);

impl GPosIdx {
    /// The position of a value that has no place in the source text.
    pub open spec fn spec_unknown() -> GPosIdx {
        GPosIdx(0)
    }

    /// The position of a value that has no place in the source text.
    #[verifier::when_used_as_spec(spec_unknown)]
    pub fn unknown() -> (pos: GPosIdx)
        ensures
            pos == GPosIdx::spec_unknown(),
    {
        GPosIdx(0)
    }

    /// Whether this position points into the source text.
    pub fn is_known(&self) -> (known: bool)
        ensures
            known == (*self != GPosIdx::spec_unknown()),
    {
        self.0 != 0
    }
}

} // verus!
