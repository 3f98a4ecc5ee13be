//! What the processor can do, as far as the choice of an engine depends on it.

use vstd::prelude::*;

verus! {

/// The vector features of a processor that folding asks for. Each field says whether
/// the processor has the feature of that name.
#[derive(Clone, Copy, Debug, PartialEq, Eq, Structural)]
pub struct Features {
    pub pclmulqdq: bool,
    pub sse: bool,
    pub sse2: bool,
    pub ssse3: bool,
    pub sse4_1: bool,
}

impl Features {
    /// Whether all that folding asks for is there.
    pub open spec fn sufficient(&self) -> bool {
        self.pclmulqdq && self.sse && self.sse2 && self.ssse3 && self.sse4_1
    }

    /// A processor with none of the features.
    pub fn none() -> (f: Self)
        ensures
            !f.pclmulqdq,
            !f.sse,
            !f.sse2,
            !f.ssse3,
            !f.sse4_1,
    {
        Features { pclmulqdq: false, sse: false, sse2: false, ssse3: false, sse4_1: false }
    }

    /// A processor with all of the features.
    pub fn all() -> (f: Self)
        ensures
            f.pclmulqdq,
            f.sse,
            f.sse2,
            f.ssse3,
            f.sse4_1,
    {
        Features { pclmulqdq: true, sse: true, sse2: true, ssse3: true, sse4_1: true }
    }

    /// Whether all that folding asks for is there.
    pub fn is_sufficient(&self) -> (b: bool)
        ensures
            b == self.sufficient(),
    {
        self.pclmulqdq && self.sse && self.sse2 && self.ssse3 && self.sse4_1
    }
}

} // verus!
