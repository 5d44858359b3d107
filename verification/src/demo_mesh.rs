//! The demo's mesh densities: powers of two giving a target edge length,
//! bucketed so a shape scaled anywhere within a bucket reuses one mesh.

use vstd::prelude::*;

verus! {

/// Coarsest mesh worth keeping.
pub const COARSEST_LEVEL: i8 = -2;

/// Finest mesh worth keeping.
pub const FINEST_LEVEL: i8 = -7;

/// A mesh density, as the power of two giving its target edge length.
#[derive(Clone, Copy, Debug, PartialEq, Eq, Structural, Hash, PartialOrd, Ord)]
pub struct Level(pub i8);

impl Level {
    /// Every level, coarsest first.
    pub fn all() -> (r: Vec<Level>)
        ensures
            r@.len() == COARSEST_LEVEL - FINEST_LEVEL + 1,
            forall|k: int| 0 <= k < r@.len() ==> (#[trigger] r@[k]).0 == COARSEST_LEVEL - k,
    {
        let mut out: Vec<Level> = Vec::new();
        let mut e: i8 = COARSEST_LEVEL;
        while e >= FINEST_LEVEL
            invariant
                FINEST_LEVEL - 1 <= e <= COARSEST_LEVEL,
                out@.len() == COARSEST_LEVEL - e,
                forall|k: int| 0 <= k < out@.len() ==> (#[trigger] out@[k]).0 == COARSEST_LEVEL - k,
            decreases e - FINEST_LEVEL + 1,
        {
            out.push(Level(e));
            e = e - 1;
        }
        out
    }
}

} // verus!
