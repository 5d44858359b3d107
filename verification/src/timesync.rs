//! Time on the show's host, as a client counts it.

use vstd::prelude::*;

verus! {

/// A span of time in whole microseconds.
#[derive(Clone, Copy, Debug, PartialEq, Eq, Structural, PartialOrd, Ord)]
pub struct Microseconds(pub u64);

} // verus!
