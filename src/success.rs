//! Success flags.
use vstd::prelude::*;

verus! {

/// The outcome of an operation whose details, on failure, are recorded in
/// the parser or emitter that performed it.
#[derive(Debug, Clone, Copy, PartialEq, Eq, Structural)]
pub struct Success {
    pub ok: bool,
}

/// The negation of a `Success`, for callers that test for failure.
#[derive(Debug, Clone, Copy, PartialEq, Eq, Structural)]
pub struct Failure {
    pub fail: bool,
}

impl Success {
    /// The failure flag that corresponds to this outcome.
    pub fn failure(&self) -> (r: Failure)
        ensures
            r.fail == !self.ok,
    {
        Failure { fail: !self.ok }
    }
}

} // verus!
