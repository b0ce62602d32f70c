//! What a handler answers in blocking mode.

use vstd::prelude::*;

verus! {

/// A blocking handler's answer: keep watching, or give the thread back.
#[derive(Clone, Copy, Debug, PartialEq, Eq, Structural)]
pub enum Flow {
    /// Continue watching and blocking the thread.
    Continue,
    /// Stop watching, returning control of the thread.
    Exit,
}

impl Default for Flow {
    fn default() -> (r: Self)
        ensures
            r == Flow::Continue,
    {
        Flow::Continue
    }
}

} // verus!
