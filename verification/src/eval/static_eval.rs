//! An evaluation that gives every position the same score.
use vstd::prelude::*;

use crate::{Board, Eval, FenV};

verus! {

/// Scores every position with one fixed value.
pub struct StaticEval {
    value: i32,
}

impl StaticEval {
    /// An evaluation that scores every position `value`.
    pub fn new(value: i32) -> (e: Self)
        ensures
            e.fixed() == value,
    {
        StaticEval { value }
    }

    /// The fixed score.
    pub closed spec fn fixed(&self) -> i32 {
        self.value
    }
}

impl Default for StaticEval {
    fn default() -> (e: Self)
        ensures
            e.fixed() == 0,
    {
        StaticEval { value: 0 }
    }
}

impl Eval for StaticEval {
    open spec fn score(&self, position: FenV) -> i32 {
        self.fixed()
    }

    fn evaluate<B: Board>(&self, _board: &B) -> (r: i32) {
        self.value
    }
}

} // verus!
