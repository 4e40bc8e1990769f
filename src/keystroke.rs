//! One recorded keystroke.
use vstd::prelude::*;

verus! {

/// Whether a keystroke matched the prompt character it was judged against.
#[derive(Clone, Copy, Debug, PartialEq, Eq, Structural)]
pub enum Outcome {
    Correct,
    Incorrect,
}

/// A keystroke: the character typed, its outcome, and when it was typed
/// (milliseconds since the Unix epoch).
#[derive(Clone, Copy, Debug, PartialEq, Eq, Structural)]
pub struct Input {
    pub char: char,
    pub outcome: Outcome,
    pub timestamp: u64,
}

} // verus!
