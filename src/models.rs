//! A stored puzzle, as its fields are kept.

use vstd::prelude::*;

verus! {

#[derive(Clone, Copy, Debug, Hash, PartialEq, Eq, Structural)]
pub struct ProblemId(pub i32);

/// A puzzle: its presentation, the equation that defines its function, and
/// the points that queries and guesses cost or earn.
#[derive(Clone, Debug, PartialEq, Eq)]
pub struct Problem {
    pub id: ProblemId,
    pub name: String,
    pub description: String,
    pub difficulty: String,
    pub formula: String,
    pub domain: String,
    pub score_query: i32,
    pub score_guess_correct: i32,
    pub score_guess_incorrect: i32,
    pub score_submit_incorrect: i32,
}

} // verus!
