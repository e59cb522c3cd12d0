//! A small space of numbers to search: from `n` a move doubles or triples
//! it, `72` is the goal, and no move leads on from `72` or above.

use super::model::Solvable;
use vstd::prelude::*;

verus! {

/// The number to reach.
pub const GOAL: u64 = 72;

impl Solvable for u64 {
    open spec fn successors(&self) -> Seq<u64> {
        if *self < GOAL {
            seq![(*self * 2) as u64, (*self * 3) as u64]
        } else {
            Seq::empty()
        }
    }

    open spec fn solved(&self) -> bool {
        *self == GOAL
    }

    proof fn eq_is_exact() {
    }

    proof fn clone_is_exact(state: u64, copy: u64) {
    }

    fn next(&self) -> (states: Vec<u64>) {
        if *self < GOAL {
            vec![*self * 2, *self * 3]
        } else {
            Vec::new()
        }
    }

    fn is_solved(&self) -> (yes: bool) {
        *self == GOAL
    }
}

} // verus!
