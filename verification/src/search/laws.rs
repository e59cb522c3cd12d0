//! What holds of every search, proved over the model.

use super::model::{
    fresh_children, initial, lemma_initial_inv, lemma_pending, lemma_step_inv, SearchModel,
    Solvable,
};
use vstd::prelude::*;

verus! {

/// Whether `path` leads from `root` to a solved state by legal moves.
pub open spec fn solution_path<S: Solvable>(root: S, path: Seq<S>) -> bool {
    &&& path.len() >= 1
    &&& path[0] == root
    &&& path.last().solved()
    &&& forall|t: int|
        0 <= t < path.len() - 1 ==> (#[trigger] path[t]).successors().contains(path[t + 1])
}

/// A run keeps the invariant and the root, never counts down, and ends
/// either out of the `InProgress` state or with the budget spent.
pub proof fn lemma_run<S: Solvable>(m: SearchModel<S>, budget: nat)
    requires
        m.inv(),
    ensures
        m.run(budget).inv(),
        m.run(budget).stack[0] == m.stack[0],
        m.run(budget).visited >= m.visited,
        m.visited <= budget ==> m.run(budget).visited <= budget,
        !m.run(budget).continues(budget),
    decreases budget - m.visited, m.stack.len(),
        (if m.status is InProgress {
            1nat
        } else {
            0nat
        }),
{
    if m.continues(budget) {
        lemma_step_inv(m);
        lemma_run(m.step(), budget);
    }
}

/// The path of a search within the invariant leads from the root to the
/// cursor by legal moves, and the cursor is solved exactly when the status
/// says so.
pub proof fn lemma_path<S: Solvable>(m: SearchModel<S>)
    requires
        m.inv(),
    ensures
        m.path().len() >= 1,
        m.path()[0] == m.stack[0],
        m.path().last().solved() <==> m.status is Solved,
        forall|t: int|
            0 <= t < m.path().len() - 1 ==> (#[trigger] m.path()[t]).successors().contains(
                m.path()[t + 1],
            ),
{
    assert forall|t: int| 0 <= t < m.path().len() - 1 implies (#[trigger] m.path()[t]).successors().contains(
         m.path()[t + 1],
    ) by {
        assert(m.child_of(m.spine[t], m.spine[t + 1]));
    }
}

/// Determinism: where a search ends is a function of its root and its
/// budget. Two searches that start alike end alike, in status, in path and
/// in the count of visits.
pub proof fn law_same_start_same_end<S: Solvable>(
    first: SearchModel<S>,
    second: SearchModel<S>,
    root: S,
    budget: nat,
)
    requires
        first == initial(root),
        second == initial(root),
    ensures
        first.run(budget) == second.run(budget),
        first.run(budget).status == second.run(budget).status,
        first.run(budget).path() == second.run(budget).path(),
{
}

/// Path validity: a search that ends solved has a path that starts at the
/// root, ends in a solved state, and moves from each state to one of its
/// successors.
pub proof fn law_path_valid<S: Solvable>(root: S, budget: nat)
    requires
        initial(root).run(budget).status is Solved,
    ensures
        solution_path(root, initial(root).run(budget).path()),
{
    lemma_initial_inv(root);
    lemma_run(initial(root), budget);
    lemma_path(initial(root).run(budget));
}

/// A search that ends in progress has spent its budget: it is cut off only
/// by the count of its visits.
pub proof fn law_incomplete_only_when_spent<S: Solvable>(root: S, budget: nat)
    requires
        initial(root).run(budget).status is InProgress,
    ensures
        initial(root).run(budget).visited >= budget,
{
    lemma_initial_inv(root);
    lemma_run(initial(root), budget);
}

/// Running on under a larger budget from where a smaller one ended is the
/// same as running under the larger budget from the start.
pub proof fn lemma_run_resumes<S: Solvable>(m: SearchModel<S>, small: nat, large: nat)
    requires
        small <= large,
    ensures
        m.run(large) == m.run(small).run(large),
    decreases small - m.visited, m.stack.len(),
        (if m.status is InProgress {
            1nat
        } else {
            0nat
        }),
{
    if m.inv() && m.continues(small) {
        lemma_step_inv(m);
        lemma_run_resumes(m.step(), small, large);
    }
}

/// Budget monotonicity: a search that is solved under one budget is solved
/// under every larger one, in the same state and so with the same path. The
/// same holds of a search that ends without solution: more budget changes
/// nothing once a search has ended. So a search that finds no solution
/// under a budget is solved under no smaller one.
pub proof fn law_budget_monotone<S: Solvable>(root: S, small: nat, large: nat)
    requires
        small <= large,
    ensures
        !(initial(root).run(small).status is InProgress) ==> initial(root).run(large) == initial(
            root,
        ).run(small),
        initial(root).run(large).status is NoSolution ==> !(initial(root).run(small).status
            is Solved),
{
    lemma_run_resumes(initial(root), small, large);
}

/// Dedup: no state is on the stack twice, so no state that is in the tree
/// is visited a second time while it is there.
pub proof fn law_no_state_twice<S: Solvable>(root: S, budget: nat)
    ensures
        initial(root).run(budget).stack.no_duplicates(),
{
    lemma_initial_inv(root);
    lemma_run(initial(root), budget);
}

/// Dedup: a state is visited, which is to say tested and expanded, only
/// when the cursor moves down to it, and it was no cursor since it came on
/// the stack. A step back to a state counts no visit and tests nothing: the
/// status stays as it was.
pub proof fn law_visit_only_on_descent<S: Solvable>(m: SearchModel<S>)
    requires
        m.inv(),
        m.status is InProgress,
    ensures
        m.cursor() + 1 < m.stack.len() ==> m.step().visited == m.visited + 1
            && m.step().cursor() == m.stack.len() - 1 && !m.spine.contains(m.stack.len() - 1),
        m.cursor() + 1 >= m.stack.len() ==> m.step().visited == m.visited && !(m.step().status
            is Solved),
{
    if m.spine.contains(m.stack.len() - 1) {
        let t = choose|t: int| 0 <= t < m.spine.len() && m.spine[t] == m.stack.len() - 1;
        if t < m.spine.len() - 1 {
            assert(m.spine[t] < m.spine[m.spine.len() - 1]);
        }
    }
}

/// Dedup: what a visit puts on the stack are successors of the visited
/// state that are not on the stack already, each once, and all of those.
pub proof fn law_expansion_is_fresh<S: Solvable>(state: S, live: Seq<S>)
    ensures
        forall|x: S| #[trigger]
            fresh_children(state.successors(), live).contains(x) <==> state.successors().contains(
                x,
            ) && !live.contains(x),
        fresh_children(state.successors(), live).no_duplicates(),
{
    let succs = state.successors();
    lemma_pending(succs, live, 0);
    assert forall|x: S| succs.contains(x) && !live.contains(x) implies #[trigger] fresh_children(
        succs,
        live,
    ).contains(x) by {
        lemma_first_at(succs, x, 0);
    }
}

/// The first position from `from` on at which `list` holds `x`.
spec fn first_at<S>(list: Seq<S>, x: S, from: int) -> int
    decreases list.len() - from,
{
    if from < 0 || from >= list.len() || list[from] == x {
        from
    } else {
        first_at(list, x, from + 1)
    }
}

proof fn lemma_first_at<S>(list: Seq<S>, x: S, from: int)
    requires
        0 <= from <= list.len(),
        exists|i: int| from <= i < list.len() && list[i] == x,
    ensures
        from <= first_at(list, x, from) < list.len(),
        list[first_at(list, x, from)] == x,
        forall|i: int| from <= i < first_at(list, x, from) ==> list[i] != x,
    decreases list.len() - from,
{
    if from < list.len() && list[from] != x {
        lemma_first_at(list, x, from + 1);
    }
}

} // verus!
