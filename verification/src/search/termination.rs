//! Why a search through a space without cycles comes to an end.
//!
//! A space has no cycle and no endless path when its states can be ranked so
//! that every move leads to a lower rank. Then every state has a finite tree
//! of moves below it, and a search visits no more states than that tree has
//! nodes.

use super::laws::{law_expansion_is_fresh, lemma_run, lemma_run_resumes, solution_path};
use super::model::{
    budget_of, fresh_children, initial, lemma_initial_inv, lemma_pending, lemma_step_inv,
    pending, SearchModel, Solvable,
};
use vstd::prelude::*;

verus! {

/// Whether the states of `space` lead only to states of `space`, and every
/// move lowers the `rank`.
pub open spec fn ranked<S: Solvable>(space: Set<S>, rank: spec_fn(S) -> nat) -> bool {
    forall|s: S, i: int|
        space.contains(s) && 0 <= i < s.successors().len() ==> space.contains(
            #[trigger] s.successors()[i],
        ) && rank(s.successors()[i]) < rank(s)
}

/// The number of nodes in the tree of moves below `s`, `s` itself counted.
pub open spec fn tree_size<S: Solvable>(s: S, rank: spec_fn(S) -> nat) -> nat
    decreases rank(s), 1nat, 0nat,
{
    1 + sizes_below(s.successors(), rank(s), rank)
}

/// The sum of the tree sizes of the states of `list` that rank below
/// `bound`.
pub open spec fn sizes_below<S: Solvable>(list: Seq<S>, bound: nat, rank: spec_fn(S) -> nat) -> nat
    decreases bound, 0nat, list.len(),
{
    if list.len() == 0 {
        0
    } else {
        sizes_below(list.drop_last(), bound, rank) + if rank(list.last()) < bound {
            tree_size(list.last(), rank)
        } else {
            0
        }
    }
}

/// The sum of the tree sizes of the states of `list`.
pub open spec fn total<S: Solvable>(list: Seq<S>, rank: spec_fn(S) -> nat) -> nat
    decreases list.len(),
{
    if list.len() == 0 {
        0
    } else {
        total(list.drop_last(), rank) + tree_size(list.last(), rank)
    }
}

/// The sum of the tree sizes of the states that wait on the stack below
/// `end`: those that are not on the spine.
pub open spec fn waiting<S: Solvable>(
    stack: Seq<S>,
    spine: Seq<int>,
    end: int,
    rank: spec_fn(S) -> nat,
) -> nat
    decreases spine.len(),
{
    if spine.len() == 0 {
        0
    } else {
        waiting(stack, spine.drop_last(), spine.last(), rank) + total(
            stack.subrange(spine.last() + 1, end),
            rank,
        )
    }
}

/// The visits made and the visits that may still come.
pub open spec fn load<S: Solvable>(m: SearchModel<S>, rank: spec_fn(S) -> nat) -> nat {
    m.visited + waiting(m.stack, m.spine, m.stack.len() as int, rank)
}

/// Whether every state on the stack is one of `space`.
pub open spec fn within<S: Solvable>(stack: Seq<S>, space: Set<S>) -> bool {
    forall|j: int| 0 <= j < stack.len() ==> space.contains(#[trigger] stack[j])
}

proof fn lemma_total_front<S: Solvable>(list: Seq<S>, rank: spec_fn(S) -> nat)
    requires
        list.len() > 0,
    ensures
        total(list, rank) == tree_size(list[0], rank) + total(list.drop_first(), rank),
    decreases list.len(),
{
    if list.len() == 1 {
        assert(list.drop_last() =~= Seq::<S>::empty());
        assert(list.drop_first() =~= Seq::<S>::empty());
    } else {
        lemma_total_front(list.drop_last(), rank);
        assert(list.drop_last().drop_first() =~= list.drop_first().drop_last());
    }
}

/// Where all of `list` ranks below `bound`, nothing is left out of the sum.
proof fn lemma_sizes_below<S: Solvable>(list: Seq<S>, bound: nat, rank: spec_fn(S) -> nat)
    requires
        forall|i: int| 0 <= i < list.len() ==> rank(#[trigger] list[i]) < bound,
    ensures
        sizes_below(list, bound, rank) == total(list, rank),
    decreases list.len(),
{
    if list.len() > 0 {
        lemma_sizes_below(list.drop_last(), bound, rank);
    }
}

/// The kept successors weigh no more than all successors.
proof fn lemma_pending_total<S: Solvable>(
    succs: Seq<S>,
    live: Seq<S>,
    from: int,
    rank: spec_fn(S) -> nat,
)
    requires
        0 <= from <= succs.len(),
    ensures
        total(pending(succs, live, from), rank) <= total(
            succs.subrange(from, succs.len() as int),
            rank,
        ),
    decreases succs.len() - from,
{
    let tail = succs.subrange(from, succs.len() as int);
    if from < succs.len() {
        lemma_pending_total(succs, live, from + 1, rank);
        lemma_total_front(tail, rank);
        assert(tail.drop_first() =~= succs.subrange(from + 1, succs.len() as int));
        let rest = pending(succs, live, from + 1);
        assert(rest.push(succs[from]).drop_last() =~= rest);
    }
}

/// What waits below `end` hangs only on the stack below `end`.
proof fn lemma_waiting_prefix<S: Solvable>(
    stack: Seq<S>,
    longer: Seq<S>,
    spine: Seq<int>,
    end: int,
    rank: spec_fn(S) -> nat,
)
    requires
        end <= stack.len() <= longer.len(),
        forall|j: int| 0 <= j < stack.len() ==> longer[j] == stack[j],
        forall|t: int| 0 <= t < spine.len() ==> 0 <= #[trigger] spine[t] < end,
        forall|t: int, u: int|
            0 <= t < u < spine.len() ==> #[trigger] spine[t] < #[trigger] spine[u],
    ensures
        waiting(longer, spine, end, rank) == waiting(stack, spine, end, rank),
    decreases spine.len(),
{
    if spine.len() > 0 {
        let shorter = spine.drop_last();
        lemma_waiting_prefix(stack, longer, shorter, spine.last(), rank);
        assert(longer.subrange(spine.last() + 1, end) =~= stack.subrange(spine.last() + 1, end));
    }
}

/// The tree below a state of a ranked space is the state and the trees
/// below its successors.
proof fn lemma_tree_size<S: Solvable>(s: S, space: Set<S>, rank: spec_fn(S) -> nat)
    requires
        ranked(space, rank),
        space.contains(s),
    ensures
        tree_size(s, rank) == 1 + total(s.successors(), rank),
{
    lemma_sizes_below(s.successors(), rank(s), rank);
}

/// A step does not raise the load, and stays within the space.
proof fn lemma_step_load<S: Solvable>(m: SearchModel<S>, space: Set<S>, rank: spec_fn(S) -> nat)
    requires
        m.inv(),
        m.status is InProgress,
        ranked(space, rank),
        within(m.stack, space),
    ensures
        load(m.step(), rank) <= load(m, rank),
        within(m.step().stack, space),
{
    let n = m.stack.len() as int;
    let c = m.cursor();
    let next = m.step();
    if c + 1 < n {
        let child = m.stack[n - 1];
        let succs = child.successors();
        let block = fresh_children(succs, m.stack);
        lemma_pending(succs, m.stack, 0);
        lemma_pending_total(succs, m.stack, 0, rank);
        assert(succs.subrange(0, succs.len() as int) =~= succs);
        lemma_tree_size(child, space, rank);
        assert forall|j: int| 0 <= j < next.stack.len() implies space.contains(
            #[trigger] next.stack[j],
        ) by {
            if j >= n {
                assert(block.contains(block[j - n]));
            }
        }
        // what waited before: the blocks below the cursor, and the cursor's children
        assert(m.stack.subrange(c + 1, n).drop_last() =~= m.stack.subrange(c + 1, n - 1));
        // what waits now
        assert(next.spine.drop_last() =~= m.spine);
        assert(next.stack.subrange(n, next.stack.len() as int) =~= block);
        lemma_waiting_prefix(m.stack, next.stack, m.spine, n - 1, rank);
    } else if m.spine.len() > 1 {
        let shorter = m.spine.drop_last();
        lemma_waiting_prefix(next.stack, m.stack, shorter, n - 1, rank);
    }
}

/// A search whose load is below the budget runs until it is solved or
/// exhausted.
proof fn lemma_run_ends<S: Solvable>(
    m: SearchModel<S>,
    budget: nat,
    space: Set<S>,
    rank: spec_fn(S) -> nat,
)
    requires
        m.inv(),
        ranked(space, rank),
        within(m.stack, space),
        load(m, rank) < budget,
    ensures
        !(m.run(budget).status is InProgress),
    decreases budget - m.visited, m.stack.len(),
        (if m.status is InProgress {
            1nat
        } else {
            0nat
        }),
{
    if m.continues(budget) {
        lemma_step_inv(m);
        lemma_step_load(m, space, rank);
        lemma_run_ends(m.step(), budget, space, rank);
    }
}

/// Exhaustiveness: in a space whose states can be ranked so that every move
/// lowers the rank, which is to say a space without cycles and without
/// endless paths, a search ends solved or without solution under every
/// budget above the size of the tree of moves below the root. It never
/// stays in progress for want of an end.
pub proof fn law_exhaustive<S: Solvable>(root: S, space: Set<S>, rank: spec_fn(S) -> nat)
    requires
        ranked(space, rank),
        space.contains(root),
    ensures
        forall|budget: nat|
            budget > tree_size(root, rank) ==> !(#[trigger] initial(root).run(budget).status
                is InProgress),
{
    let m = initial(root);
    let succs = root.successors();
    let live = seq![root];
    let block = fresh_children(succs, live);
    lemma_initial_inv(root);
    lemma_pending(succs, live, 0);
    lemma_pending_total(succs, live, 0, rank);
    assert(succs.subrange(0, succs.len() as int) =~= succs);
    lemma_tree_size(root, space, rank);
    assert forall|j: int| 0 <= j < m.stack.len() implies space.contains(#[trigger] m.stack[j]) by {
        if j >= 1 {
            assert(block.contains(block[j - 1]));
        }
    }
    assert(m.spine.drop_last() =~= Seq::<int>::empty());
    assert(m.stack.subrange(1, m.stack.len() as int) =~= block);
    assert(waiting(m.stack, Seq::<int>::empty(), 0, rank) == 0);
    assert forall|budget: nat| budget > tree_size(root, rank) implies !(#[trigger] m.run(
        budget,
    ).status is InProgress) by {
        lemma_run_ends(m, budget, space, rank);
    }
}

/// Exhaustiveness without a budget: in a space without cycles and without
/// endless paths, a search that has no limit ends solved or without
/// solution, never in progress. The engine counts its visits in 64 bits, so
/// this is said of the spaces whose tree of moves below the root has fewer
/// nodes than that counter can hold.
pub proof fn law_exhaustive_without_limit<S: Solvable>(
    root: S,
    space: Set<S>,
    rank: spec_fn(S) -> nat,
)
    requires
        ranked(space, rank),
        space.contains(root),
        tree_size(root, rank) < u64::MAX,
    ensures
        !(initial(root).run(budget_of(None)).status is InProgress),
        initial(root).run(budget_of(None)) == initial(root).run(tree_size(root, rank) + 1),
{
    let enough = tree_size(root, rank) + 1;
    law_exhaustive(root, space, rank);
    lemma_run_resumes(initial(root), enough, budget_of(None));
}

/// Whether the state at place `j` of the stack waits to be visited: it is
/// not on the spine.
pub open spec fn waits_at<S: Solvable>(m: SearchModel<S>, j: int) -> bool {
    0 <= j < m.stack.len() && !m.spine.contains(j)
}

/// Whether the state `x` waits on the stack.
pub open spec fn waits<S: Solvable>(m: SearchModel<S>, x: S) -> bool {
    exists|j: int| #[trigger] waits_at(m, j) && m.stack[j] == x
}

/// Whether the walk `path` comes by a state that waits on the stack.
pub open spec fn meets<S: Solvable>(m: SearchModel<S>, path: Seq<S>) -> bool {
    exists|i: int| 0 <= i < path.len() && waits(m, #[trigger] path[i])
}

/// Whether every walk of legal moves from the root to a solved state comes
/// by a state that still waits on the stack: no solved state was passed
/// over.
pub open spec fn guarded<S: Solvable>(m: SearchModel<S>) -> bool {
    forall|path: Seq<S>| #[trigger] solution_path(m.stack[0], path) ==> meets(m, path)
}

/// The states on the spine rank no lower than the cursor.
proof fn lemma_spine_ranks<S: Solvable>(
    m: SearchModel<S>,
    space: Set<S>,
    rank: spec_fn(S) -> nat,
    t: int,
)
    requires
        m.inv(),
        ranked(space, rank),
        within(m.stack, space),
        0 <= t < m.spine.len(),
    ensures
        0 <= m.spine[t] < m.stack.len(),
        rank(m.stack[m.spine[t]]) >= rank(m.stack[m.cursor()]),
    decreases m.spine.len() - t,
{
    let k = m.spine.len() - 1;
    if t < k {
        lemma_spine_ranks(m, space, rank, t + 1);
        assert(m.child_of(m.spine[t], m.spine[t + 1]));
    }
}

/// After a step down, every successor of the new cursor waits on the
/// stack: as one of its new children, or where it waited before.
proof fn lemma_onward_waits<S: Solvable>(
    m: SearchModel<S>,
    space: Set<S>,
    rank: spec_fn(S) -> nat,
    onward: S,
)
    requires
        m.inv(),
        m.status is InProgress,
        m.cursor() + 1 < m.stack.len(),
        ranked(space, rank),
        within(m.stack, space),
        m.stack.last().successors().contains(onward),
    ensures
        waits(m.step(), onward),
{
    let n = m.stack.len() as int;
    let c = m.cursor();
    let next = m.step();
    let child = m.stack[n - 1];
    let succs = child.successors();
    law_expansion_is_fresh(child, m.stack);
    if m.stack.contains(onward) {
        let at = choose|at: int| 0 <= at < n && m.stack[at] == onward;
        if m.spine.contains(at) {
            let t = choose|t: int| 0 <= t < m.spine.len() && m.spine[t] == at;
            lemma_spine_ranks(m, space, rank, t);
            assert(m.child_of(c, n - 1));
        }
        assert(waits_at(next, at));
    } else {
        let block = fresh_children(succs, m.stack);
        assert(block.contains(onward));
        let b = choose|b: int| 0 <= b < block.len() && block[b] == onward;
        assert(waits_at(next, n + b));
    }
}

/// A step leaves waiting what waited, but for the state that it visits.
proof fn lemma_still_waits<S: Solvable>(m: SearchModel<S>, j: int)
    requires
        m.inv(),
        m.status is InProgress,
        waits_at(m, j),
        m.cursor() + 1 < m.stack.len() ==> j != m.stack.len() - 1,
    ensures
        waits_at(m.step(), j),
        m.step().stack[j] == m.stack[j],
{
}

/// A step that does not solve the search passes over no solved state.
proof fn lemma_step_guarded<S: Solvable>(m: SearchModel<S>, space: Set<S>, rank: spec_fn(S) -> nat)
    requires
        m.inv(),
        m.status is InProgress,
        ranked(space, rank),
        within(m.stack, space),
        guarded(m),
    ensures
        m.step().status is Solved || guarded(m.step()),
{
    let n = m.stack.len() as int;
    let next = m.step();
    if !(next.status is Solved) {
        assert forall|path: Seq<S>| #[trigger] solution_path(next.stack[0], path) implies meets(
            next,
            path,
        ) by {
            let i = choose|i: int| 0 <= i < path.len() && waits(m, #[trigger] path[i]);
            let j = choose|j: int| #[trigger] waits_at(m, j) && m.stack[j] == path[i];
            if m.cursor() + 1 < n && j == n - 1 {
                // the walk comes by the new cursor, which is not solved, and moves on
                lemma_onward_waits(m, space, rank, path[i + 1]);
            } else {
                lemma_still_waits(m, j);
            }
        }
    }
}

/// A run that does not end solved has passed over no solved state.
proof fn lemma_run_guarded<S: Solvable>(
    m: SearchModel<S>,
    budget: nat,
    space: Set<S>,
    rank: spec_fn(S) -> nat,
)
    requires
        m.inv(),
        ranked(space, rank),
        within(m.stack, space),
        m.status is Solved || guarded(m),
    ensures
        m.run(budget).status is Solved || guarded(m.run(budget)),
    decreases budget - m.visited, m.stack.len(),
        (if m.status is InProgress {
            1nat
        } else {
            0nat
        }),
{
    if m.continues(budget) {
        lemma_step_inv(m);
        lemma_step_load(m, space, rank);
        lemma_step_guarded(m, space, rank);
        lemma_run_guarded(m.step(), budget, space, rank);
    }
}

/// `NoSolution` is definitive: in a space without cycles and without
/// endless paths, a search that ends without solution, under whatever
/// budget, has left no solved state unvisited. No walk of legal moves from
/// the root ends in a solved state.
pub proof fn law_no_solution_is_definitive<S: Solvable>(
    root: S,
    space: Set<S>,
    rank: spec_fn(S) -> nat,
    budget: nat,
)
    requires
        ranked(space, rank),
        space.contains(root),
        initial(root).run(budget).status is NoSolution,
    ensures
        forall|path: Seq<S>| !solution_path(root, path),
{
    let m = initial(root);
    let succs = root.successors();
    let live = seq![root];
    let block = fresh_children(succs, live);
    lemma_pending(succs, live, 0);
    law_expansion_is_fresh(root, live);
    assert forall|j: int| 0 <= j < m.stack.len() implies space.contains(#[trigger] m.stack[j]) by {
        if j >= 1 {
            assert(block.contains(block[j - 1]));
        }
    }
    if !root.solved() {
        assert forall|path: Seq<S>| #[trigger] solution_path(m.stack[0], path) implies meets(
            m,
            path,
        ) by {
            let onward = path[1];
            let b = choose|b: int| 0 <= b < block.len() && block[b] == onward;
            assert(waits_at(m, 1 + b));
        }
    }
    lemma_run_guarded(m, budget, space, rank);
    lemma_run(m, budget);
}

} // verus!
