//! What a search is, as mathematics.
//!
//! A search keeps a stack of states. The entries that have been expanded so
//! far form the *spine*: the path from the root to the cursor. Every other
//! entry is a child of the nearest spine entry below it and still waits to
//! be visited. The top of the stack is visited next, so the child that
//! `successors` produced first lies on top of its siblings.

use std::fmt::Debug;
use std::hash::Hash;
use vstd::laws_eq::obeys_concrete_eq;
use vstd::prelude::*;

verus! {

/// A state of some problem that can be searched.
///
/// `successors` and `solved` say what the two operations compute; the
/// executable `next` and `is_solved` must return exactly that, which makes
/// them pure. The two proof obligations ask that `==` and `clone` treat a
/// state as the value it is.
pub trait Solvable: Sized + Debug + PartialEq + Eq + Clone + Hash {
    /// The states one legal move away, in the order in which they are tried.
    spec fn successors(&self) -> Seq<Self>;

    /// Whether this state ends the search with success.
    spec fn solved(&self) -> bool;

    /// `==` holds of two states exactly when they are the same value.
    proof fn eq_is_exact()
        ensures
            obeys_concrete_eq::<Self>(),
    ;

    /// A clone of a state is the same value as the state.
    proof fn clone_is_exact(state: Self, copy: Self)
        requires
            cloned(state, copy),
        ensures
            state == copy,
    ;

    fn next(&self) -> (states: Vec<Self>)
        ensures
            states@ == self.successors(),
    ;

    fn is_solved(&self) -> (yes: bool)
        ensures
            yes == self.solved(),
    ;
}

/// How far a search has come.
#[derive(Clone, Copy, PartialEq, Eq, Debug, Structural)]
pub enum SearchState {
    /// Neither solved nor exhausted: the search can go on.
    InProgress,
    /// The cursor is a solved state.
    Solved,
    /// Every state that could be reached was visited, none was solved.
    NoSolution,
}

/// Whether the successor at position `i` enters the stack: it is no state of
/// `live` and was not produced at an earlier position.
pub open spec fn keeps<S>(succs: Seq<S>, live: Seq<S>, i: int) -> bool {
    !live.contains(succs[i]) && !succs.subrange(0, i).contains(succs[i])
}

/// The kept successors from position `from` on, the later ones first.
pub open spec fn pending<S>(succs: Seq<S>, live: Seq<S>, from: int) -> Seq<S>
    decreases succs.len() - from,
{
    if from < 0 || from >= succs.len() {
        Seq::empty()
    } else if keeps(succs, live, from) {
        pending(succs, live, from + 1).push(succs[from])
    } else {
        pending(succs, live, from + 1)
    }
}

/// The block that expanding a state puts on the stack: its successors that
/// are not among the `live` states, each once, the first produced on top.
pub open spec fn fresh_children<S>(succs: Seq<S>, live: Seq<S>) -> Seq<S> {
    pending(succs, live, 0)
}

/// The state of a search.
pub struct SearchModel<S> {
    /// The live states, the root at the bottom.
    pub stack: Seq<S>,
    /// The positions in `stack` of the states from the root to the cursor.
    pub spine: Seq<int>,
    /// How many times a state became the cursor.
    pub visited: nat,
    pub status: SearchState,
}

impl<S: Solvable> SearchModel<S> {
    /// The position of the cursor.
    pub open spec fn cursor(self) -> int {
        self.spine.last()
    }

    /// The states from the root to the cursor.
    pub open spec fn path(self) -> Seq<S> {
        Seq::new(self.spine.len(), |t: int| self.stack[self.spine[t]])
    }

    /// The spine starts at the root, rises, and ends inside the stack.
    pub open spec fn spine_ok(self) -> bool {
        &&& self.spine.len() >= 1
        &&& self.spine[0] == 0
        &&& forall|t: int, u: int|
            0 <= t < u < self.spine.len() ==> #[trigger] self.spine[t] < #[trigger] self.spine[u]
        &&& self.spine.last() < self.stack.len()
    }

    /// Whether the state at position `j` is a successor of the one at `i`.
    pub open spec fn child_of(self, i: int, j: int) -> bool {
        self.stack[i].successors().contains(self.stack[j])
    }

    /// Every state above a spine entry, up to the next spine entry, is a
    /// successor of it.
    pub open spec fn children_ok(self) -> bool {
        &&& forall|t: int, j: int|
            0 <= t < self.spine.len() - 1 && self.spine[t] < j <= self.spine[t + 1]
                ==> #[trigger] self.child_of(self.spine[t], j)
        &&& forall|j: int|
            self.cursor() < j < self.stack.len() ==> #[trigger] self.child_of(self.cursor(), j)
    }

    /// What holds of every search that started with `initial` and took steps.
    pub open spec fn inv(self) -> bool {
        &&& self.spine_ok()
        &&& self.stack.no_duplicates()
        &&& self.children_ok()
        &&& self.visited >= 1
        &&& self.status is Solved <==> self.stack[self.cursor()].solved()
        &&& forall|t: int|
            0 <= t < self.spine.len() - 1 ==> !self.stack[#[trigger] self.spine[t]].solved()
        &&& self.status is NoSolution ==> self.spine.len() == 1 && self.stack.len() == 1
    }

    /// One step of the search.
    ///
    /// Where the cursor has a child left, the one on top of the stack
    /// becomes the cursor, is tested, and has its new successors put on the
    /// stack. Where it has none, the cursor is dropped and its parent is the
    /// cursor again; at the root the search ends without a solution.
    pub open spec fn step(self) -> Self {
        let n = self.stack.len() as int;
        if self.cursor() + 1 < n {
            let child = self.stack[n - 1];
            SearchModel {
                stack: self.stack + fresh_children(child.successors(), self.stack),
                spine: self.spine.push(n - 1),
                visited: self.visited + 1,
                status: if child.solved() {
                    SearchState::Solved
                } else {
                    SearchState::InProgress
                },
            }
        } else if self.spine.len() > 1 {
            SearchModel { stack: self.stack.drop_last(), spine: self.spine.drop_last(), ..self }
        } else {
            SearchModel { status: SearchState::NoSolution, ..self }
        }
    }

    /// The search once its cursor was tested for the first time: a search
    /// that has counted no visit yet counts one and is solved if the
    /// cursor is; any other search is as it was.
    pub open spec fn tested(self) -> Self {
        if self.visited == 0 {
            SearchModel {
                visited: 1,
                status: if self.stack[self.cursor()].solved() {
                    SearchState::Solved
                } else {
                    SearchState::InProgress
                },
                ..self
            }
        } else {
            self
        }
    }

    /// Whether the search takes another step under the given budget.
    pub open spec fn continues(self, budget: nat) -> bool {
        self.status is InProgress && self.visited < budget
    }

    /// The search after it has taken steps until it is solved, exhausted or
    /// out of budget.
    pub open spec fn run(self, budget: nat) -> Self
        decreases budget - self.visited, self.stack.len(),
            (if self.status is InProgress { 1nat } else { 0nat }),
    {
        if self.inv() && self.continues(budget) {
            self.step().run(budget)
        } else {
            self
        }
    }
}

/// The search as it is set up, before anything was tested: the root is the
/// cursor and expanded, the search is in progress and no visit is counted.
pub open spec fn untested<S: Solvable>(root: S) -> SearchModel<S> {
    SearchModel {
        stack: seq![root] + fresh_children(root.successors(), seq![root]),
        spine: seq![0int],
        visited: 0,
        status: SearchState::InProgress,
    }
}

/// The search as it starts to run: the root is the cursor, expanded, and
/// tested, which counts as the first visit.
pub open spec fn initial<S: Solvable>(root: S) -> SearchModel<S> {
    SearchModel {
        stack: seq![root] + fresh_children(root.successors(), seq![root]),
        spine: seq![0int],
        visited: 1,
        status: if root.solved() {
            SearchState::Solved
        } else {
            SearchState::InProgress
        },
    }
}

/// The budget that a limit stands for. Without a limit the search is
/// bounded only by what a 64-bit counter of visits can hold.
pub open spec fn budget_of(limit: Option<u64>) -> nat {
    match limit {
        Some(l) => l as nat,
        None => u64::MAX as nat,
    }
}

/// What `pending` holds: only successors that are new, each once, and every
/// successor that is kept.
pub proof fn lemma_pending<S>(succs: Seq<S>, live: Seq<S>, from: int)
    requires
        0 <= from <= succs.len(),
    ensures
        forall|x: S| #[trigger]
            pending(succs, live, from).contains(x) ==> succs.contains(x) && !live.contains(x)
                && !succs.subrange(0, from).contains(x),
        pending(succs, live, from).no_duplicates(),
        forall|j: int|
            from <= j < succs.len() && keeps(succs, live, j) ==> pending(
                succs,
                live,
                from,
            ).contains(#[trigger] succs[j]),
        pending(succs, live, from).len() <= succs.len() - from,
    decreases succs.len() - from,
{
    if from < succs.len() {
        lemma_pending(succs, live, from + 1);
        let rest = pending(succs, live, from + 1);
        let here = pending(succs, live, from);
        let s = succs[from];
        assert(succs.subrange(0, from + 1)[from] == s);
        assert forall|x: S| #[trigger] here.contains(x) implies succs.contains(x) && !live.contains(
            x,
        ) && !succs.subrange(0, from).contains(x) by {
            // by cases: `x` was kept earlier, or is the successor at `from`
            if rest.contains(x) {
            }
        }
        if keeps(succs, live, from) {
            assert(!rest.contains(s));
            assert forall|j: int|
                from <= j < succs.len() && keeps(succs, live, j) implies here.contains(
                #[trigger] succs[j],
            ) by {
                if j == from {
                    assert(here[rest.len() as int] == s);
                } else {
                    let p = choose|p: int| 0 <= p < rest.len() && rest[p] == succs[j];
                    assert(here[p] == succs[j]);
                }
            }
        }
    }
}

/// A step down keeps the invariant.
proof fn lemma_descend_inv<S: Solvable>(m: SearchModel<S>)
    requires
        m.inv(),
        m.status is InProgress,
        m.cursor() + 1 < m.stack.len(),
    ensures
        m.step().inv(),
{
    let n = m.stack.len() as int;
    let k = m.spine.len() - 1;
    let next = m.step();
    let child = m.stack[n - 1];
    let block = fresh_children(child.successors(), m.stack);
    lemma_pending(child.successors(), m.stack, 0);
    assert forall|i: int, j: int| 0 <= i < j < next.stack.len() implies next.stack[i]
        != next.stack[j] by {
        if j >= n {
            assert(block.contains(block[j - n]));
        }
    }
    assert forall|t: int, j: int|
        0 <= t < next.spine.len() - 1 && next.spine[t] < j <= next.spine[t + 1]
        implies #[trigger] next.child_of(next.spine[t], j) by {
        if t < k {
            assert(m.child_of(m.spine[t], j));
        } else {
            assert(m.child_of(m.cursor(), j));
        }
    }
    assert forall|j: int| next.cursor() < j < next.stack.len() implies #[trigger] next.child_of(
        next.cursor(),
        j,
    ) by {
        assert(block.contains(block[j - n]));
    }
}

/// A step back keeps the invariant.
proof fn lemma_backtrack_inv<S: Solvable>(m: SearchModel<S>)
    requires
        m.inv(),
        m.status is InProgress,
        m.cursor() + 1 >= m.stack.len(),
        m.spine.len() > 1,
    ensures
        m.step().inv(),
{
    let k = m.spine.len() - 1;
    let next = m.step();
    assert forall|t: int, j: int|
        0 <= t < next.spine.len() - 1 && next.spine[t] < j <= next.spine[t + 1]
        implies #[trigger] next.child_of(next.spine[t], j) by {
        assert(m.child_of(m.spine[t], j));
    }
    assert forall|j: int| next.cursor() < j < next.stack.len() implies #[trigger] next.child_of(
        next.cursor(),
        j,
    ) by {
        assert(m.child_of(m.spine[k - 1], j));
    }
}

/// The first test turns the search as it was set up into the search as it
/// starts to run.
pub proof fn lemma_untested<S: Solvable>(root: S)
    ensures
        untested(root).tested() == initial(root),
        initial(root).tested() == initial(root),
{
}

/// A search starts within the invariant.
pub proof fn lemma_initial_inv<S: Solvable>(root: S)
    ensures
        initial(root).inv(),
{
    let m = initial(root);
    let live = seq![root];
    let block = fresh_children(root.successors(), live);
    lemma_pending(root.successors(), live, 0);
    assert forall|i: int, j: int| 0 <= i < j < m.stack.len() implies m.stack[i] != m.stack[j] by {
        assert(block.contains(block[j - 1]));
    }
    assert forall|j: int| m.cursor() < j < m.stack.len() implies #[trigger] m.child_of(
        m.cursor(),
        j,
    ) by {
        assert(block.contains(block[j - 1]));
    }
}

/// A step keeps the invariant and the root, and counts at most one visit.
pub proof fn lemma_step_inv<S: Solvable>(m: SearchModel<S>)
    requires
        m.inv(),
        m.status is InProgress,
    ensures
        m.step().inv(),
        m.step().stack[0] == m.stack[0],
        m.visited <= m.step().visited <= m.visited + 1,
{
    if m.cursor() + 1 < m.stack.len() {
        lemma_descend_inv(m);
    } else if m.spine.len() > 1 {
        lemma_backtrack_inv(m);
    }
}

} // verus!
