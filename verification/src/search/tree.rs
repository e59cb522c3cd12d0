//! The search engine: a depth-first walk that keeps only the branch under
//! exploration.
//!
//! The live states sit in a vector; the graph holds one node per state, whose
//! weight is the state's place in that vector, and one edge from each state
//! to each child that was discovered from it.

use super::graph::{
    graph_add_edge, graph_add_node, graph_first_neighbor, graph_new, graph_node_weight,
    graph_nodes, graph_remove_last, EdgeSide,
};
use super::layout::{
    descending, lemma_descend, lemma_link, lemma_parent, lemma_retreat, mirrors,
};
use super::laws::{lemma_path, lemma_run, solution_path};
use super::model::{
    budget_of, fresh_children, initial, keeps, lemma_initial_inv, lemma_step_inv, pending,
    untested, SearchModel, SearchState, Solvable,
};
use petgraph::graph::Graph;
use petgraph::Directed;
use vstd::laws_eq::obeys_concrete_eq;
use vstd::prelude::*;

verus! {

/// How a search ended.
#[derive(Clone, PartialEq, Eq, Debug)]
pub enum Outcome<S> {
    /// A solved state was reached; the path leads to it from the root.
    Solved(Vec<S>),
    /// Every state that could be reached was visited, none was solved.
    NoSolution,
    /// The budget was spent first: nothing is known.
    Incomplete,
}

/// A search from one root state.
pub struct SearchTree<S: Solvable> {
    states: Vec<S>,
    search_graph: Graph<usize, (), Directed, usize>,
    spine: Ghost<Seq<int>>,
    root_node: usize,
    current_node: usize,
    state_limit: Option<u64>,
    states_visited: u64,
    search_state: SearchState,
}

impl<S: Solvable> View for SearchTree<S> {
    type V = SearchModel<S>;

    closed spec fn view(&self) -> SearchModel<S> {
        SearchModel {
            stack: self.states@,
            spine: self.spine@,
            visited: self.states_visited as nat,
            status: self.search_state,
        }
    }
}

/// Whether `x` is among the first `upto` entries of `v`.
fn occurs<S: Solvable>(v: &Vec<S>, upto: usize, x: &S) -> (found: bool)
    requires
        upto <= v.len(),
    ensures
        found == v@.subrange(0, upto as int).contains(*x),
{
    let mut i: usize = 0;
    while i < upto
        invariant
            i <= upto <= v.len(),
            forall|j: int| 0 <= j < i ==> v@[j] != *x,
        decreases upto - i,
    {
        proof {
            S::eq_is_exact();
            reveal(obeys_concrete_eq);
        }
        if v[i] == *x {
            assert(v@.subrange(0, upto as int)[i as int] == *x);
            return true;
        }
        i += 1;
    }
    false
}

impl<S: Solvable> SearchTree<S> {
    /// The visit budget, if one was set.
    pub closed spec fn limit(&self) -> Option<u64> {
        self.state_limit
    }

    /// The graph mirrors the stack, and the two node fields name the root
    /// and the cursor.
    spec fn shape(&self) -> bool {
        &&& mirrors(graph_nodes(self.search_graph), self.states@.len() as int, self.spine@)
        &&& self.root_node == 0
        &&& self.current_node == self.spine@.last()
    }

    /// The tree is one that `new` made and the methods of this type changed.
    /// Until the root was tested it is in progress with no visit counted;
    /// from then on it is within the invariant of the model.
    pub closed spec fn wf(&self) -> bool {
        &&& self.shape()
        &&& self@.tested().inv()
        &&& self@.visited == 0 ==> self@.status is InProgress
    }

    /// Sets up a search at `s`: the root is the cursor and expanded. It is
    /// not tested yet: the search is in progress and no visit is counted,
    /// whatever `s` is. No budget is set.
    pub fn new(s: S) -> (tree: Self)
        ensures
            tree.wf(),
            tree@ == untested(s),
            tree@.tested() == initial(s),
            tree.limit() is None,
    {
        let mut search_graph = graph_new();
        let mut states: Vec<S> = Vec::new();
        states.push(s);
        let root_node = graph_add_node(&mut search_graph, 0);
        let spine: Ghost<Seq<int>> = Ghost(Seq::empty().push(0int));
        let mut search_tree = SearchTree {
            states,
            search_graph,
            spine,
            root_node,
            current_node: root_node,
            state_limit: None,
            states_visited: 0,
            search_state: SearchState::InProgress,
        };
        proof {
            assert(descending(0, 0) =~= Seq::<usize>::empty());
        }
        search_tree.add_next(root_node);
        proof {
            lemma_initial_inv(s);
        }
        search_tree
    }

    /// Sets the budget: the search stops once `limit` visits are counted.
    pub fn set_depth_limit(&mut self, limit: u64)
        ensures
            final(self).limit() == Some(limit),
            final(self)@ == old(self)@,
            final(self).wf() == old(self).wf(),
    {
        self.state_limit = Some(limit)
    }

    /// How many times a state became the cursor.
    pub fn states_visited(&self) -> (count: u64)
        ensures
            count == self@.visited,
    {
        self.states_visited
    }

    /// Where the search stands.
    pub fn search_state(&self) -> (status: SearchState)
        ensures
            status == self@.status,
    {
        self.search_state
    }

    /// A well-formed tree is within the invariant of the model once its
    /// root was tested.
    pub proof fn lemma_wf(&self)
        requires
            self.wf(),
        ensures
            self@.tested().inv(),
            self@.visited == 0 ==> self@.status is InProgress,
    {
    }

    /// Runs the search as `dfs` does and says how it ended.
    pub fn solve(&mut self) -> (outcome: Outcome<S>)
        requires
            old(self).wf(),
        ensures
            final(self).wf(),
            final(self).limit() == old(self).limit(),
            final(self)@ == old(self)@.tested().run(budget_of(old(self).limit())),
            match outcome {
                Outcome::Solved(states) => final(self)@.status is Solved
                    && states@ == final(self)@.path()
                    && solution_path(old(self)@.stack[0], states@),
                Outcome::NoSolution => final(self)@.status is NoSolution,
                Outcome::Incomplete => final(self)@.status is InProgress && final(self)@.visited
                    >= budget_of(old(self).limit()),
            },
    {
        proof {
            lemma_run(self@.tested(), budget_of(self.state_limit));
        }
        match self.dfs() {
            Some(states) => Outcome::Solved(states),
            None => match self.search_state {
                SearchState::NoSolution => Outcome::NoSolution,
                _ => Outcome::Incomplete,
            },
        }
    }

    /// Runs the search until it is solved, exhausted or out of budget, and
    /// returns the path from the root to the solved state if there is one.
    ///
    /// A search that has counted no visit yet first tests its root, which
    /// counts as a visit whatever the budget is. A search that was run
    /// before goes on from where it stopped.
    ///
    /// Without a budget the search also stops, unsolved and in progress,
    /// should the count of visits reach `u64::MAX`.
    pub fn dfs(&mut self) -> (path: Option<Vec<S>>)
        requires
            old(self).wf(),
        ensures
            final(self).wf(),
            final(self).limit() == old(self).limit(),
            final(self)@ == old(self)@.tested().run(budget_of(old(self).limit())),
            match path {
                Some(states) => final(self)@.status is Solved && states@ == final(self)@.path()
                    && solution_path(old(self)@.stack[0], states@),
                None => !(final(self)@.status is Solved),
            },
    {
        proof {
            lemma_run(self@.tested(), budget_of(self.state_limit));
            lemma_path(self@.tested().run(budget_of(self.state_limit)));
        }
        if self.states_visited == 0 {
            self.search_state = self.check_solution();
        }
        let ghost start = self@;
        let ghost budget = budget_of(self.state_limit);
        while self.continue_search()
            invariant
                self.wf(),
                self@.visited >= 1,
                self.state_limit == old(self).state_limit,
                budget == budget_of(self.state_limit),
                self@.run(budget) == start.run(budget),
            decreases
                    budget - self@.visited,
                    self@.stack.len(),
                    (if self@.status is InProgress {
                        1nat
                    } else {
                        0nat
                    }),
        {
            self.step();
        }
        if self.search_state == SearchState::Solved {
            Some(self.search_path())
        } else {
            None
        }
    }

    /// Whether the search is still open and the budget allows another visit.
    fn continue_search(&self) -> (go: bool)
        ensures
            go == self@.continues(budget_of(self.limit())),
    {
        self.search_state == SearchState::InProgress && match self.state_limit {
            Some(l) => l > self.states_visited,
            None => self.states_visited < u64::MAX,
        }
    }

    /// One step: down to the cursor's first child if it has one, else back
    /// to its parent, dropping the cursor; at the root the search is over.
    fn step(&mut self)
        requires
            old(self).wf(),
            old(self)@.status is InProgress,
            1 <= old(self)@.visited < u64::MAX,
        ensures
            final(self).wf(),
            final(self)@ == old(self)@.step(),
            final(self)@.visited >= 1,
            final(self).state_limit == old(self).state_limit,
    {
        proof {
            lemma_step_inv(self@);
        }
        match self.next_child() {
            Some(n) => {
                proof {
                    lemma_descend(
                        graph_nodes(self.search_graph),
                        self.states@.len() as int,
                        self.spine@,
                    );
                }
                self.spine = Ghost(self.spine@.push(n as int));
                self.assign_current(n);
                self.add_next(n);
                self.search_state = self.check_solution();
            },
            None => {
                let old_node_ref = self.current_node;
                match self.parent() {
                    Some(n) => {
                        self.assign_current(n);
                        self.remove(old_node_ref);
                    },
                    None => {
                        self.search_state = SearchState::NoSolution;
                    },
                }
            },
        }
    }

    /// Counts a visit and tests the cursor.
    fn check_solution(&mut self) -> (status: SearchState)
        requires
            old(self).shape(),
            old(self).states_visited < u64::MAX,
        ensures
            final(self).states_visited == old(self).states_visited + 1,
            status == if old(self).states@[old(self).current_node as int].solved() {
                SearchState::Solved
            } else {
                SearchState::InProgress
            },
            final(self).states == old(self).states,
            final(self).search_graph == old(self).search_graph,
            final(self).spine == old(self).spine,
            final(self).root_node == old(self).root_node,
            final(self).current_node == old(self).current_node,
            final(self).state_limit == old(self).state_limit,
            final(self).search_state == old(self).search_state,
    {
        self.states_visited += 1;
        let slot = graph_node_weight(&self.search_graph, self.current_node);
        if self.states[slot.unwrap()].is_solved() {
            SearchState::Solved
        } else {
            SearchState::InProgress
        }
    }

    /// The cursor's first child: the one on top of the stack.
    fn next_child(&self) -> (child: Option<usize>)
        requires
            self.shape(),
        ensures
            child == if self@.cursor() + 1 < self@.stack.len() {
                Some((self@.stack.len() - 1) as usize)
            } else {
                None
            },
    {
        graph_first_neighbor(&self.search_graph, self.current_node, EdgeSide::Outgoing)
    }

    /// The cursor's parent: the spine entry before it.
    fn parent(&self) -> (parent: Option<usize>)
        requires
            self.shape(),
        ensures
            parent == if self@.spine.len() > 1 {
                Some(self@.spine[self@.spine.len() - 2] as usize)
            } else {
                None
            },
            self@.spine.len() > 1 ==> 0 <= self@.spine[self@.spine.len() - 2] < self@.cursor(),
    {
        proof {
            lemma_parent(graph_nodes(self.search_graph), self.states@.len() as int, self.spine@);
        }
        graph_first_neighbor(&self.search_graph, self.current_node, EdgeSide::Incoming)
    }

    fn assign_current(&mut self, node: usize)
        ensures
            final(self).current_node == node,
            final(self).states == old(self).states,
            final(self).search_graph == old(self).search_graph,
            final(self).spine == old(self).spine,
            final(self).root_node == old(self).root_node,
            final(self).state_limit == old(self).state_limit,
            final(self).states_visited == old(self).states_visited,
            final(self).search_state == old(self).search_state,
    {
        self.current_node = node;
    }

    /// Drops the top of the stack, which the cursor has just left, and its
    /// node.
    fn remove(&mut self, node: usize)
        requires
            mirrors(
                graph_nodes(old(self).search_graph),
                old(self).states@.len() as int,
                old(self).spine@,
            ),
            node == old(self).spine@.last(),
            node + 1 == old(self).states@.len(),
            old(self).spine@.len() > 1,
        ensures
            mirrors(
                graph_nodes(final(self).search_graph),
                final(self).states@.len() as int,
                final(self).spine@,
            ),
            final(self).states@ == old(self).states@.drop_last(),
            final(self).spine@ == old(self).spine@.drop_last(),
            final(self).root_node == old(self).root_node,
            final(self).current_node == old(self).current_node,
            final(self).state_limit == old(self).state_limit,
            final(self).states_visited == old(self).states_visited,
            final(self).search_state == old(self).search_state,
    {
        proof {
            lemma_retreat(
                graph_nodes(self.search_graph),
                self.states@.len() as int,
                self.spine@,
            );
        }
        graph_remove_last(&mut self.search_graph, node);
        self.states.pop();
        self.spine = Ghost(self.spine@.drop_last());
    }

    /// The path of a solved search: the states from the root to the cursor,
    /// found by walking the graph from the root along each node's first
    /// child. To ask for the path of a search that is not solved is an
    /// error of the caller.
    fn search_path(&self) -> (states: Vec<S>)
        requires
            self.shape(),
            self@.status is Solved,
        ensures
            states@ == self@.path(),
    {
        let mut states: Vec<S> = Vec::new();
        let mut n = self.root_node;
        let ghost mut t: int = 0;
        let ghost nodes = graph_nodes(self.search_graph);
        let ghost spine = self.spine@;
        loop
            invariant_except_break
                self.shape(),
                nodes == graph_nodes(self.search_graph),
                spine == self.spine@,
                0 <= t < spine.len(),
                n == spine[t],
                states@ == self@.path().subrange(0, t),
            ensures
                states@ == self@.path(),
            decreases spine.len() - t,
        {
            let slot = graph_node_weight(&self.search_graph, n);
            let state = self.states[slot.unwrap()].clone();
            proof {
                S::clone_is_exact(self.states@[n as int], state);
            }
            states.push(state);
            if n == self.current_node {
                break ;
            }
            let next = graph_first_neighbor(&self.search_graph, n, EdgeSide::Outgoing);
            n = next.unwrap();
            proof {
                t = t + 1;
            }
        }
        states
    }

    /// Puts the successors of the cursor that are not yet in the tree on top
    /// of the stack, and links each to the cursor.
    fn add_next(&mut self, node: usize)
        requires
            old(self).shape(),
            node == old(self).current_node,
            node + 1 == old(self).states@.len(),
        ensures
            final(self).shape(),
            final(self).states@ == old(self).states@ + fresh_children(
                old(self).states@[node as int].successors(),
                old(self).states@,
            ),
            final(self).spine@ == old(self).spine@,
            final(self).state_limit == old(self).state_limit,
            final(self).states_visited == old(self).states_visited,
            final(self).search_state == old(self).search_state,
    {
        let slot = graph_node_weight(&self.search_graph, node);
        let mut succs = self.states[slot.unwrap()].next();
        let live = self.states.len();
        let ghost all = succs@;
        let ghost before = self.states@;
        while succs.len() > 0
            invariant
                self.shape(),
                node == self.current_node,
                live == before.len(),
                node + 1 == live,
                succs@ == all.subrange(0, succs@.len() as int),
                succs@.len() <= all.len(),
                self.states@ == before + pending(all, before, succs@.len() as int),
                self.spine@ == old(self).spine@,
                self.state_limit == old(self).state_limit,
                self.states_visited == old(self).states_visited,
                self.search_state == old(self).search_state,
            decreases succs.len(),
        {
            let s = succs.pop().unwrap();
            let ghost i = succs@.len() as int;
            assert(self.states@.subrange(0, live as int) =~= before);
            assert(succs@.subrange(0, i) =~= all.subrange(0, i));
            let known = occurs(&self.states, live, &s) || occurs(&succs, succs.len(), &s);
            if !known {
                let ghost nodes0 = graph_nodes(self.search_graph);
                let ghost n = self.states@.len() as int;
                let place = self.states.len();
                self.states.push(s);
                let child = graph_add_node(&mut self.search_graph, place);
                graph_add_edge(&mut self.search_graph, node, child);
                proof {
                    assert(self.states.len() == n + 1);
                    lemma_link(nodes0, n, self.spine@);
                }
            }
        }
    }
}

} // verus!
