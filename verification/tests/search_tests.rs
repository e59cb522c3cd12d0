use pip::search::{Outcome, SearchState, SearchTree, Solvable};

#[test]
fn dfs_num_test_1() {
    assert_eq!(Some(vec![1, 2, 4, 8, 24, 72]), SearchTree::new(1u64).dfs(),);
}

#[test]
fn dfs_num_test_2() {
    assert_eq!(Some(vec![2, 4, 8, 24, 72]), SearchTree::new(2u64).dfs(),);
}

#[test]
fn dfs_num_test_3() {
    assert_eq!(Some(vec![3, 6, 12, 24, 72]), SearchTree::new(3u64).dfs(),);
}

#[test]
fn dfs_num_test_4() {
    assert_eq!(Some(vec![4, 8, 24, 72]), SearchTree::new(4u64).dfs(),);
}

#[test]
fn dfs_num_test_5() {
    assert_eq!(None, SearchTree::new(5u64).dfs(),);
}

#[test]
fn dfs_num_test_6() {
    assert_eq!(Some(vec![6, 12, 24, 72]), SearchTree::new(6u64).dfs(),);
}

#[test]
fn dfs_num_test_7() {
    assert_eq!(None, SearchTree::new(7u64).dfs(),);
}

#[test]
fn one_state_visited() {
    let mut s = SearchTree::new(72u64);
    s.dfs();
    assert_eq!(1, s.states_visited(),);
}

#[test]
fn two_states_visited() {
    let mut s = SearchTree::new(36u64);
    s.dfs();
    assert_eq!(2, s.states_visited(),);
}

#[test]
fn ten_states_visited() {
    let mut s = SearchTree::new(3u64);
    s.dfs();
    assert_eq!(8, s.states_visited(),);
}

#[test]
fn search_state_limit_cutoff() {
    let mut s = SearchTree::new(3u64);
    s.set_depth_limit(7);
    s.dfs();
    assert_eq!(SearchState::InProgress, s.search_state(),);
}

#[test]
fn search_state_limit_not_cutoff() {
    let mut s = SearchTree::new(3u64);
    s.set_depth_limit(8);
    s.dfs();
    assert_eq!(SearchState::Solved, s.search_state(),);
}

#[test]
fn solved_root_is_its_own_path() {
    let mut s = SearchTree::new(72u64);
    assert_eq!(Some(vec![72]), s.dfs());
    assert_eq!(SearchState::Solved, s.search_state());
    assert_eq!(1, s.states_visited());
}

#[test]
fn exhausted_search_reports_no_solution() {
    let mut s = SearchTree::new(5u64);
    assert!(matches!(s.solve(), Outcome::NoSolution));
    assert_eq!(SearchState::NoSolution, s.search_state());
}

#[test]
fn budget_cutoff_is_incomplete_not_failure() {
    let mut s = SearchTree::new(3u64);
    s.set_depth_limit(7);
    assert!(matches!(s.solve(), Outcome::Incomplete));
    assert_eq!(7, s.states_visited());
}

#[test]
fn budget_reached_exactly_solves() {
    let mut s = SearchTree::new(3u64);
    s.set_depth_limit(8);
    match s.solve() {
        Outcome::Solved(path) => assert_eq!(vec![3, 6, 12, 24, 72], path),
        _ => panic!("expected a solution"),
    }
    assert_eq!(8, s.states_visited());
}

#[test]
fn larger_budget_gives_the_same_path() {
    let mut small = SearchTree::new(1u64);
    small.set_depth_limit(20);
    let found = small.dfs();
    assert_eq!(Some(vec![1, 2, 4, 8, 24, 72]), found);
    for budget in [21u64, 50, 1000, u64::MAX] {
        let mut large = SearchTree::new(1u64);
        large.set_depth_limit(budget);
        assert_eq!(found, large.dfs());
        assert_eq!(small.states_visited(), large.states_visited());
    }
}

#[test]
fn no_budget_turns_no_solution_into_solved() {
    for budget in 0u64..40 {
        let mut s = SearchTree::new(5u64);
        s.set_depth_limit(budget);
        assert_eq!(None, s.dfs());
    }
}

#[test]
fn same_start_same_end() {
    let mut a = SearchTree::new(4u64);
    let mut b = SearchTree::new(4u64);
    assert_eq!(a.dfs(), b.dfs());
    assert_eq!(a.states_visited(), b.states_visited());
    assert_eq!(a.search_state(), b.search_state());
}

#[test]
fn path_moves_by_successors() {
    for root in [1u64, 2, 3, 4, 6, 8, 9, 12, 18, 24, 36, 72] {
        let path = SearchTree::new(root).dfs().expect("a solution");
        assert_eq!(root, path[0]);
        assert!(path[path.len() - 1].is_solved());
        for pair in path.windows(2) {
            assert!(pair[0].next().contains(&pair[1]));
        }
    }
}

#[test]
fn state_already_in_tree_is_not_visited_again() {
    // Both successors of 0 are 0 itself, which is the root: nothing is new.
    let mut s = SearchTree::new(0u64);
    assert_eq!(None, s.dfs());
    assert_eq!(SearchState::NoSolution, s.search_state());
    assert_eq!(1, s.states_visited());
}

#[test]
fn zero_budget_visits_only_the_root() {
    let mut s = SearchTree::new(1u64);
    s.set_depth_limit(0);
    assert_eq!(None, s.dfs());
    assert_eq!(SearchState::InProgress, s.search_state());
    assert_eq!(1, s.states_visited());
}

#[test]
fn search_resumes_under_a_raised_budget() {
    let mut s = SearchTree::new(3u64);
    s.set_depth_limit(7);
    assert_eq!(None, s.dfs());
    s.set_depth_limit(8);
    assert_eq!(Some(vec![3, 6, 12, 24, 72]), s.dfs());
    assert_eq!(8, s.states_visited());
}

#[test]
fn finished_search_stays_finished() {
    let mut s = SearchTree::new(6u64);
    let first = s.dfs();
    let visits = s.states_visited();
    assert_eq!(first, s.dfs());
    assert_eq!(visits, s.states_visited());
}

#[test]
fn successors_come_doubled_then_tripled() {
    assert_eq!(vec![10u64, 15], 5u64.next());
    assert_eq!(vec![142u64, 213], 71u64.next());
    assert!(72u64.next().is_empty());
    assert!(100u64.next().is_empty());
    assert!(72u64.is_solved());
    assert!(!71u64.is_solved());
}

#[test]
fn without_budget_the_search_comes_to_an_end() {
    for root in 0u64..=100 {
        let mut s = SearchTree::new(root);
        let outcome = s.solve();
        assert!(!matches!(outcome, Outcome::Incomplete));
        assert_ne!(SearchState::InProgress, s.search_state());
    }
}

#[test]
fn visits_never_exceed_the_budget() {
    for budget in 1u64..30 {
        let mut s = SearchTree::new(1u64);
        s.set_depth_limit(budget);
        s.dfs();
        assert!(s.states_visited() <= budget);
    }
}

#[test]
fn new_search_is_in_progress_and_has_counted_nothing() {
    for root in [0u64, 1, 5, 71, 72, 73] {
        let s = SearchTree::new(root);
        assert_eq!(SearchState::InProgress, s.search_state());
        assert_eq!(0, s.states_visited());
    }
}

#[test]
fn solved_root_is_found_by_the_run_not_before() {
    let mut s = SearchTree::new(72u64);
    assert_eq!(SearchState::InProgress, s.search_state());
    s.set_depth_limit(0);
    assert_eq!(Some(vec![72]), s.dfs());
    assert_eq!(SearchState::Solved, s.search_state());
    assert_eq!(1, s.states_visited());
}

#[test]
fn root_is_counted_once_however_often_the_search_is_run() {
    let mut s = SearchTree::new(3u64);
    s.set_depth_limit(1);
    assert_eq!(None, s.dfs());
    assert_eq!(1, s.states_visited());
    assert_eq!(None, s.dfs());
    assert_eq!(1, s.states_visited());
}

#[test]
fn no_solution_means_no_solved_state_can_be_reached() {
    // Every number that doubling and tripling reach from the root.
    fn reach(n: u64, seen: &mut Vec<u64>) {
        if !seen.contains(&n) {
            seen.push(n);
            for m in n.next() {
                reach(m, seen);
            }
        }
    }
    for root in 1u64..=80 {
        let mut seen = Vec::new();
        reach(root, &mut seen);
        let reachable = seen.iter().any(|n| n.is_solved());
        let mut s = SearchTree::new(root);
        assert_eq!(reachable, s.dfs().is_some());
        assert_eq!(
            if reachable { SearchState::Solved } else { SearchState::NoSolution },
            s.search_state()
        );
    }
}
