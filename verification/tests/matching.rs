use hyprloom::matching::{assign, MatchingStrategy};
use hyprloom::restore::planning::maximum_weight_assignment;

#[test]
fn global_assignment_can_trade_a_first_choice_for_more_matches() {
    let scores = vec![vec![100, 99], vec![98, 0]];
    assert_eq!(assign(&scores, MatchingStrategy::Global), vec![Some(1), Some(0)]);
}

#[test]
fn greedy_assignment_takes_the_highest_remaining_edge() {
    let scores = vec![vec![100, 99], vec![98, 0]];
    assert_eq!(assign(&scores, MatchingStrategy::Greedy), vec![Some(0), None]);
}

#[test]
fn greedy_assignment_is_deterministic_for_equal_scores() {
    let scores = vec![vec![100, 100], vec![100, 100]];
    assert_eq!(assign(&scores, MatchingStrategy::Greedy), vec![Some(0), Some(1)]);
}

#[test]
fn assignment_ignores_zero_edges() {
    let scores = vec![vec![0, 0], vec![0, 10]];
    assert_eq!(assign(&scores, MatchingStrategy::Global), vec![None, Some(1)]);
    assert_eq!(assign(&scores, MatchingStrategy::Greedy), vec![None, Some(1)]);
}

#[test]
fn assignments_of_nothing_are_empty() {
    let none: Vec<Vec<i32>> = Vec::new();
    assert!(assign(&none, MatchingStrategy::Global).is_empty());
    assert_eq!(assign(&[vec![], vec![]], MatchingStrategy::Global), vec![None, None]);
    assert_eq!(assign(&[vec![], vec![]], MatchingStrategy::Greedy), vec![None, None]);
    assert_eq!(MatchingStrategy::default(), MatchingStrategy::Global);
}

#[test]
fn test_maximum_weight_assignment_is_global_not_greedy() {
    let scores = vec![vec![100, 99], vec![98, 0]];
    assert_eq!(maximum_weight_assignment(&scores), vec![Some(1), Some(0)]);
}

#[test]
fn every_row_gets_its_own_column() {
    let scores = vec![vec![5, 9, 1], vec![10, 3, 2], vec![8, 7, 4]];
    let plan = assign(&scores, MatchingStrategy::Global);
    let total: i32 = plan.iter().enumerate().map(|(row, column)| scores[row][column.unwrap()]).sum();
    assert_eq!(total, 23);
    assert_eq!(plan, vec![Some(1), Some(0), Some(2)]);
}

#[test]
fn more_targets_than_windows_leave_some_unmatched() {
    let scores = vec![vec![10], vec![30], vec![20]];
    assert_eq!(assign(&scores, MatchingStrategy::Global), vec![None, Some(0), None]);
    assert_eq!(assign(&scores, MatchingStrategy::Greedy), vec![None, Some(0), None]);
}
