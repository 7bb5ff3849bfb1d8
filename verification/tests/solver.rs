use dpll_sat::{dpll, inner_dpll};

fn holds(assignment: &[i32], clauses: &[Vec<i32>]) -> bool {
    clauses.iter().all(|clause| clause.iter().any(|l| assignment.contains(l)))
}

fn consistent(assignment: &[i32]) -> bool {
    assignment.iter().all(|l| *l != 0 && !assignment.contains(&-l))
}

#[test]
fn test_simple() {
    let clauses = vec![vec![-1, -2], vec![-3, 2, 1]];
    let solution = dpll(clauses);
    assert_eq!(solution, Some(vec![-1, -3]));

    let clauses = vec![vec![1, -5, 4], vec![-1, 5, 3, 4], vec![-3, -4]];
    let solution = dpll(clauses);
    assert_eq!(solution, Some(vec![1, 5, -3]));

    let clauses = vec![vec![1], vec![-2], vec![3]];
    let solution = dpll(clauses);
    assert_eq!(solution, Some(vec![1, -2, 3]));
}

#[test]
fn empty_formula_has_the_empty_assignment() {
    assert_eq!(dpll(vec![]), Some(vec![]));
}

#[test]
fn opposite_unit_clauses_have_no_assignment() {
    assert_eq!(dpll(vec![vec![1], vec![-1]]), None);
}

#[test]
fn an_empty_clause_has_no_assignment() {
    assert_eq!(dpll(vec![vec![]]), None);
    assert_eq!(dpll(vec![vec![1, 2], vec![]]), None);
}

#[test]
fn two_clause_scenario_is_satisfied() {
    let clauses = vec![vec![-1, -2], vec![-3, 2, 1]];
    let solution = dpll(clauses.clone()).expect("satisfiable");
    assert!(holds(&solution, &clauses));
    assert!(consistent(&solution));
    assert!(solution.contains(&-1));
    assert!(solution.contains(&-3));
}

#[test]
fn unit_then_choice_scenario_is_satisfied() {
    let clauses = vec![vec![1], vec![-5, 4, 1], vec![-3, -4]];
    let solution = dpll(clauses.clone()).expect("satisfiable");
    assert!(holds(&solution, &clauses));
    assert!(consistent(&solution));
    assert_eq!(solution, vec![1, -3]);
}

#[test]
fn all_unit_formula_needs_no_branching() {
    let mut solution = dpll(vec![vec![1], vec![-2], vec![3]]).expect("satisfiable");
    solution.sort();
    assert_eq!(solution, vec![-2, 1, 3]);
}

#[test]
fn propagation_cascades_before_branching() {
    let clauses = vec![vec![1], vec![-1, 2], vec![-2, 3], vec![-3, 4, 5]];
    assert_eq!(dpll(clauses), Some(vec![1, 2, 3, 4]));
}

#[test]
fn cascade_into_conflict_has_no_assignment() {
    let clauses = vec![vec![1], vec![-1, 2], vec![-2, 3], vec![-3, -1]];
    assert_eq!(dpll(clauses), None);
}

#[test]
fn failed_branch_leaves_no_literal_behind() {
    let clauses = vec![
        vec![1, 4],
        vec![-1, 2, 3],
        vec![-1, 2, -3],
        vec![-1, -2, 3],
        vec![-1, -2, -3],
    ];
    let solution = dpll(clauses.clone());
    assert_eq!(solution, Some(vec![-1, 4]));
    let solution = solution.unwrap();
    assert!(holds(&solution, &clauses));
    assert!(consistent(&solution));
}

#[test]
fn negative_branch_is_taken_after_the_positive_fails() {
    let clauses = vec![vec![1, 2], vec![-1, 2], vec![-1, -2]];
    assert_eq!(dpll(clauses), Some(vec![-1, 2]));
}

#[test]
fn all_branches_failing_has_no_assignment() {
    let clauses = vec![vec![1, 2], vec![1, -2], vec![-1, 2], vec![-1, -2]];
    assert_eq!(dpll(clauses), None);
}

#[test]
fn repeated_unit_clause_is_recorded_each_time() {
    assert_eq!(dpll(vec![vec![1], vec![1]]), Some(vec![1, 1]));
}

#[test]
fn clause_with_both_polarities_is_satisfied() {
    let clauses = vec![vec![1, -1], vec![-1, 2, 3]];
    let solution = dpll(clauses.clone()).expect("satisfiable");
    assert!(holds(&solution, &clauses));
    assert!(consistent(&solution));
}

#[test]
fn assignment_holds_only_variables_of_the_formula() {
    let clauses = vec![vec![7, -9], vec![9, 11], vec![-7, -11]];
    let solution = dpll(clauses.clone()).expect("satisfiable");
    for l in &solution {
        assert!(clauses.iter().any(|c| c.contains(l) || c.contains(&-l)));
    }
}

#[test]
fn inner_dpll_succeeds_on_the_empty_formula() {
    let mut solution = vec![5];
    let mut clauses: Vec<Vec<i32>> = vec![];
    assert!(inner_dpll(&mut solution, &mut clauses));
    assert_eq!(solution, vec![5]);
    assert!(clauses.is_empty());
}

#[test]
fn inner_dpll_appends_its_decisions() {
    let mut solution = vec![9];
    let mut clauses = vec![vec![1, 2], vec![-1, 3]];
    assert!(inner_dpll(&mut solution, &mut clauses));
    assert_eq!(solution, vec![9, 1, 3]);
    assert!(clauses.is_empty());
}

#[test]
fn inner_dpll_restores_the_solution_on_failure() {
    let mut solution = vec![9, 8];
    let mut clauses = vec![vec![1, 2], vec![1, -2], vec![-1, 2], vec![-1, -2]];
    assert!(!inner_dpll(&mut solution, &mut clauses));
    assert_eq!(solution, vec![9, 8]);
    assert!(clauses.contains(&vec![]));
}

#[test]
fn inner_dpll_fails_at_once_on_an_empty_clause() {
    let mut solution = vec![];
    let mut clauses = vec![vec![1], vec![]];
    assert!(!inner_dpll(&mut solution, &mut clauses));
    assert!(solution.is_empty());
    assert_eq!(clauses, vec![vec![1], vec![]]);
}

fn next(state: &mut u64) -> u64 {
    *state = state.wrapping_mul(6364136223846793005).wrapping_add(1442695040888963407);
    *state >> 33
}

fn brute_force(clauses: &[Vec<i32>], variables: i32) -> bool {
    let mut bits: u32 = 0;
    while bits < (1u32 << variables) {
        let assignment: Vec<i32> = (1..=variables)
            .map(|v| if bits & (1 << (v - 1)) != 0 { v } else { -v })
            .collect();
        if holds(&assignment, clauses) {
            return true;
        }
        bits += 1;
    }
    false
}

#[test]
fn agrees_with_exhaustive_search_on_small_formulas() {
    let mut state: u64 = 12345;
    let mut satisfiable = 0;
    let mut unsatisfiable = 0;
    for _ in 0..3000 {
        let variables = 1 + (next(&mut state) % 5) as i32;
        let n_clauses = next(&mut state) % 12;
        let mut clauses: Vec<Vec<i32>> = Vec::new();
        for _ in 0..n_clauses {
            let width = 1 + next(&mut state) % 3;
            let mut clause = Vec::new();
            for _ in 0..width {
                let v = 1 + (next(&mut state) % variables as u64) as i32;
                clause.push(if next(&mut state) % 2 == 0 { v } else { -v });
            }
            clauses.push(clause);
        }
        let expected = brute_force(&clauses, variables);
        match dpll(clauses.clone()) {
            Some(solution) => {
                assert!(expected, "{:?}", clauses);
                assert!(holds(&solution, &clauses), "{:?}", clauses);
                assert!(consistent(&solution), "{:?}", clauses);
                satisfiable += 1;
            }
            None => {
                assert!(!expected, "{:?}", clauses);
                unsatisfiable += 1;
            }
        }
    }
    assert!(satisfiable > 100);
    assert!(unsatisfiable > 100);
}
