use dpll_sat::{clause_contains, negate_literal, reduce_clauses, remove_literal};

#[test]
fn test_remove_literal() {
    let mut clause = vec![3, 1, 2, 3];
    remove_literal(3, &mut clause);
    assert_eq!(clause, vec![1, 2]);
}

#[test]
fn test_reduce_clauses() {
    let empty_vec: &[Vec<i32>] = &[];

    let mut clauses_0 = vec![vec![1], vec![1, 2, 3]];
    let mut clauses_1 = vec![vec![1], vec![2, 3]];
    let mut clauses_2 = vec![vec![1], vec![1, 2]];
    let mut clauses_3 = vec![vec![-2], vec![1, 2, 3]];
    let mut clauses_4 = vec![vec![-2, -1], vec![1, 2, -3]];
    let mut clauses_5 = vec![vec![-2, -1], vec![1, 2, -3]];
    let mut clauses_6 = vec![vec![-2, -1], vec![1, 2, -3]];

    reduce_clauses(1, &mut clauses_0);
    reduce_clauses(1, &mut clauses_1);
    reduce_clauses(2, &mut clauses_2);
    reduce_clauses(2, &mut clauses_3);
    reduce_clauses(2, &mut clauses_4);
    reduce_clauses(1, &mut clauses_5);
    reduce_clauses(-3, &mut clauses_6);

    assert_eq!(clauses_0, empty_vec);
    assert_eq!(clauses_1, &[vec![2, 3]]);
    assert_eq!(clauses_2, &[vec![1]]);
    assert_eq!(clauses_3, &[vec![]]);
    assert_eq!(clauses_4, &[vec![-1]]);
    assert_eq!(clauses_5, &[vec![-2]]);
    assert_eq!(clauses_6, &[vec![-2, -1]]);
}

#[test]
fn negate_literal_flips_the_sign() {
    assert_eq!(negate_literal(5), -5);
    assert_eq!(negate_literal(-7), 7);
    assert_eq!(negate_literal(i32::MAX), -i32::MAX);
}

#[test]
fn clause_contains_finds_a_literal() {
    assert!(clause_contains(&vec![4, -2, 9], -2));
    assert!(!clause_contains(&vec![4, -2, 9], 2));
    assert!(!clause_contains(&vec![], 1));
}

#[test]
fn remove_literal_keeps_the_order_of_the_rest() {
    let mut clause = vec![5, -1, 5, 2, 5, 5, -3];
    remove_literal(5, &mut clause);
    assert_eq!(clause, vec![-1, 2, -3]);
}

#[test]
fn remove_literal_leaves_the_opposite_literal() {
    let mut clause = vec![2, -2, 2];
    remove_literal(2, &mut clause);
    assert_eq!(clause, vec![-2]);
}

#[test]
fn remove_literal_of_an_absent_literal_changes_nothing() {
    let mut clause = vec![1, 2, 3];
    remove_literal(4, &mut clause);
    assert_eq!(clause, vec![1, 2, 3]);
    let mut empty: Vec<i32> = vec![];
    remove_literal(4, &mut empty);
    assert!(empty.is_empty());
}

#[test]
fn remove_literal_can_empty_a_clause() {
    let mut clause = vec![6, 6];
    remove_literal(6, &mut clause);
    assert!(clause.is_empty());
}

#[test]
fn reduce_clauses_keeps_the_order_of_the_clauses() {
    let mut clauses = vec![vec![2, 3], vec![1, 5], vec![-1, 4], vec![6, -1, 7, -1], vec![8]];
    reduce_clauses(1, &mut clauses);
    assert_eq!(clauses, vec![vec![2, 3], vec![4], vec![6, 7], vec![8]]);
}

#[test]
fn reduce_clauses_keeps_an_empty_clause() {
    let mut clauses = vec![vec![], vec![3]];
    reduce_clauses(3, &mut clauses);
    assert_eq!(clauses, vec![Vec::<i32>::new()]);
}

#[test]
fn reduce_clauses_drops_a_clause_with_both_polarities() {
    let mut clauses = vec![vec![-4, 4], vec![-4]];
    reduce_clauses(4, &mut clauses);
    assert_eq!(clauses, vec![Vec::<i32>::new()]);
}

#[test]
fn reduce_clauses_by_the_least_integer_only_drops_clauses() {
    let mut clauses = vec![vec![i32::MIN, 1], vec![2, i32::MAX], vec![i32::MIN]];
    reduce_clauses(i32::MIN, &mut clauses);
    assert_eq!(clauses, vec![vec![2, i32::MAX]]);
}
