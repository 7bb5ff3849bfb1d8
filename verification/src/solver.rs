//! The search: branching on a literal, with backtracking, and the entry
//! point `dpll`.

use crate::formula::{
    consistent, has_empty_clause, literal_count, satisfiable, satisfies, valid_formula, within,
    Clause, Literal,
};
use crate::propagation_laws::lemma_propagated_valid;
use crate::propagator::{contains_empty_clause, forced_literals, propagate, propagated};
use crate::reducer::{negate_literal, reduce_clauses, reduced};
use crate::reduction_laws::{lemma_reduced_count_strict, lemma_reduced_valid};
use crate::search_laws::{lemma_solved_assignment, lemma_solved_complete, lemma_solved_empty};
use vstd::prelude::*;

verus! {

/// The negation of a valid literal.
pub open spec fn negated(l: i32) -> i32 {
    (-l) as i32
}

/// The result of the search on a valid formula: the literals it decides,
/// in the order of decision, or `None` when every branch ends in an empty
/// clause.
///
/// The empty formula needs no decision; a formula with an empty clause
/// has no solution. Otherwise the search branches on the first literal of
/// the first clause: it reduces by that literal, propagates and searches
/// what is left; where that fails, it does the same with the negation of
/// the literal.
pub open spec fn search(f: Seq<Seq<i32>>) -> Option<Seq<i32>>
    decreases literal_count(f),
    when valid_formula(f)
{
    if f.len() == 0 {
        Some(Seq::empty())
    } else if has_empty_clause(f) {
        None
    } else {
        let l = f[0][0];
        let positive = reduced(f, l);
        let negative = reduced(f, negated(l));
        proof {
            lemma_branch_shrinks(f);
        }
        match search(propagated(positive)) {
            Some(rest) => Some(seq![l] + forced_literals(positive) + rest),
            None => match search(propagated(negative)) {
                Some(rest) => Some(seq![negated(l)] + forced_literals(negative) + rest),
                None => None,
            },
        }
    }
}

/// The working formula that a failed search leaves behind: the formula
/// reached along the negative branches, down to the one that has an
/// empty clause.
pub open spec fn exhausted(f: Seq<Seq<i32>>) -> Seq<Seq<i32>>
    decreases literal_count(f),
    when valid_formula(f)
{
    if f.len() == 0 || has_empty_clause(f) {
        f
    } else {
        proof {
            lemma_branch_shrinks(f);
        }
        exhausted(propagated(reduced(f, negated(f[0][0]))))
    }
}

/// The result of the solver on a valid formula: unit propagation, then
/// the search on what it leaves.
pub open spec fn solved(f: Seq<Seq<i32>>) -> Option<Seq<i32>> {
    match search(propagated(f)) {
        Some(rest) => Some(forced_literals(f) + rest),
        None => None,
    }
}

/// Both branches of the search work on a valid formula with fewer literal
/// occurrences.
pub proof fn lemma_branch_shrinks(f: Seq<Seq<i32>>)
    requires
        valid_formula(f),
        f.len() > 0,
        !has_empty_clause(f),
    ensures
        valid_formula(propagated(reduced(f, f[0][0]))),
        valid_formula(propagated(reduced(f, negated(f[0][0])))),
        literal_count(propagated(reduced(f, f[0][0]))) < literal_count(f),
        literal_count(propagated(reduced(f, negated(f[0][0])))) < literal_count(f),
{
    let l = f[0][0];
    lemma_reduced_count_strict(f, l, 0, 0);
    lemma_reduced_count_strict(f, negated(l), 0, 0);
    lemma_reduced_valid(f, l);
    lemma_reduced_valid(f, negated(l));
    lemma_propagated_valid(reduced(f, l));
    lemma_propagated_valid(reduced(f, negated(l)));
}

/// Searches for an assignment that satisfies the working formula.
///
/// On success the decided literals stand at the end of `solution` and the
/// working formula is empty. On failure `solution` is as it was.
pub fn inner_dpll(solution: &mut Clause, clauses: &mut Vec<Clause>) -> (sat: bool)
    requires
        valid_formula(old(clauses).deep_view()),
    ensures
        sat == search(old(clauses).deep_view()).is_some(),
        sat ==> final(solution)@ == old(solution)@ + search(old(clauses).deep_view()).unwrap(),
        sat ==> final(clauses)@.len() == 0,
        !sat ==> final(solution)@ == old(solution)@,
        !sat ==> final(clauses).deep_view() == exhausted(old(clauses).deep_view()),
    decreases literal_count(old(clauses).deep_view()),
{
    let ghost f = clauses.deep_view();
    let ghost trail = solution@;
    if clauses.is_empty() {
        proof {
            assert(trail + Seq::<i32>::empty() =~= trail);
        }
        return true;
    }
    if contains_empty_clause(clauses) {
        return false;
    }
    let lit: Literal = clauses[0][0];
    let mark: usize = solution.len();
    proof {
        lemma_branch_shrinks(f);
    }

    solution.push(lit);
    let mut try_clauses = clauses.clone();
    reduce_clauses(lit, &mut try_clauses);
    propagate(solution, &mut try_clauses);
    if inner_dpll(solution, &mut try_clauses) {
        *clauses = try_clauses;
        return true;
    }
    solution.truncate(mark);

    let not_lit = negate_literal(lit);
    solution.push(not_lit);
    reduce_clauses(not_lit, clauses);
    propagate(solution, clauses);
    if inner_dpll(solution, clauses) {
        return true;
    }
    solution.truncate(mark);
    false
}

/// Decides whether the formula is satisfiable and, if it is, returns the
/// literals of one satisfying assignment.
///
/// The formula is satisfiable exactly when the result is `Some`. The
/// assignment returned makes every clause true, holds no variable in both
/// polarities, and holds only variables of the formula. Which assignment
/// it is, is fixed by `solved`: unit propagation first, then branching on
/// the first literal of the first clause that is left.
pub fn dpll(clauses: Vec<Clause>) -> (result: Option<Clause>)
    requires
        valid_formula(clauses.deep_view()),
    ensures
        match result {
            Some(assignment) => {
                &&& solved(clauses.deep_view()) == Some(assignment@)
                &&& satisfies(assignment@, clauses.deep_view())
                &&& consistent(assignment@)
                &&& within(assignment@, clauses.deep_view())
            },
            None => solved(clauses.deep_view()).is_none(),
        },
        result.is_none() <==> !satisfiable(clauses.deep_view()),
        clauses@.len() == 0 ==> result.is_some() && result.unwrap()@.len() == 0,
        has_empty_clause(propagated(clauses.deep_view())) ==> result.is_none(),
{
    let ghost f = clauses.deep_view();
    proof {
        lemma_propagated_valid(f);
        lemma_solved_complete(f);
        if solved(f).is_some() {
            lemma_solved_assignment(f);
        }
    }
    if clauses.is_empty() {
        proof {
            lemma_solved_empty(f);
        }
        return Some(Vec::new());
    }
    let mut clauses = clauses;
    let mut solution: Clause = Vec::new();
    propagate(&mut solution, &mut clauses);
    if inner_dpll(&mut solution, &mut clauses) {
        Some(solution)
    } else {
        None
    }
}

} // verus!
