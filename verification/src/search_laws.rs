//! Soundness, consistency and completeness of the search and of the
//! solver.

use crate::formula::{
    clause_satisfied, consistent, has_empty_clause, lemma_satisfies_more, literal_count, occurs,
    satisfiable, satisfies, valid_formula, valid_literal, within,
};
use crate::propagation_laws::{
    lemma_propagated_complete, lemma_propagated_sound, lemma_propagated_valid,
};
use crate::propagator::{forced_literals, propagated};
use crate::reducer::reduced;
use crate::reduction_laws::{
    lemma_reduced_complete, lemma_reduced_occurs, lemma_reduced_sound, lemma_reduced_valid,
};
use crate::solver::{lemma_branch_shrinks, negated, search, solved};
use vstd::prelude::*;

verus! {

/// A formula on which the search succeeds has no empty clause.
pub proof fn lemma_search_some(f: Seq<Seq<i32>>)
    requires
        valid_formula(f),
        search(f).is_some(),
    ensures
        !has_empty_clause(f),
{
}

/// Deciding a literal on a variable of the formula, then propagating: an
/// assignment for what is left, with the decided and the forced literals
/// in front, is an assignment for the formula.
pub proof fn lemma_branch_sound(f: Seq<Seq<i32>>, decided: i32, rest: Seq<i32>)
    requires
        valid_formula(f),
        valid_literal(decided),
        occurs(f, decided),
        !has_empty_clause(propagated(reduced(f, decided))),
        satisfies(rest, propagated(reduced(f, decided))),
        consistent(rest),
        within(rest, propagated(reduced(f, decided))),
    ensures
        satisfies(seq![decided] + forced_literals(reduced(f, decided)) + rest, f),
        consistent(seq![decided] + forced_literals(reduced(f, decided)) + rest),
        within(seq![decided] + forced_literals(reduced(f, decided)) + rest, f),
{
    let branch = reduced(f, decided);
    let tail = forced_literals(branch) + rest;
    let all = seq![decided] + forced_literals(branch) + rest;
    lemma_reduced_valid(f, decided);
    lemma_propagated_sound(branch, rest);
    assert(all =~= seq![decided] + tail);
    assert(all[0] == decided);
    assert forall|i: int| 0 <= i < tail.len() implies all.contains(#[trigger] tail[i]) by {
        assert(all[i + 1] == tail[i]);
    }
    lemma_satisfies_more(tail, all, branch);
    lemma_reduced_sound(f, decided, all);
    assert forall|i: int| 0 <= i < tail.len() implies occurs(f, #[trigger] tail[i]) && tail[i]
        != decided && tail[i] + decided != 0 by {
        assert(occurs(branch, tail[i]));
        lemma_reduced_occurs(f, decided, tail[i]);
    }
    assert forall|i: int| 0 <= i < all.len() implies occurs(f, #[trigger] all[i]) by {
        if i > 0 {
            assert(all[i] == tail[i - 1]);
        }
    }
    assert forall|i: int, j: int|
        #![trigger all[i], all[j]]
        0 <= i < all.len() && 0 <= j < all.len() implies all[i] + all[j] != 0 by {
        if i > 0 && j > 0 {
            assert(tail[i - 1] + tail[j - 1] != 0);
        } else if i > 0 {
            assert(tail[i - 1] + decided != 0);
        } else if j > 0 {
            assert(tail[j - 1] + decided != 0);
        }
    }
}

/// What the search returns satisfies the formula, is consistent, and is
/// on variables of the formula.
pub proof fn lemma_search_sound(f: Seq<Seq<i32>>)
    requires
        valid_formula(f),
        search(f).is_some(),
    ensures
        satisfies(search(f).unwrap(), f),
        consistent(search(f).unwrap()),
        within(search(f).unwrap(), f),
    decreases literal_count(f),
{
    if f.len() > 0 {
        let l = f[0][0];
        let positive = reduced(f, l);
        let negative = reduced(f, negated(l));
        lemma_branch_shrinks(f);
        assert(valid_literal(f[0][0]));
        assert(f[0][0] == l || f[0][0] + l == 0);
        assert(f[0][0] == negated(l) || f[0][0] + negated(l) == 0);
        if search(propagated(positive)).is_some() {
            lemma_search_sound(propagated(positive));
            lemma_search_some(propagated(positive));
            lemma_branch_sound(f, l, search(propagated(positive)).unwrap());
        } else {
            lemma_search_sound(propagated(negative));
            lemma_search_some(propagated(negative));
            lemma_branch_sound(f, negated(l), search(propagated(negative)).unwrap());
        }
    }
}

/// The search succeeds on every formula that a consistent assignment
/// satisfies.
pub proof fn lemma_search_complete(f: Seq<Seq<i32>>, a: Seq<i32>)
    requires
        valid_formula(f),
        consistent(a),
        satisfies(a, f),
    ensures
        search(f).is_some(),
    decreases literal_count(f),
{
    if f.len() > 0 {
        if has_empty_clause(f) {
            let k = choose|k: int| 0 <= k < f.len() && (#[trigger] f[k]).len() == 0;
            assert(clause_satisfied(f[k], a));
        } else {
            let l = f[0][0];
            lemma_branch_shrinks(f);
            assert(valid_literal(f[0][0]));
            if a.contains(l) {
                let positive = reduced(f, l);
                lemma_reduced_complete(f, l, a);
                lemma_propagated_complete(positive, a);
                lemma_search_complete(propagated(positive), a);
            } else {
                let negative = reduced(f, negated(l));
                let b = a.push(negated(l));
                assert forall|i: int, j: int|
                    #![trigger b[i], b[j]]
                    0 <= i < b.len() && 0 <= j < b.len() implies b[i] + b[j] != 0 by {
                    if i < a.len() && j < a.len() {
                        assert(a[i] + a[j] != 0);
                    } else if i < a.len() {
                        assert(a[i] != l);
                    } else if j < a.len() {
                        assert(a[j] != l);
                    }
                }
                assert forall|i: int| 0 <= i < a.len() implies b.contains(#[trigger] a[i]) by {
                    assert(b[i] == a[i]);
                }
                lemma_satisfies_more(a, b, f);
                assert(b[a.len() as int] == negated(l));
                lemma_reduced_complete(f, negated(l), b);
                lemma_propagated_complete(negative, b);
                lemma_search_complete(propagated(negative), b);
            }
        }
    }
}

/// Soundness: the assignment that the solver returns makes every clause
/// of the formula true.
pub proof fn lemma_solved_sound(f: Seq<Seq<i32>>)
    requires
        valid_formula(f),
        solved(f).is_some(),
    ensures
        satisfies(solved(f).unwrap(), f),
{
    lemma_solved_assignment(f);
}

/// Consistency: in the assignment that the solver returns no variable
/// has both polarities.
pub proof fn lemma_solved_consistent(f: Seq<Seq<i32>>)
    requires
        valid_formula(f),
        solved(f).is_some(),
    ensures
        consistent(solved(f).unwrap()),
{
    lemma_solved_assignment(f);
}

/// The assignment that the solver returns satisfies the formula, is
/// consistent, and is on variables of the formula.
pub proof fn lemma_solved_assignment(f: Seq<Seq<i32>>)
    requires
        valid_formula(f),
        solved(f).is_some(),
    ensures
        satisfies(solved(f).unwrap(), f),
        consistent(solved(f).unwrap()),
        within(solved(f).unwrap(), f),
{
    lemma_propagated_valid(f);
    lemma_search_sound(propagated(f));
    lemma_search_some(propagated(f));
    lemma_propagated_sound(f, search(propagated(f)).unwrap());
}

/// Completeness: the solver fails exactly on the formulas that no
/// consistent assignment satisfies.
pub proof fn lemma_solved_complete(f: Seq<Seq<i32>>)
    requires
        valid_formula(f),
    ensures
        solved(f).is_none() <==> !satisfiable(f),
{
    lemma_propagated_valid(f);
    if solved(f).is_some() {
        lemma_solved_assignment(f);
        assert(satisfies(solved(f).unwrap(), f));
    }
    if satisfiable(f) {
        let a = choose|a: Seq<i32>| consistent(a) && #[trigger] satisfies(a, f);
        lemma_propagated_complete(f, a);
        lemma_search_complete(propagated(f), a);
    }
}

/// The empty formula is solved by the empty assignment.
pub proof fn lemma_solved_empty(f: Seq<Seq<i32>>)
    requires
        f.len() == 0,
    ensures
        solved(f) == Some(Seq::<i32>::empty()),
{
    assert(valid_formula(f));
    assert(forced_literals(f) =~= Seq::<i32>::empty());
    assert(Seq::<i32>::empty() + Seq::<i32>::empty() =~= Seq::<i32>::empty());
}

/// Where propagation ends with an empty clause, the solver fails.
pub proof fn lemma_solved_conflict(f: Seq<Seq<i32>>)
    requires
        valid_formula(f),
        has_empty_clause(propagated(f)),
    ensures
        solved(f).is_none(),
{
    lemma_propagated_valid(f);
}

} // verus!
