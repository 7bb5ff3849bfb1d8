//! The mathematical model of literals, clauses, formulas and assignments.

use vstd::prelude::*;

verus! {

/// A literal: a nonzero signed integer. The magnitude names a variable, the
/// sign gives its polarity.
pub type Literal = i32;

/// A clause: a disjunction of literals.
pub type Clause = Vec<Literal>;

/// A literal is valid when it is nonzero and its negation is representable.
pub open spec fn valid_literal(l: i32) -> bool {
    l != 0 && l != i32::MIN
}

/// Every literal of every clause is valid.
pub open spec fn valid_formula(f: Seq<Seq<i32>>) -> bool {
    forall|i: int, j: int|
        0 <= i < f.len() && 0 <= j < f[i].len() ==> valid_literal(#[trigger] f[i][j])
}

/// Some clause of the formula has no literal: the formula is contradictory
/// as it stands.
pub open spec fn has_empty_clause(f: Seq<Seq<i32>>) -> bool {
    exists|k: int| 0 <= k < f.len() && (#[trigger] f[k]).len() == 0
}

/// The number of literal occurrences in the formula.
pub open spec fn literal_count(f: Seq<Seq<i32>>) -> nat
    decreases f.len(),
{
    if f.len() == 0 {
        0
    } else {
        literal_count(f.drop_last()) + f.last().len()
    }
}

/// The variable of the literal `v` occurs in the formula, in either
/// polarity.
pub open spec fn occurs(f: Seq<Seq<i32>>, v: i32) -> bool {
    exists|k: int, j: int|
        0 <= k < f.len() && 0 <= j < f[k].len() && (#[trigger] f[k][j] == v || f[k][j] + v == 0)
}

/// Every literal of the assignment is on a variable of the formula.
pub open spec fn within(a: Seq<i32>, f: Seq<Seq<i32>>) -> bool {
    forall|i: int| 0 <= i < a.len() ==> occurs(f, #[trigger] a[i])
}

/// No variable has both polarities in the assignment, and no entry is zero.
pub open spec fn consistent(a: Seq<i32>) -> bool {
    forall|i: int, j: int|
        #![trigger a[i], a[j]]
        0 <= i < a.len() && 0 <= j < a.len() ==> a[i] + a[j] != 0
}

/// The assignment makes some literal of the clause true.
pub open spec fn clause_satisfied(c: Seq<i32>, a: Seq<i32>) -> bool {
    exists|i: int| 0 <= i < c.len() && a.contains(#[trigger] c[i])
}

/// The assignment makes every clause of the formula true.
pub open spec fn satisfies(a: Seq<i32>, f: Seq<Seq<i32>>) -> bool {
    forall|k: int| 0 <= k < f.len() ==> clause_satisfied(#[trigger] f[k], a)
}

/// Some consistent assignment makes every clause of the formula true.
pub open spec fn satisfiable(f: Seq<Seq<i32>>) -> bool {
    exists|a: Seq<i32>| consistent(a) && #[trigger] satisfies(a, f)
}

/// An assignment that satisfies a formula still does so with more
/// literals in it.
pub proof fn lemma_satisfies_more(a: Seq<i32>, b: Seq<i32>, f: Seq<Seq<i32>>)
    requires
        satisfies(a, f),
        forall|i: int| 0 <= i < a.len() ==> b.contains(#[trigger] a[i]),
    ensures
        satisfies(b, f),
{
    assert forall|k: int| 0 <= k < f.len() implies clause_satisfied(#[trigger] f[k], b) by {
        assert(clause_satisfied(f[k], a));
        let i = choose|i: int| 0 <= i < f[k].len() && a.contains(#[trigger] f[k][i]);
        let p = choose|p: int| 0 <= p < a.len() && a[p] == f[k][i];
        assert(b.contains(a[p]));
    }
}

/// The literal count of a formula grown by one clause.
pub proof fn lemma_literal_count_push(f: Seq<Seq<i32>>, c: Seq<i32>)
    ensures
        literal_count(f.push(c)) == literal_count(f) + c.len(),
{
    assert(f.push(c).drop_last() =~= f);
}

/// The deep view of a vector of clauses holds, clause by clause, the views
/// of its elements.
pub proof fn lemma_formula_view(clauses: &Vec<Clause>)
    ensures
        clauses.deep_view().len() == clauses@.len(),
        forall|i: int|
            0 <= i < clauses@.len() ==> #[trigger] clauses.deep_view()[i] == clauses@[i]@,
{
    assert forall|i: int| 0 <= i < clauses@.len() implies #[trigger] clauses.deep_view()[i]
        == clauses@[i]@ by {
        assert(clauses@[i].deep_view() =~= clauses@[i]@);
    }
}

/// Tells whether every literal of the formula is valid.
pub fn check_formula(clauses: &Vec<Clause>) -> (ok: bool)
    ensures
        ok == valid_formula(clauses.deep_view()),
{
    let mut i: usize = 0;
    while i < clauses.len()
        invariant
            0 <= i <= clauses.len(),
            forall|a: int, b: int|
                0 <= a < i && 0 <= b < clauses@[a]@.len() ==> valid_literal(
                    #[trigger] clauses@[a]@[b],
                ),
        decreases clauses.len() - i,
    {
        let clause = &clauses[i];
        let mut j: usize = 0;
        while j < clause.len()
            invariant
                0 <= j <= clause.len(),
                i < clauses.len(),
                *clause == clauses@[i as int],
                forall|b: int| 0 <= b < j ==> valid_literal(#[trigger] clause@[b]),
            decreases clause.len() - j,
        {
            let l: i32 = clause[j];
            if l == 0 || l == i32::MIN {
                proof {
                    lemma_formula_view(clauses);
                    assert(clauses.deep_view()[i as int][j as int] == l);
                }
                return false;
            }
            j += 1;
        }
        i += 1;
    }
    proof {
        lemma_formula_view(clauses);
    }
    true
}

} // verus!
