//! The reducer: applying one decided literal to a formula.

use crate::formula::{lemma_formula_view, Clause, Literal};
use vstd::prelude::*;

verus! {

/// The predicate "differs from `l`" on literals.
pub open spec fn differs_from(l: int) -> spec_fn(i32) -> bool {
    |x: i32| x != l
}

/// The predicate "does not contain `l`" on clauses.
pub open spec fn lacks(l: i32) -> spec_fn(Seq<i32>) -> bool {
    |c: Seq<i32>| !c.contains(l)
}

/// The clause `c` with every occurrence of `l` taken out, the other
/// literals in their order.
pub open spec fn without(c: Seq<i32>, l: int) -> Seq<i32> {
    c.filter(differs_from(l))
}

/// The formula `f` after deciding that `l` is true: the clauses that
/// contain `l` are gone, and the others have lost the negation of `l`.
pub open spec fn reduced(f: Seq<Seq<i32>>, l: i32) -> Seq<Seq<i32>> {
    f.filter(lacks(l)).map_values(|c: Seq<i32>| without(c, -l))
}

/// `without` on a clause grown by one literal.
pub proof fn lemma_without_push(c: Seq<i32>, x: i32, l: int)
    ensures
        without(c.push(x), l) == if x != l {
            without(c, l).push(x)
        } else {
            without(c, l)
        },
{
    c.lemma_filter_push(x, differs_from(l));
}

/// `reduced` on a formula grown by one clause.
pub proof fn lemma_reduced_push(f: Seq<Seq<i32>>, c: Seq<i32>, l: i32)
    ensures
        reduced(f.push(c), l) == if c.contains(l) {
            reduced(f, l)
        } else {
            reduced(f, l).push(without(c, -l))
        },
{
    f.lemma_filter_push(c, lacks(l));
    if !c.contains(l) {
        assert(reduced(f.push(c), l) =~= reduced(f, l).push(without(c, -l)));
    }
}

/// `reduced` on the empty formula.
pub proof fn lemma_reduced_empty(l: i32)
    ensures
        reduced(Seq::<Seq<i32>>::empty(), l) == Seq::<Seq<i32>>::empty(),
{
    reveal(Seq::filter);
    assert(reduced(Seq::<Seq<i32>>::empty(), l) =~= Seq::<Seq<i32>>::empty());
}

/// The negation of a literal.
pub fn negate_literal(literal: Literal) -> (negated: Literal)
    requires
        literal != i32::MIN,
    ensures
        negated == -literal,
{
    -literal
}

/// Tells whether `lit` occurs in `clause`.
pub fn clause_contains(clause: &Clause, lit: Literal) -> (found: bool)
    ensures
        found == clause@.contains(lit),
{
    let mut i: usize = 0;
    while i < clause.len()
        invariant
            0 <= i <= clause.len(),
            forall|k: int| 0 <= k < i ==> clause@[k] != lit,
        decreases clause.len() - i,
    {
        if clause[i] == lit {
            return true;
        }
        i += 1;
    }
    false
}

/// Removes every occurrence of `lit` from `clause`, keeping the order of
/// the other literals.
pub fn remove_literal(lit: Literal, clause: &mut Clause)
    ensures
        final(clause)@ == without(old(clause)@, lit as int),
{
    let ghost before = clause@;
    let n: usize = clause.len();
    let mut kept: usize = 0;
    let mut i: usize = 0;
    proof {
        reveal(Seq::filter);
        assert(before.take(0) =~= Seq::<i32>::empty());
    }
    while i < n
        invariant
            before == old(clause)@,
            clause@.len() == n == before.len(),
            0 <= kept <= i <= n,
            clause@.take(kept as int) == without(before.take(i as int), lit as int),
            forall|k: int| i <= k < n ==> clause@[k] == before[k],
        decreases n - i,
    {
        let x: i32 = clause[i];
        proof {
            assert(before.take(i as int + 1) =~= before.take(i as int).push(x));
            lemma_without_push(before.take(i as int), x, lit as int);
        }
        if x != lit {
            let ghost prefix = clause@.take(kept as int);
            clause[kept] = x;
            assert(clause@.take(kept as int + 1) =~= prefix.push(x));
            kept += 1;
        }
        i += 1;
    }
    clause.truncate(kept);
    proof {
        assert(before.take(n as int) =~= before);
        assert(clause@ =~= without(before, lit as int));
    }
}

/// Applies the decision that `lit` is true: drops every clause that
/// contains `lit` and removes the negation of `lit` from the others. A
/// clause that loses its last literal stays, as the empty clause.
pub fn reduce_clauses(lit: Literal, clauses: &mut Vec<Clause>)
    ensures
        final(clauses).deep_view() == reduced(old(clauses).deep_view(), lit),
{
    let ghost before = clauses.deep_view();
    let n: usize = clauses.len();
    let mut kept: usize = 0;
    let mut i: usize = 0;
    proof {
        lemma_formula_view(clauses);
        lemma_reduced_empty(lit);
        assert(before.take(0) =~= Seq::<Seq<i32>>::empty());
        assert(clauses.deep_view().take(0) =~= Seq::<Seq<i32>>::empty());
    }
    while i < n
        invariant
            before == old(clauses).deep_view(),
            clauses@.len() == n == before.len(),
            0 <= kept <= i <= n,
            clauses.deep_view().take(kept as int) == reduced(before.take(i as int), lit),
            forall|k: int| i <= k < n ==> clauses@[k]@ == before[k],
        decreases n - i,
    {
        let ghost prefix = clauses.deep_view().take(kept as int);
        let ghost current = clauses@[i as int]@;
        proof {
            lemma_formula_view(clauses);
            assert(before.take(i as int + 1) =~= before.take(i as int).push(current));
            lemma_reduced_push(before.take(i as int), current, lit);
        }
        if !clause_contains(&clauses[i], lit) {
            let mut shortened: Clause = Vec::new();
            core::mem::swap(&mut clauses[i], &mut shortened);
            if lit != i32::MIN {
                remove_literal(negate_literal(lit), &mut shortened);
            } else {
                proof {
                    lemma_without_absent(shortened@, -lit);
                }
            }
            clauses[kept] = shortened;
            proof {
                lemma_formula_view(clauses);
                assert(clauses.deep_view().take(kept as int + 1) =~= prefix.push(
                    without(current, -lit),
                ));
            }
            kept += 1;
        }
        i += 1;
    }
    clauses.truncate(kept);
    proof {
        lemma_formula_view(clauses);
        assert(before.take(n as int) =~= before);
        assert(clauses.deep_view() =~= reduced(before, lit));
    }
}

/// Taking out a value that no literal of the clause has leaves the clause
/// unchanged.
pub proof fn lemma_without_absent(c: Seq<i32>, l: int)
    requires
        forall|k: int| 0 <= k < c.len() ==> c[k] != l,
    ensures
        without(c, l) == c,
    decreases c.len(),
{
    reveal(Seq::filter);
    if c.len() > 0 {
        lemma_without_absent(c.drop_last(), l);
        assert(c.drop_last().push(c.last()) =~= c);
    }
}

} // verus!
