//! The unit propagator: applying the literals that unit clauses force,
//! round after round, until none is left or a clause has become empty.

use crate::formula::{has_empty_clause, lemma_formula_view, literal_count, Clause, Literal};
use crate::reducer::{reduce_clauses, reduced};
use crate::reduction_laws::{lemma_reduced_count, lemma_reduced_count_strict};
use vstd::prelude::*;

verus! {

/// The predicate "has exactly one literal" on clauses.
pub open spec fn is_unit() -> spec_fn(Seq<i32>) -> bool {
    |c: Seq<i32>| c.len() == 1
}

/// The literals of the unit clauses of the formula, in the order of their
/// clauses.
pub open spec fn unit_literals(f: Seq<Seq<i32>>) -> Seq<i32> {
    f.filter(is_unit()).map_values(|c: Seq<i32>| c[0])
}

/// The formula reduced by each literal of `ls` in turn, the first one
/// first.
pub open spec fn reduced_by(f: Seq<Seq<i32>>, ls: Seq<i32>) -> Seq<Seq<i32>>
    decreases ls.len(),
{
    if ls.len() == 0 {
        f
    } else {
        reduced(reduced_by(f, ls.drop_last()), ls.last())
    }
}

/// The literals that unit propagation applies to the formula, in the order
/// of application. A round takes the unit literals of the formula as it
/// stands and reduces by each of them; rounds go on until the formula has
/// an empty clause or no unit clause.
pub open spec fn forced_literals(f: Seq<Seq<i32>>) -> Seq<i32>
    decreases literal_count(f),
{
    let units = unit_literals(f);
    if has_empty_clause(f) || units.len() == 0 {
        Seq::empty()
    } else {
        proof {
            lemma_round_shrinks(f);
        }
        units + forced_literals(reduced_by(f, units))
    }
}

/// The formula that unit propagation leaves.
pub open spec fn propagated(f: Seq<Seq<i32>>) -> Seq<Seq<i32>> {
    reduced_by(f, forced_literals(f))
}

/// The unit literals of a formula grown by one clause.
pub proof fn lemma_unit_literals_push(f: Seq<Seq<i32>>, c: Seq<i32>)
    ensures
        unit_literals(f.push(c)) == if c.len() == 1 {
            unit_literals(f).push(c[0])
        } else {
            unit_literals(f)
        },
{
    f.lemma_filter_push(c, is_unit());
    if c.len() == 1 {
        assert(unit_literals(f.push(c)) =~= unit_literals(f).push(c[0]));
    }
}

/// Every unit literal is the literal of a unit clause of the formula.
pub proof fn lemma_unit_literal_origin(f: Seq<Seq<i32>>, i: int) -> (k: int)
    requires
        0 <= i < unit_literals(f).len(),
    ensures
        0 <= k < f.len(),
        f[k].len() == 1,
        f[k][0] == unit_literals(f)[i],
{
    let units = f.filter(is_unit());
    f.lemma_filter_pred(is_unit(), i);
    assert(units.contains(units[i]));
    f.lemma_filter_contains_rev(is_unit(), units[i]);
    choose|k: int| 0 <= k < f.len() && f[k] == units[i]
}

/// Reducing by a sequence of literals is reducing by a first part of it
/// and then by the rest.
pub proof fn lemma_reduced_by_concat(f: Seq<Seq<i32>>, a: Seq<i32>, b: Seq<i32>)
    ensures
        reduced_by(f, a + b) == reduced_by(reduced_by(f, a), b),
    decreases b.len(),
{
    if b.len() == 0 {
        assert(a + b =~= a);
    } else {
        lemma_reduced_by_concat(f, a, b.drop_last());
        assert((a + b).drop_last() =~= a + b.drop_last());
    }
}

/// Reducing by one more literal.
pub proof fn lemma_reduced_by_push(f: Seq<Seq<i32>>, ls: Seq<i32>, l: i32)
    ensures
        reduced_by(f, ls.push(l)) == reduced(reduced_by(f, ls), l),
{
    assert(ls.push(l).drop_last() =~= ls);
}

/// Reducing by a sequence of literals never adds a literal occurrence:
/// the count after the whole sequence is at most the count after any
/// first part of it.
pub proof fn lemma_reduced_by_count(f: Seq<Seq<i32>>, ls: Seq<i32>, n: int)
    requires
        0 <= n <= ls.len(),
    ensures
        literal_count(reduced_by(f, ls)) <= literal_count(reduced_by(f, ls.take(n))),
    decreases ls.len(),
{
    if n == ls.len() {
        assert(ls.take(n) =~= ls);
    } else {
        lemma_reduced_by_count(f, ls.drop_last(), n);
        assert(ls.drop_last().take(n) =~= ls.take(n));
        lemma_reduced_count(reduced_by(f, ls.drop_last()), ls.last());
    }
}

/// A round of propagation on a formula with a unit clause removes at
/// least one literal occurrence.
pub proof fn lemma_round_shrinks(f: Seq<Seq<i32>>)
    requires
        unit_literals(f).len() > 0,
    ensures
        literal_count(reduced_by(f, unit_literals(f))) < literal_count(f),
{
    let units = unit_literals(f);
    let k = lemma_unit_literal_origin(f, 0);
    lemma_reduced_count_strict(f, units[0], k, 0);
    lemma_reduced_by_count(f, units, 1);
    assert(units.take(1) =~= Seq::<i32>::empty().push(units[0]));
    lemma_reduced_by_push(f, Seq::<i32>::empty(), units[0]);
}

/// Tells whether some clause has no literal.
pub fn contains_empty_clause(clauses: &Vec<Clause>) -> (found: bool)
    ensures
        found == has_empty_clause(clauses.deep_view()),
{
    proof {
        lemma_formula_view(clauses);
    }
    let mut i: usize = 0;
    while i < clauses.len()
        invariant
            0 <= i <= clauses.len(),
            forall|k: int| 0 <= k < i ==> clauses@[k]@.len() != 0,
            clauses.deep_view().len() == clauses@.len(),
            forall|k: int|
                0 <= k < clauses@.len() ==> #[trigger] clauses.deep_view()[k] == clauses@[k]@,
        decreases clauses.len() - i,
    {
        if clauses[i].len() == 0 {
            assert(clauses.deep_view()[i as int].len() == 0);
            return true;
        }
        i += 1;
    }
    false
}

/// The literals of the clauses that have exactly one literal, in the
/// order of their clauses.
pub fn get_atomic_clauses(clauses: &[Clause]) -> (atoms: Vec<Literal>)
    ensures
        atoms@ == unit_literals(clauses.deep_view()),
{
    let ghost f = clauses.deep_view();
    let mut atoms: Vec<Literal> = Vec::new();
    let mut i: usize = 0;
    proof {
        reveal(Seq::filter);
        assert(f.take(0) =~= Seq::<Seq<i32>>::empty());
        assert(unit_literals(f.take(0)) =~= Seq::<i32>::empty());
    }
    while i < clauses.len()
        invariant
            f == clauses.deep_view(),
            0 <= i <= clauses.len(),
            f.len() == clauses@.len(),
            atoms@ == unit_literals(f.take(i as int)),
        decreases clauses.len() - i,
    {
        let clause = &clauses[i];
        proof {
            assert(clause.deep_view() =~= clause@);
            assert(f[i as int] == clause@);
            assert(f.take(i as int + 1) =~= f.take(i as int).push(clause@));
            lemma_unit_literals_push(f.take(i as int), clause@);
        }
        if clause.len() == 1 {
            atoms.push(clause[0]);
        }
        i += 1;
    }
    proof {
        assert(f.take(i as int) =~= f);
    }
    atoms
}

/// Unit propagation to the fixpoint. Each round collects the literals of
/// the unit clauses and reduces the formula by each of them, recording it
/// at the end of `solution`; the rounds stop when the formula has an
/// empty clause or no unit clause.
pub fn propagate(solution: &mut Clause, clauses: &mut Vec<Clause>)
    ensures
        final(solution)@ == old(solution)@ + forced_literals(old(clauses).deep_view()),
        final(clauses).deep_view() == propagated(old(clauses).deep_view()),
{
    let ghost start = clauses.deep_view();
    let ghost mut applied: Seq<i32> = Seq::empty();
    proof {
        assert(solution@ + applied =~= solution@);
    }
    loop
        invariant
            start == old(clauses).deep_view(),
            solution@ == old(solution)@ + applied,
            clauses.deep_view() == reduced_by(start, applied),
            forced_literals(start) == applied + forced_literals(clauses.deep_view()),
        ensures
            solution@ == old(solution)@ + forced_literals(start),
            clauses.deep_view() == propagated(start),
        decreases literal_count(clauses.deep_view()),
    {
        let ghost current = clauses.deep_view();
        if contains_empty_clause(clauses) {
            proof {
                assert(applied + forced_literals(current) =~= applied);
            }
            break ;
        }
        let slice = clauses.as_slice();
        proof {
            assert(slice.deep_view() =~= clauses.deep_view());
        }
        let atoms = get_atomic_clauses(slice);
        if atoms.len() == 0 {
            proof {
                assert(applied + forced_literals(current) =~= applied);
            }
            break ;
        }
        let ghost before = solution@;
        let mut k: usize = 0;
        proof {
            assert(atoms@.take(0) =~= Seq::<i32>::empty());
            assert(before + atoms@.take(0) =~= before);
        }
        while k < atoms.len()
            invariant
                0 <= k <= atoms.len(),
                solution@ == before + atoms@.take(k as int),
                clauses.deep_view() == reduced_by(current, atoms@.take(k as int)),
            decreases atoms.len() - k,
        {
            let atom: i32 = atoms[k];
            reduce_clauses(atom, clauses);
            solution.push(atom);
            proof {
                assert(atoms@.take(k as int + 1) =~= atoms@.take(k as int).push(atom));
                lemma_reduced_by_push(current, atoms@.take(k as int), atom);
                assert(solution@ =~= before + atoms@.take(k as int + 1));
            }
            k += 1;
        }
        proof {
            assert(atoms@.take(k as int) =~= atoms@);
            lemma_round_shrinks(current);
            lemma_reduced_by_concat(start, applied, atoms@);
            assert(forced_literals(start) =~= (applied + atoms@) + forced_literals(
                clauses.deep_view(),
            ));
            assert(solution@ =~= old(solution)@ + (applied + atoms@));
            applied = applied + atoms@;
        }
    }
}

} // verus!
