//! What unit propagation does to the size of a formula and to the
//! assignments that satisfy it.

use crate::formula::{
    clause_satisfied, consistent, has_empty_clause, lemma_satisfies_more, literal_count, occurs,
    satisfies, valid_formula, valid_literal, within,
};
use crate::propagator::{
    forced_literals, lemma_reduced_by_concat, lemma_reduced_by_count, lemma_reduced_by_push,
    lemma_round_shrinks, lemma_unit_literal_origin, propagated, reduced_by, unit_literals,
};
use crate::reducer::{differs_from, lemma_without_absent, reduced, without};
use crate::reduction_laws::{
    lemma_filter_strict, lemma_reduced_complete, lemma_reduced_image, lemma_reduced_keeps_empty,
    lemma_reduced_occurs, lemma_reduced_sound, lemma_reduced_valid,
};
use vstd::prelude::*;

verus! {

/// Reducing a valid formula by a sequence of literals gives a valid
/// formula.
pub proof fn lemma_reduced_by_valid(f: Seq<Seq<i32>>, ls: Seq<i32>)
    requires
        valid_formula(f),
    ensures
        valid_formula(reduced_by(f, ls)),
    decreases ls.len(),
{
    if ls.len() > 0 {
        lemma_reduced_by_valid(f, ls.drop_last());
        lemma_reduced_valid(reduced_by(f, ls.drop_last()), ls.last());
    }
}

/// Propagation gives a valid formula with no more literal occurrences.
pub proof fn lemma_propagated_valid(f: Seq<Seq<i32>>)
    requires
        valid_formula(f),
    ensures
        valid_formula(propagated(f)),
        literal_count(propagated(f)) <= literal_count(f),
{
    lemma_reduced_by_valid(f, forced_literals(f));
    lemma_reduced_by_count(f, forced_literals(f), 0);
    assert(forced_literals(f).take(0) =~= Seq::<i32>::empty());
}

/// An empty clause stays through any sequence of reductions.
pub proof fn lemma_reduced_by_keeps_empty(f: Seq<Seq<i32>>, ls: Seq<i32>)
    requires
        has_empty_clause(f),
    ensures
        has_empty_clause(reduced_by(f, ls)),
    decreases ls.len(),
{
    if ls.len() > 0 {
        lemma_reduced_by_keeps_empty(f, ls.drop_last());
        lemma_reduced_keeps_empty(reduced_by(f, ls.drop_last()), ls.last());
    }
}

/// The variables left after a sequence of reductions are variables of the
/// formula, and none of them is the variable of a literal reduced by.
pub proof fn lemma_reduced_by_occurs(f: Seq<Seq<i32>>, ls: Seq<i32>, v: i32)
    requires
        occurs(reduced_by(f, ls), v),
    ensures
        occurs(f, v),
        forall|i: int| 0 <= i < ls.len() ==> v != #[trigger] ls[i] && v + ls[i] != 0,
    decreases ls.len(),
{
    if ls.len() > 0 {
        lemma_reduced_occurs(reduced_by(f, ls.drop_last()), ls.last(), v);
        lemma_reduced_by_occurs(f, ls.drop_last(), v);
        assert forall|i: int| 0 <= i < ls.len() implies v != #[trigger] ls[i] && v + ls[i]
            != 0 by {
            if i < ls.len() - 1 {
                assert(ls.drop_last()[i] == ls[i]);
            }
        }
    }
}

/// An assignment that holds every literal of `ls` and satisfies the
/// formula reduced by `ls` satisfies the formula.
pub proof fn lemma_reduced_by_sound(f: Seq<Seq<i32>>, ls: Seq<i32>, a: Seq<i32>)
    requires
        forall|i: int| 0 <= i < ls.len() ==> a.contains(#[trigger] ls[i]),
        satisfies(a, reduced_by(f, ls)),
    ensures
        satisfies(a, f),
    decreases ls.len(),
{
    if ls.len() > 0 {
        assert(a.contains(ls[ls.len() - 1]));
        lemma_reduced_sound(reduced_by(f, ls.drop_last()), ls.last(), a);
        assert forall|i: int| 0 <= i < ls.drop_last().len() implies a.contains(
            #[trigger] ls.drop_last()[i],
        ) by {
            assert(ls.drop_last()[i] == ls[i]);
        }
        lemma_reduced_by_sound(f, ls.drop_last(), a);
    }
}

/// A consistent assignment that holds every literal of `ls` and satisfies
/// the formula satisfies the formula reduced by `ls`.
pub proof fn lemma_reduced_by_complete(f: Seq<Seq<i32>>, ls: Seq<i32>, a: Seq<i32>)
    requires
        consistent(a),
        forall|i: int| 0 <= i < ls.len() ==> a.contains(#[trigger] ls[i]),
        satisfies(a, f),
    ensures
        satisfies(a, reduced_by(f, ls)),
    decreases ls.len(),
{
    if ls.len() > 0 {
        assert forall|i: int| 0 <= i < ls.drop_last().len() implies a.contains(
            #[trigger] ls.drop_last()[i],
        ) by {
            assert(ls.drop_last()[i] == ls[i]);
        }
        lemma_reduced_by_complete(f, ls.drop_last(), a);
        assert(a.contains(ls[ls.len() - 1]));
        lemma_reduced_complete(reduced_by(f, ls.drop_last()), ls.last(), a);
    }
}

/// Propagation after one round is propagation of what the round leaves.
pub proof fn lemma_propagated_round(f: Seq<Seq<i32>>)
    requires
        !has_empty_clause(f),
        unit_literals(f).len() > 0,
    ensures
        forced_literals(f) == unit_literals(f) + forced_literals(
            reduced_by(f, unit_literals(f)),
        ),
        propagated(f) == propagated(reduced_by(f, unit_literals(f))),
{
    let units = unit_literals(f);
    lemma_reduced_by_concat(f, units, forced_literals(reduced_by(f, units)));
}

/// Propagation without a round leaves the formula as it is.
pub proof fn lemma_propagated_still(f: Seq<Seq<i32>>)
    requires
        has_empty_clause(f) || unit_literals(f).len() == 0,
    ensures
        forced_literals(f) == Seq::<i32>::empty(),
        propagated(f) == f,
{
}

/// A consistent assignment that satisfies the formula holds every forced
/// literal and satisfies what propagation leaves.
pub proof fn lemma_propagated_complete(f: Seq<Seq<i32>>, a: Seq<i32>)
    requires
        consistent(a),
        satisfies(a, f),
    ensures
        forall|i: int|
            0 <= i < forced_literals(f).len() ==> a.contains(#[trigger] forced_literals(f)[i]),
        satisfies(a, propagated(f)),
    decreases literal_count(f),
{
    let units = unit_literals(f);
    if has_empty_clause(f) || units.len() == 0 {
        lemma_propagated_still(f);
    } else {
        let g = reduced_by(f, units);
        lemma_propagated_round(f);
        lemma_round_shrinks(f);
        assert forall|i: int| 0 <= i < units.len() implies a.contains(#[trigger] units[i]) by {
            let k = lemma_unit_literal_origin(f, i);
            assert(clause_satisfied(f[k], a));
        }
        lemma_reduced_by_complete(f, units, a);
        lemma_propagated_complete(g, a);
        let rest = forced_literals(g);
        assert forall|i: int| 0 <= i < (units + rest).len() implies a.contains(
            #[trigger] (units + rest)[i],
        ) by {
            if i < units.len() {
                assert((units + rest)[i] == units[i]);
            } else {
                assert((units + rest)[i] == rest[i - units.len()]);
            }
        }
    }
}

/// The formula has a unit clause whose literal is `x`.
pub open spec fn has_unit(f: Seq<Seq<i32>>, x: i32) -> bool {
    exists|k: int| 0 <= k < f.len() && (#[trigger] f[k]).len() == 1 && f[k][0] == x
}

/// Where a round stands with a unit literal `x` that it collected: the
/// formula has an empty clause, or `x` has been applied, or the unit
/// clause of `x` is still there.
pub open spec fn accounted(f: Seq<Seq<i32>>, applied: Seq<i32>, x: i32) -> bool {
    has_empty_clause(f) || applied.contains(x) || has_unit(f, x)
}

/// Applying one more literal of the round keeps every collected literal
/// accounted for: a unit clause of the same literal goes, one of the
/// opposite literal becomes empty, any other stays.
pub proof fn lemma_accounted_step(f: Seq<Seq<i32>>, applied: Seq<i32>, x: i32, y: i32)
    requires
        accounted(f, applied, x),
    ensures
        accounted(reduced(f, y), applied.push(y), x),
{
    let after = applied.push(y);
    if has_empty_clause(f) {
        lemma_reduced_keeps_empty(f, y);
    } else if applied.contains(x) {
        let p = choose|p: int| 0 <= p < applied.len() && applied[p] == x;
        assert(after[p] == x);
    } else if x == y {
        assert(after[applied.len() as int] == x);
    } else {
        let k = choose|k: int| 0 <= k < f.len() && (#[trigger] f[k]).len() == 1 && f[k][0] == x;
        let r = lemma_reduced_image(f, y, k);
        if x + y == 0 {
            lemma_filter_strict(f[k], differs_from(-y), 0);
            assert(reduced(f, y)[r].len() == 0);
        } else {
            lemma_without_absent(f[k], -y);
            assert(reduced(f, y)[r].len() == 1 && reduced(f, y)[r][0] == x);
        }
    }
}

/// After the first `n` literals of a round, every literal of the round
/// that is still to come is accounted for, and the literals applied are
/// consistent unless the formula has an empty clause.
pub proof fn lemma_round_prefix(f: Seq<Seq<i32>>, n: int)
    requires
        valid_formula(f),
        0 <= n <= unit_literals(f).len(),
    ensures
        forall|j: int|
            n <= j < unit_literals(f).len() ==> accounted(
                reduced_by(f, unit_literals(f).take(n)),
                unit_literals(f).take(n),
                #[trigger] unit_literals(f)[j],
            ),
        has_empty_clause(reduced_by(f, unit_literals(f).take(n))) || consistent(
            unit_literals(f).take(n),
        ),
    decreases n,
{
    let units = unit_literals(f);
    if n == 0 {
        assert forall|j: int| 0 <= j < units.len() implies accounted(
            reduced_by(f, units.take(0)),
            units.take(0),
            #[trigger] units[j],
        ) by {
            let k = lemma_unit_literal_origin(f, j);
            assert(has_unit(f, units[j]));
        }
    } else {
        let done = units.take(n - 1);
        let y = units[n - 1];
        let g = reduced_by(f, done);
        lemma_round_prefix(f, n - 1);
        assert(units.take(n) =~= done.push(y));
        lemma_reduced_by_push(f, done, y);
        assert forall|j: int| n <= j < units.len() implies accounted(
            reduced_by(f, units.take(n)),
            units.take(n),
            #[trigger] units[j],
        ) by {
            lemma_accounted_step(g, done, units[j], y);
        }
        if !has_empty_clause(reduced(g, y)) {
            if has_empty_clause(g) {
                lemma_reduced_keeps_empty(g, y);
            }
            assert(accounted(g, done, units[n - 1]));
            let after = done.push(y);
            if done.contains(y) {
                let q = choose|q: int| 0 <= q < done.len() && done[q] == y;
                assert forall|i: int, j: int|
                    #![trigger after[i], after[j]]
                    0 <= i < after.len() && 0 <= j < after.len() implies after[i] + after[j]
                    != 0 by {
                    let i2 = if i < done.len() { i } else { q };
                    let j2 = if j < done.len() { j } else { q };
                    assert(done[i2] + done[j2] != 0);
                }
            } else {
                let k = choose|k: int|
                    0 <= k < g.len() && (#[trigger] g[k]).len() == 1 && g[k][0] == y;
                assert(g[k][0] == y);
                assert(occurs(g, y));
                lemma_reduced_by_occurs(f, done, y);
                lemma_reduced_by_valid(f, done);
                assert(valid_literal(g[k][0]));
                assert forall|i: int, j: int|
                    #![trigger after[i], after[j]]
                    0 <= i < after.len() && 0 <= j < after.len() implies after[i] + after[j]
                    != 0 by {
                    if i < done.len() && j < done.len() {
                        assert(done[i] + done[j] != 0);
                    } else if i < done.len() {
                        assert(y + done[i] != 0);
                    } else if j < done.len() {
                        assert(y + done[j] != 0);
                    }
                }
            }
        }
    }
}

/// Where propagation of a valid formula ends without an empty clause, the
/// forced literals are consistent and on variables of the formula.
pub proof fn lemma_forced_consistent(f: Seq<Seq<i32>>)
    requires
        valid_formula(f),
        !has_empty_clause(propagated(f)),
    ensures
        consistent(forced_literals(f)),
        within(forced_literals(f), f),
    decreases literal_count(f),
{
    let units = unit_literals(f);
    if has_empty_clause(f) || units.len() == 0 {
        lemma_propagated_still(f);
    } else {
        let g = reduced_by(f, units);
        let rest = forced_literals(g);
        let all = units + rest;
        lemma_propagated_round(f);
        lemma_round_shrinks(f);
        lemma_reduced_by_valid(f, units);
        lemma_forced_consistent(g);
        if has_empty_clause(g) {
            lemma_reduced_by_keeps_empty(g, rest);
        }
        lemma_round_prefix(f, units.len() as int);
        assert(units.take(units.len() as int) =~= units);
        assert forall|j: int| 0 <= j < rest.len() implies occurs(f, #[trigger] rest[j]) && (
        forall|i: int| 0 <= i < units.len() ==> rest[j] + #[trigger] units[i] != 0) by {
            assert(occurs(g, rest[j]));
            lemma_reduced_by_occurs(f, units, rest[j]);
        }
        assert forall|i: int| 0 <= i < all.len() implies occurs(f, #[trigger] all[i]) by {
            if i < units.len() {
                let k = lemma_unit_literal_origin(f, i);
                assert(f[k][0] == units[i]);
            } else {
                assert(all[i] == rest[i - units.len()]);
            }
        }
        assert forall|i: int, j: int|
            #![trigger all[i], all[j]]
            0 <= i < all.len() && 0 <= j < all.len() implies all[i] + all[j] != 0 by {
            if i < units.len() && j < units.len() {
                assert(units[i] + units[j] != 0);
            } else if i < units.len() {
                assert(rest[j - units.len()] + units[i] != 0);
            } else if j < units.len() {
                assert(rest[i - units.len()] + units[j] != 0);
            } else {
                assert(rest[i - units.len()] + rest[j - units.len()] != 0);
            }
        }
    }
}

/// Adding the forced literals in front of an assignment for what
/// propagation leaves gives an assignment for the formula: it satisfies
/// the formula, and it is consistent and on variables of the formula
/// where the assignment for the rest is.
pub proof fn lemma_propagated_sound(f: Seq<Seq<i32>>, rest: Seq<i32>)
    requires
        valid_formula(f),
        !has_empty_clause(propagated(f)),
        satisfies(rest, propagated(f)),
        consistent(rest),
        within(rest, propagated(f)),
    ensures
        satisfies(forced_literals(f) + rest, f),
        consistent(forced_literals(f) + rest),
        within(forced_literals(f) + rest, f),
{
    let forced = forced_literals(f);
    let all = forced + rest;
    lemma_forced_consistent(f);
    assert forall|i: int| 0 <= i < rest.len() implies all.contains(#[trigger] rest[i]) by {
        assert(all[forced.len() + i] == rest[i]);
    }
    lemma_satisfies_more(rest, all, propagated(f));
    assert forall|i: int| 0 <= i < forced.len() implies all.contains(#[trigger] forced[i]) by {
        assert(all[i] == forced[i]);
    }
    lemma_reduced_by_sound(f, forced, all);
    assert forall|j: int| 0 <= j < rest.len() implies occurs(f, #[trigger] rest[j]) && (
    forall|i: int| 0 <= i < forced.len() ==> rest[j] + #[trigger] forced[i] != 0) by {
        assert(occurs(propagated(f), rest[j]));
        lemma_reduced_by_occurs(f, forced, rest[j]);
    }
    assert forall|i: int| 0 <= i < all.len() implies occurs(f, #[trigger] all[i]) by {
        if i < forced.len() {
            assert(all[i] == forced[i]);
        } else {
            assert(all[i] == rest[i - forced.len()]);
        }
    }
    assert forall|i: int, j: int|
        #![trigger all[i], all[j]]
        0 <= i < all.len() && 0 <= j < all.len() implies all[i] + all[j] != 0 by {
        if i < forced.len() && j < forced.len() {
            assert(forced[i] + forced[j] != 0);
        } else if i < forced.len() {
            assert(rest[j - forced.len()] + forced[i] != 0);
        } else if j < forced.len() {
            assert(rest[i - forced.len()] + forced[j] != 0);
        } else {
            assert(rest[i - forced.len()] + rest[j - forced.len()] != 0);
        }
    }
}

} // verus!
