//! What reducing a formula by a literal does to its clauses, to its size
//! and to the assignments that satisfy it.

use crate::formula::{
    clause_satisfied, consistent, has_empty_clause, lemma_literal_count_push, literal_count,
    occurs, satisfies, valid_formula, valid_literal,
};
use crate::reducer::{differs_from, lacks, lemma_reduced_push, reduced, without};
use vstd::prelude::*;

verus! {

/// A filter that rejects some element returns a shorter sequence.
pub proof fn lemma_filter_strict<A>(s: Seq<A>, p: spec_fn(A) -> bool, k: int)
    requires
        0 <= k < s.len(),
        !p(s[k]),
    ensures
        s.filter(p).len() < s.len(),
    decreases s.len(),
{
    reveal(Seq::filter);
    if k < s.len() - 1 {
        lemma_filter_strict(s.drop_last(), p, k);
    } else {
        s.drop_last().lemma_filter_len(p);
    }
}

/// The literals of `without(c, l)` are those of `c` other than `l`.
pub proof fn lemma_without_contains(c: Seq<i32>, l: int, x: i32)
    ensures
        without(c, l).contains(x) <==> c.contains(x) && x != l,
{
    let p = differs_from(l);
    if without(c, l).contains(x) {
        let i = choose|i: int| 0 <= i < without(c, l).len() && without(c, l)[i] == x;
        c.lemma_filter_pred(p, i);
        c.lemma_filter_contains_rev(p, x);
    }
    if c.contains(x) && x != l {
        let i = choose|i: int| 0 <= i < c.len() && c[i] == x;
        c.lemma_filter_contains(p, i);
    }
}

/// Every clause of the reduced formula comes from a clause of the formula
/// that does not contain the literal, by taking the negation out.
pub proof fn lemma_reduced_origin(f: Seq<Seq<i32>>, l: i32, r: int) -> (k: int)
    requires
        0 <= r < reduced(f, l).len(),
    ensures
        0 <= k < f.len(),
        !f[k].contains(l),
        reduced(f, l)[r] == without(f[k], -l),
{
    let kept = f.filter(lacks(l));
    f.lemma_filter_pred(lacks(l), r);
    assert(kept.contains(kept[r]));
    f.lemma_filter_contains_rev(lacks(l), kept[r]);
    choose|k: int| 0 <= k < f.len() && f[k] == kept[r]
}

/// Every clause of the formula that does not contain the literal has its
/// image in the reduced formula.
pub proof fn lemma_reduced_image(f: Seq<Seq<i32>>, l: i32, k: int) -> (r: int)
    requires
        0 <= k < f.len(),
        !f[k].contains(l),
    ensures
        0 <= r < reduced(f, l).len(),
        reduced(f, l)[r] == without(f[k], -l),
{
    let kept = f.filter(lacks(l));
    f.lemma_filter_contains(lacks(l), k);
    choose|r: int| 0 <= r < kept.len() && kept[r] == f[k]
}

/// Reducing never adds a literal occurrence.
pub proof fn lemma_reduced_count(f: Seq<Seq<i32>>, l: i32)
    ensures
        literal_count(reduced(f, l)) <= literal_count(f),
    decreases f.len(),
{
    if f.len() == 0 {
        crate::reducer::lemma_reduced_empty(l);
        assert(f =~= Seq::<Seq<i32>>::empty());
    } else {
        let g = f.drop_last();
        let c = f.last();
        assert(g.push(c) =~= f);
        lemma_reduced_count(g, l);
        lemma_reduced_push(g, c, l);
        lemma_literal_count_push(g, c);
        if !c.contains(l) {
            lemma_literal_count_push(reduced(g, l), without(c, -l));
            c.lemma_filter_len(differs_from(-l));
        }
    }
}

/// Reducing by a literal whose variable occurs in the formula removes at
/// least one literal occurrence.
pub proof fn lemma_reduced_count_strict(f: Seq<Seq<i32>>, l: i32, k: int, j: int)
    requires
        0 <= k < f.len(),
        0 <= j < f[k].len(),
        f[k][j] == l || f[k][j] + l == 0,
    ensures
        literal_count(reduced(f, l)) < literal_count(f),
    decreases f.len(),
{
    let g = f.drop_last();
    let c = f.last();
    assert(g.push(c) =~= f);
    lemma_reduced_push(g, c, l);
    lemma_literal_count_push(g, c);
    if k < f.len() - 1 {
        lemma_reduced_count_strict(g, l, k, j);
        if !c.contains(l) {
            lemma_literal_count_push(reduced(g, l), without(c, -l));
            c.lemma_filter_len(differs_from(-l));
        }
    } else {
        lemma_reduced_count(g, l);
        if !c.contains(l) {
            lemma_literal_count_push(reduced(g, l), without(c, -l));
            lemma_filter_strict(c, differs_from(-l), j);
        }
    }
}

/// An empty clause stays through a reduction.
pub proof fn lemma_reduced_keeps_empty(f: Seq<Seq<i32>>, l: i32)
    requires
        has_empty_clause(f),
    ensures
        has_empty_clause(reduced(f, l)),
{
    let k = choose|k: int| 0 <= k < f.len() && (#[trigger] f[k]).len() == 0;
    let r = lemma_reduced_image(f, l, k);
    f[k].lemma_filter_len(differs_from(-l));
    assert(reduced(f, l)[r].len() == 0);
}

/// Every literal of the reduced formula is a literal of the formula, and
/// its variable is not that of the literal reduced by.
pub proof fn lemma_reduced_literal(f: Seq<Seq<i32>>, l: i32, r: int, j: int) -> (at: (int, int))
    requires
        0 <= r < reduced(f, l).len(),
        0 <= j < reduced(f, l)[r].len(),
    ensures
        0 <= at.0 < f.len(),
        0 <= at.1 < f[at.0].len(),
        f[at.0][at.1] == reduced(f, l)[r][j],
        reduced(f, l)[r][j] != l,
        reduced(f, l)[r][j] + l != 0,
{
    let k = lemma_reduced_origin(f, l, r);
    let x = reduced(f, l)[r][j];
    assert(without(f[k], -l).contains(x));
    lemma_without_contains(f[k], -l, x);
    let i = choose|i: int| 0 <= i < f[k].len() && f[k][i] == x;
    (k, i)
}

/// The variables of the reduced formula are variables of the formula,
/// and the variable reduced by is not among them.
pub proof fn lemma_reduced_occurs(f: Seq<Seq<i32>>, l: i32, v: i32)
    requires
        occurs(reduced(f, l), v),
    ensures
        occurs(f, v),
        v != l,
        v + l != 0,
{
    let g = reduced(f, l);
    let (r, j) = choose|r: int, j: int|
        0 <= r < g.len() && 0 <= j < g[r].len() && (#[trigger] g[r][j] == v || g[r][j] + v == 0);
    let (k, i) = lemma_reduced_literal(f, l, r, j);
    assert(f[k][i] == v || f[k][i] + v == 0);
}

/// Reducing a valid formula gives a valid formula.
pub proof fn lemma_reduced_valid(f: Seq<Seq<i32>>, l: i32)
    requires
        valid_formula(f),
    ensures
        valid_formula(reduced(f, l)),
{
    let g = reduced(f, l);
    assert forall|r: int, j: int| 0 <= r < g.len() && 0 <= j < g[r].len() implies valid_literal(
        #[trigger] g[r][j],
    ) by {
        let (k, i) = lemma_reduced_literal(f, l, r, j);
        assert(valid_literal(f[k][i]));
    }
}

/// An assignment that holds the literal and satisfies the reduced formula
/// satisfies the formula.
pub proof fn lemma_reduced_sound(f: Seq<Seq<i32>>, l: i32, a: Seq<i32>)
    requires
        a.contains(l),
        satisfies(a, reduced(f, l)),
    ensures
        satisfies(a, f),
{
    assert forall|k: int| 0 <= k < f.len() implies clause_satisfied(#[trigger] f[k], a) by {
        if f[k].contains(l) {
            let i = choose|i: int| 0 <= i < f[k].len() && f[k][i] == l;
            assert(a.contains(f[k][i]));
        } else {
            let r = lemma_reduced_image(f, l, k);
            let c = reduced(f, l)[r];
            assert(clause_satisfied(c, a));
            let j = choose|j: int| 0 <= j < c.len() && a.contains(#[trigger] c[j]);
            assert(c.contains(c[j]));
            lemma_without_contains(f[k], -l, c[j]);
            let i = choose|i: int| 0 <= i < f[k].len() && f[k][i] == c[j];
            assert(a.contains(f[k][i]));
        }
    }
}

/// A consistent assignment that holds the literal and satisfies the
/// formula satisfies the reduced formula.
pub proof fn lemma_reduced_complete(f: Seq<Seq<i32>>, l: i32, a: Seq<i32>)
    requires
        consistent(a),
        a.contains(l),
        satisfies(a, f),
    ensures
        satisfies(a, reduced(f, l)),
{
    let g = reduced(f, l);
    assert forall|r: int| 0 <= r < g.len() implies clause_satisfied(#[trigger] g[r], a) by {
        let k = lemma_reduced_origin(f, l, r);
        assert(clause_satisfied(f[k], a));
        let i = choose|i: int| 0 <= i < f[k].len() && a.contains(#[trigger] f[k][i]);
        let x = f[k][i];
        let p = choose|p: int| 0 <= p < a.len() && a[p] == x;
        let q = choose|q: int| 0 <= q < a.len() && a[q] == l;
        assert(a[p] + a[q] != 0);
        assert(f[k].contains(x));
        lemma_without_contains(f[k], -l, x);
        let j = choose|j: int| 0 <= j < g[r].len() && g[r][j] == x;
        assert(a.contains(g[r][j]));
    }
}

} // verus!
