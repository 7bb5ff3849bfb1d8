//! A DPLL satisfiability solver for propositional formulas in conjunctive
//! normal form, with machine-checked contracts.
//!
//! A formula is a vector of clauses, a clause a vector of nonzero signed
//! integers. `dpll` returns the literals of a satisfying assignment, or
//! `None` where there is none.

pub mod dimacs;
pub mod formula;
pub mod propagation_laws;
pub mod propagator;
pub mod reducer;
pub mod reduction_laws;
pub mod search_laws;
pub mod solver;

pub use crate::dimacs::{parse_clause, parse_cnf, parse_integer, ParseError};
pub use crate::formula::{check_formula, Clause, Literal};
pub use crate::propagator::{contains_empty_clause, get_atomic_clauses, propagate};
pub use crate::reducer::{clause_contains, negate_literal, reduce_clauses, remove_literal};
pub use crate::solver::{dpll, inner_dpll};
