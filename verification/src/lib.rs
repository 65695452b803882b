//! Sudoku as a satisfiability problem.
//!
//! A puzzle is compiled into a formula in conjunctive normal form, the
//! formula is handed to a SAT solver, and the assignment that comes back is
//! read as a grid.
//!
//! - [`cnf`]: variables, literals, clauses, and what it means to satisfy
//!   them.
//! - [`constraint`]: what a step of the construction adds to a formula.
//! - [`oracle`]: the boundary to the solver.
//! - [`formula`]: the formula under construction, with its logic gates and
//!   direct assertions, and the assignment that solves it.
//! - [`grid`], [`board`]: the grid of digits, and the variables that stand
//!   for its cells.
//! - [`domain`], [`inequality`], [`uniqueness`], [`givens`]: the constraints
//!   of the puzzle.
//! - [`puzzle`]: the whole way from the given cells to the solved grid.

pub mod board;
pub mod cnf;
pub mod constraint;
pub mod domain;
pub mod formula;
pub mod givens;
pub mod grid;
pub mod inequality;
pub mod oracle;
pub mod puzzle;
pub mod uniqueness;
