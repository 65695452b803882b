//! The boundary to the `kissat` crate, which stores the clauses and decides
//! whether they can be satisfied.
//!
//! Nothing in this file is proved. Each item states what the code of
//! `kissat` does, over a model of what a solver, a literal of the solver and
//! a solution hold.

use crate::cnf::{
    and_clauses, code_within, or_clauses, satisfies, unsatisfiable, xor_clauses, Valuation,
    MAX_VARIABLES,
};
use vstd::prelude::*;

verus! {

/// `kissat::Solver`: a satisfiability problem under construction.
#[verifier::external_type_specification]
#[verifier::external_body]
pub struct ExSolver(kissat::Solver);

/// `kissat::Var`: a literal of the solver, a variable or its negation.
#[verifier::external_type_specification]
#[verifier::external_body]
pub struct ExVar(kissat::Var);

/// `kissat::Solution`: the values found for a satisfiable problem.
#[verifier::external_type_specification]
#[verifier::external_body]
pub struct ExSolution(kissat::Solution);

/// The clauses that were added to a `kissat::Solver`, oldest first, each as
/// the codes of its literals in the order in which they were given.
pub uninterp spec fn solver_clauses(solver: kissat::Solver) -> Seq<Seq<int>>;

/// The number of variables that a `kissat::Solver` has handed out (its
/// counter `n_vars`).
pub uninterp spec fn solver_vars(solver: kissat::Solver) -> int;

/// The number that a `kissat::Var` holds (its field `id`): the identifier of
/// the variable, negative for a negation.
pub uninterp spec fn var_code(var: kissat::Var) -> int;

/// The variables to which a `kissat::Solution` gives a value, each with that
/// value. A variable that is absent is one whose value does not matter.
pub uninterp spec fn solution_values(solution: kissat::Solution) -> Map<int, bool>;

/// Whether `code` is a literal that the solver accepts: not zero, and of a
/// variable no larger than `MAX_VARIABLES`.
pub open spec fn accepted_code(code: int) -> bool {
    code_within(code, MAX_VARIABLES as int)
}

/// The total assignment read off a solution: true for the variables that
/// the solution makes true, false for all others.
pub open spec fn chosen(values: Map<int, bool>) -> Valuation {
    |v: int| values.contains_key(v) && values[v]
}

/// `kissat::Solver::new` makes a solver without variables or clauses.
pub assume_specification[ kissat::Solver::new ]() -> (solver: kissat::Solver)
    ensures
        solver_vars(solver) == 0,
        solver_clauses(solver) == Seq::<Seq<int>>::empty(),
;

/// `kissat::Solver::var` advances the counter by one and returns the
/// positive literal of the new count; it adds no clause. It panics when the
/// new count would be `1 << 28`, which the precondition excludes.
pub assume_specification[ kissat::Solver::var ](solver: &mut kissat::Solver) -> (var: kissat::Var)
    requires
        0 <= solver_vars(*old(solver)) < MAX_VARIABLES,
    ensures
        var_code(var) == solver_vars(*old(solver)) + 1,
        solver_vars(*final(solver)) == solver_vars(*old(solver)) + 1,
        solver_clauses(*final(solver)) == solver_clauses(*old(solver)),
;

/// `kissat::Solver::add1` adds the clause of the single literal `a`. The
/// solver aborts on a literal that it does not accept.
pub assume_specification[ kissat::Solver::add1 ](solver: &mut kissat::Solver, a: kissat::Var)
    requires
        accepted_code(var_code(a)),
    ensures
        solver_vars(*final(solver)) == solver_vars(*old(solver)),
        solver_clauses(*final(solver)) == solver_clauses(*old(solver)).push(seq![var_code(a)]),
;

/// `kissat::Solver::add2` adds the clause of the two literals `a` and `b`.
/// The solver aborts on a literal that it does not accept.
pub assume_specification[ kissat::Solver::add2 ](
    solver: &mut kissat::Solver,
    a: kissat::Var,
    b: kissat::Var,
)
    requires
        accepted_code(var_code(a)),
        accepted_code(var_code(b)),
    ensures
        solver_vars(*final(solver)) == solver_vars(*old(solver)),
        solver_clauses(*final(solver)) == solver_clauses(*old(solver)).push(
            seq![var_code(a), var_code(b)],
        ),
;

/// `kissat::Solver::and` takes a new variable `z` as `var` does, adds the
/// three clauses `!a | !b | z`, `a | !z` and `b | !z` in this order, and
/// returns `z`.
pub assume_specification[ kissat::Solver::and ](
    solver: &mut kissat::Solver,
    a: kissat::Var,
    b: kissat::Var,
) -> (z: kissat::Var)
    requires
        0 <= solver_vars(*old(solver)) < MAX_VARIABLES,
        accepted_code(var_code(a)),
        accepted_code(var_code(b)),
    ensures
        var_code(z) == solver_vars(*old(solver)) + 1,
        solver_vars(*final(solver)) == solver_vars(*old(solver)) + 1,
        solver_clauses(*final(solver)) == solver_clauses(*old(solver)) + and_clauses(
            var_code(a),
            var_code(b),
            var_code(z),
        ),
;

/// `kissat::Solver::or` takes a new variable `z` as `var` does, adds the
/// three clauses `a | b | !z`, `!a | z` and `!b | z` in this order, and
/// returns `z`.
pub assume_specification[ kissat::Solver::or ](
    solver: &mut kissat::Solver,
    a: kissat::Var,
    b: kissat::Var,
) -> (z: kissat::Var)
    requires
        0 <= solver_vars(*old(solver)) < MAX_VARIABLES,
        accepted_code(var_code(a)),
        accepted_code(var_code(b)),
    ensures
        var_code(z) == solver_vars(*old(solver)) + 1,
        solver_vars(*final(solver)) == solver_vars(*old(solver)) + 1,
        solver_clauses(*final(solver)) == solver_clauses(*old(solver)) + or_clauses(
            var_code(a),
            var_code(b),
            var_code(z),
        ),
;

/// `kissat::Solver::xor` takes a new variable `z` as `var` does, adds the
/// four clauses `!a | !b | !z`, `a | b | !z`, `a | !b | z` and `!a | b | z`
/// in this order, and returns `z`.
pub assume_specification[ kissat::Solver::xor ](
    solver: &mut kissat::Solver,
    a: kissat::Var,
    b: kissat::Var,
) -> (z: kissat::Var)
    requires
        0 <= solver_vars(*old(solver)) < MAX_VARIABLES,
        accepted_code(var_code(a)),
        accepted_code(var_code(b)),
    ensures
        var_code(z) == solver_vars(*old(solver)) + 1,
        solver_vars(*final(solver)) == solver_vars(*old(solver)) + 1,
        solver_clauses(*final(solver)) == solver_clauses(*old(solver)) + xor_clauses(
            var_code(a),
            var_code(b),
            var_code(z),
        ),
;

/// `kissat::Solver::sat` runs the search on the clauses added so far. It
/// returns a solution whose values make every clause true, or `None` when no
/// assignment does.
pub assume_specification[ kissat::Solver::sat ](
    solver: kissat::Solver,
) -> (result: Option<kissat::Solution>)
    ensures
        match result {
            Some(solution) => satisfies(chosen(solution_values(solution)), solver_clauses(solver)),
            None => unsatisfiable(solver_clauses(solver)),
        },
;

/// `kissat::Solution::get` returns the value that the solution gives to the
/// variable of a positive literal `x`, and `None` for a variable whose value
/// does not matter. The solver aborts on a literal that it does not accept.
pub assume_specification[ kissat::Solution::get ](
    solution: &kissat::Solution,
    x: kissat::Var,
) -> (value: Option<bool>)
    requires
        1 <= var_code(x) <= MAX_VARIABLES,
    ensures
        value == (if solution_values(*solution).contains_key(var_code(x)) {
            Some(solution_values(*solution)[var_code(x)])
        } else {
            None
        }),
;

/// The operator `!` on a `kissat::Var` gives the literal of the same
/// variable with the opposite sign.
#[verifier::external_body]
pub(crate) fn negated(var: kissat::Var) -> (result: kissat::Var)
    requires
        accepted_code(var_code(var)),
    ensures
        var_code(result) == -var_code(var),
{
    !var
}

} // verus!
