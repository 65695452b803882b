//! The formula under construction: its variable allocator, the compiler of
//! logic gates, the direct assertions, and the call that has it solved.

use crate::cnf::{
    agree_upto, and_clauses, code_within, codes_within, lemma_and_clauses, lemma_binary_clause,
    lemma_codes_within_push, lemma_gate_codes_within, lemma_or_clauses, lemma_satisfies_agree,
    lemma_satisfies_push, lemma_unit_clause, lemma_xor_clauses, literal_holds, or_clauses,
    satisfies, unsatisfiable, with_value, xor_clauses, Literal, Valuation, Variable,
    MAX_VARIABLES,
};
use crate::constraint::{
    constrains, lemma_constrains_asserted, lemma_constrains_same, lemma_definition, unconstrained,
};
use crate::oracle::{chosen, negated, solution_values, solver_clauses, solver_vars, var_code};
use vstd::prelude::*;

verus! {

/// A formula in conjunctive normal form that grows by whole clauses, and the
/// variables handed out for it so far.
pub struct Formula {
    solver: kissat::Solver,
    vars: Vec<kissat::Var>,
}

/// A value for every variable of a formula.
pub struct Assignment {
    values: Vec<bool>,
}

impl Formula {
    /// The clauses added so far, oldest first.
    pub closed spec fn clauses(&self) -> Seq<Seq<int>> {
        solver_clauses(self.solver)
    }

    /// The number of variables handed out so far; they are `1..=num_vars()`.
    pub closed spec fn num_vars(&self) -> int {
        self.vars@.len() as int
    }

    /// The invariant of the builder: the table of the solver's literals
    /// mirrors the variables handed out, and every clause speaks of those
    /// variables only.
    pub closed spec fn wf(&self) -> bool {
        &&& solver_vars(self.solver) == self.vars@.len()
        &&& self.vars@.len() <= MAX_VARIABLES
        &&& forall|i: int| 0 <= i < self.vars@.len() ==> var_code(#[trigger] self.vars@[i]) == i + 1
        &&& codes_within(solver_clauses(self.solver), self.vars@.len() as int)
    }

    /// Whether `lit` is a literal of a variable of this formula.
    pub open spec fn owns(&self, lit: Literal) -> bool {
        1 <= lit.var.id <= self.num_vars()
    }

    /// What a well-formed formula guarantees of its variables and clauses.
    pub proof fn lemma_wf(&self)
        requires
            self.wf(),
        ensures
            0 <= self.num_vars() <= MAX_VARIABLES,
            codes_within(self.clauses(), self.num_vars()),
    {
    }

    /// The empty formula: no variable, no clause.
    pub fn new() -> (formula: Formula)
        ensures
            formula.wf(),
            formula.num_vars() == 0,
            formula.clauses() == Seq::<Seq<int>>::empty(),
    {
        Formula { solver: kissat::Solver::new(), vars: Vec::new() }
    }

    /// The number of variables handed out so far.
    pub fn num_variables(&self) -> (n: u32)
        requires
            self.wf(),
        ensures
            n == self.num_vars(),
    {
        self.vars.len() as u32
    }

    /// Hands out a variable that was not in use before: the next identifier.
    pub fn new_variable(&mut self) -> (var: Variable)
        requires
            old(self).wf(),
            old(self).num_vars() < MAX_VARIABLES,
        ensures
            final(self).wf(),
            var.id == old(self).num_vars() + 1,
            final(self).num_vars() == old(self).num_vars() + 1,
            final(self).clauses() == old(self).clauses(),
    {
        let v = self.solver.var();
        self.vars.push(v);
        Variable { id: self.vars.len() as u32 }
    }

    /// The solver's literal for `lit`.
    fn solver_literal(&self, lit: Literal) -> (v: kissat::Var)
        requires
            self.wf(),
            self.owns(lit),
        ensures
            var_code(v) == lit.code(),
            code_within(lit.code(), self.num_vars()),
    {
        let v = self.vars[(lit.var.id - 1) as usize];
        if lit.positive {
            v
        } else {
            negated(v)
        }
    }

    /// Compiles the conjunction of `a` and `b`: takes a new variable, adds
    /// the three clauses that make it equivalent to `a && b`, and returns
    /// its positive literal.
    pub fn and(&mut self, a: Literal, b: Literal) -> (y: Literal)
        requires
            old(self).wf(),
            old(self).owns(a),
            old(self).owns(b),
            old(self).num_vars() < MAX_VARIABLES,
        ensures
            final(self).wf(),
            final(self).num_vars() == old(self).num_vars() + 1,
            y.positive,
            y.var.id == old(self).num_vars() + 1,
            final(self).owns(y),
            final(self).clauses() == old(self).clauses() + and_clauses(a.code(), b.code(), y.code()),
            forall|m: Valuation| #[trigger]
                satisfies(m, final(self).clauses()) ==> satisfies(m, old(self).clauses())
                    && y.holds(m) == (a.holds(m) && b.holds(m)),
            forall|m: Valuation, value: bool|
                satisfies(m, old(self).clauses()) && value == (a.holds(m) && b.holds(m))
                    ==> satisfies(
                    #[trigger] with_value(m, y.var.id as int, value),
                    final(self).clauses(),
                ),
            constrains(
                old(self).clauses(),
                old(self).num_vars(),
                final(self).clauses(),
                unconstrained(),
            ),
    {
        let va = self.solver_literal(a);
        let vb = self.solver_literal(b);
        let z = self.solver.and(va, vb);
        self.vars.push(z);
        let y = Literal { var: Variable { id: self.vars.len() as u32 }, positive: true };
        proof {
            let n = old(self).num_vars();
            let definition = and_clauses(a.code(), b.code(), y.code());
            lemma_gate_codes_within(a.code(), b.code(), y.code(), n + 1);
            assert forall|m: Valuation| #[trigger]
                satisfies(m, definition) == (literal_holds(m, n + 1) == (literal_holds(m, a.code())
                    && literal_holds(m, b.code()))) by {
                lemma_and_clauses(m, a.code(), b.code(), y.code());
            }
            lemma_definition(
                old(self).clauses(),
                n,
                definition,
                a.code(),
                b.code(),
                |x: bool, y: bool| x && y,
            );
        }
        y
    }

    /// Compiles the disjunction of `a` and `b`: takes a new variable, adds
    /// the three clauses that make it equivalent to `a || b`, and returns
    /// its positive literal.
    pub fn or(&mut self, a: Literal, b: Literal) -> (y: Literal)
        requires
            old(self).wf(),
            old(self).owns(a),
            old(self).owns(b),
            old(self).num_vars() < MAX_VARIABLES,
        ensures
            final(self).wf(),
            final(self).num_vars() == old(self).num_vars() + 1,
            y.positive,
            y.var.id == old(self).num_vars() + 1,
            final(self).owns(y),
            final(self).clauses() == old(self).clauses() + or_clauses(a.code(), b.code(), y.code()),
            forall|m: Valuation| #[trigger]
                satisfies(m, final(self).clauses()) ==> satisfies(m, old(self).clauses())
                    && y.holds(m) == (a.holds(m) || b.holds(m)),
            forall|m: Valuation, value: bool|
                satisfies(m, old(self).clauses()) && value == (a.holds(m) || b.holds(m))
                    ==> satisfies(
                    #[trigger] with_value(m, y.var.id as int, value),
                    final(self).clauses(),
                ),
            constrains(
                old(self).clauses(),
                old(self).num_vars(),
                final(self).clauses(),
                unconstrained(),
            ),
    {
        let va = self.solver_literal(a);
        let vb = self.solver_literal(b);
        let z = self.solver.or(va, vb);
        self.vars.push(z);
        let y = Literal { var: Variable { id: self.vars.len() as u32 }, positive: true };
        proof {
            let n = old(self).num_vars();
            let definition = or_clauses(a.code(), b.code(), y.code());
            lemma_gate_codes_within(a.code(), b.code(), y.code(), n + 1);
            assert forall|m: Valuation| #[trigger]
                satisfies(m, definition) == (literal_holds(m, n + 1) == (literal_holds(m, a.code())
                    || literal_holds(m, b.code()))) by {
                lemma_or_clauses(m, a.code(), b.code(), y.code());
            }
            lemma_definition(
                old(self).clauses(),
                n,
                definition,
                a.code(),
                b.code(),
                |x: bool, y: bool| x || y,
            );
        }
        y
    }

    /// Compiles the exclusive or of `a` and `b`: takes a new variable, adds
    /// the four clauses that make it equivalent to `a != b`, and returns
    /// its positive literal.
    pub fn xor(&mut self, a: Literal, b: Literal) -> (y: Literal)
        requires
            old(self).wf(),
            old(self).owns(a),
            old(self).owns(b),
            old(self).num_vars() < MAX_VARIABLES,
        ensures
            final(self).wf(),
            final(self).num_vars() == old(self).num_vars() + 1,
            y.positive,
            y.var.id == old(self).num_vars() + 1,
            final(self).owns(y),
            final(self).clauses() == old(self).clauses() + xor_clauses(a.code(), b.code(), y.code()),
            forall|m: Valuation| #[trigger]
                satisfies(m, final(self).clauses()) ==> satisfies(m, old(self).clauses())
                    && y.holds(m) == (a.holds(m) != b.holds(m)),
            forall|m: Valuation, value: bool|
                satisfies(m, old(self).clauses()) && value == (a.holds(m) != b.holds(m))
                    ==> satisfies(
                    #[trigger] with_value(m, y.var.id as int, value),
                    final(self).clauses(),
                ),
            constrains(
                old(self).clauses(),
                old(self).num_vars(),
                final(self).clauses(),
                unconstrained(),
            ),
    {
        let va = self.solver_literal(a);
        let vb = self.solver_literal(b);
        let z = self.solver.xor(va, vb);
        self.vars.push(z);
        let y = Literal { var: Variable { id: self.vars.len() as u32 }, positive: true };
        proof {
            let n = old(self).num_vars();
            let definition = xor_clauses(a.code(), b.code(), y.code());
            lemma_gate_codes_within(a.code(), b.code(), y.code(), n + 1);
            assert forall|m: Valuation| #[trigger]
                satisfies(m, definition) == (literal_holds(m, n + 1) == (literal_holds(m, a.code())
                    != literal_holds(m, b.code()))) by {
                lemma_xor_clauses(m, a.code(), b.code(), y.code());
            }
            lemma_definition(
                old(self).clauses(),
                n,
                definition,
                a.code(),
                b.code(),
                |x: bool, y: bool| x != y,
            );
        }
        y
    }

    /// Requires `a` to be true: adds the clause of the single literal `a`.
    pub fn assert_true(&mut self, a: Literal)
        requires
            old(self).wf(),
            old(self).owns(a),
        ensures
            final(self).wf(),
            final(self).num_vars() == old(self).num_vars(),
            final(self).clauses() == old(self).clauses().push(seq![a.code()]),
            forall|m: Valuation| #[trigger]
                satisfies(m, final(self).clauses()) == (satisfies(m, old(self).clauses())
                    && a.holds(m)),
            constrains(
                old(self).clauses(),
                old(self).num_vars(),
                final(self).clauses(),
                |m: Valuation| a.holds(m),
            ),
    {
        let va = self.solver_literal(a);
        self.solver.add1(va);
        proof {
            let before = old(self).clauses();
            let clause = seq![a.code()];
            assert(clause[0] == a.code());
            lemma_codes_within_push(before, clause, self.num_vars());
            assert forall|m: Valuation| #[trigger]
                satisfies(m, self.clauses()) == (satisfies(m, before) && a.holds(m)) by {
                lemma_satisfies_push(m, before, clause);
                lemma_unit_clause(m, a.code());
            }
            lemma_constrains_asserted(
                before,
                self.num_vars(),
                self.clauses(),
                |m: Valuation| a.holds(m),
            );
        }
    }

    /// Requires `a` to be false: adds the clause of the single literal that
    /// negates `a`.
    pub fn assert_false(&mut self, a: Literal)
        requires
            old(self).wf(),
            old(self).owns(a),
        ensures
            final(self).wf(),
            final(self).num_vars() == old(self).num_vars(),
            final(self).clauses() == old(self).clauses().push(seq![-a.code()]),
            forall|m: Valuation| #[trigger]
                satisfies(m, final(self).clauses()) == (satisfies(m, old(self).clauses())
                    && !a.holds(m)),
            constrains(
                old(self).clauses(),
                old(self).num_vars(),
                final(self).clauses(),
                |m: Valuation| !a.holds(m),
            ),
    {
        let negated = a.negate();
        self.assert_true(negated);
        proof {
            lemma_constrains_same(
                old(self).clauses(),
                old(self).num_vars(),
                self.clauses(),
                |m: Valuation| negated.holds(m),
                |m: Valuation| !a.holds(m),
            );
        }
    }

    /// Requires `a` or `b` to be true: adds the clause of the two literals.
    pub fn assert_any(&mut self, a: Literal, b: Literal)
        requires
            old(self).wf(),
            old(self).owns(a),
            old(self).owns(b),
        ensures
            final(self).wf(),
            final(self).num_vars() == old(self).num_vars(),
            final(self).clauses() == old(self).clauses().push(seq![a.code(), b.code()]),
            forall|m: Valuation| #[trigger]
                satisfies(m, final(self).clauses()) == (satisfies(m, old(self).clauses()) && (
                a.holds(m) || b.holds(m))),
            constrains(
                old(self).clauses(),
                old(self).num_vars(),
                final(self).clauses(),
                |m: Valuation| a.holds(m) || b.holds(m),
            ),
    {
        let va = self.solver_literal(a);
        let vb = self.solver_literal(b);
        self.solver.add2(va, vb);
        proof {
            let before = old(self).clauses();
            let clause = seq![a.code(), b.code()];
            assert(clause[0] == a.code() && clause[1] == b.code());
            lemma_codes_within_push(before, clause, self.num_vars());
            assert forall|m: Valuation| #[trigger]
                satisfies(m, self.clauses()) == (satisfies(m, before) && (a.holds(m) || b.holds(
                    m,
                ))) by {
                lemma_satisfies_push(m, before, clause);
                lemma_binary_clause(m, a.code(), b.code());
            }
            lemma_constrains_asserted(
                before,
                self.num_vars(),
                self.clauses(),
                |m: Valuation| a.holds(m) || b.holds(m),
            );
        }
    }

    /// Hands the formula to the solver. The answer is an assignment to all
    /// variables that makes every clause true, or `None` when there is no
    /// such assignment.
    pub fn solve(self) -> (result: Option<Assignment>)
        requires
            self.wf(),
        ensures
            match result {
                Some(assignment) => assignment.num_vars() == self.num_vars() && satisfies(
                    assignment.model(),
                    self.clauses(),
                ),
                None => unsatisfiable(self.clauses()),
            },
    {
        let ghost clauses = self.clauses();
        let Formula { solver, vars } = self;
        match solver.sat() {
            None => None,
            Some(solution) => {
                let ghost found = chosen(solution_values(solution));
                let mut values: Vec<bool> = Vec::new();
                let mut i: usize = 0;
                while i < vars.len()
                    invariant
                        i <= vars.len() <= MAX_VARIABLES,
                        values.len() == i,
                        forall|k: int| 0 <= k < vars.len() ==> var_code(#[trigger] vars[k]) == k + 1,
                        forall|k: int|
                            0 <= k < i ==> #[trigger] values[k] == chosen(solution_values(solution))(
                                k + 1,
                            ),
                    decreases vars.len() - i,
                {
                    let value = match solution.get(vars[i]) {
                        Some(b) => b,
                        None => false,
                    };
                    values.push(value);
                    i += 1;
                }
                let assignment = Assignment { values };
                proof {
                    assert(agree_upto(found, assignment.model(), vars.len() as int)) by {
                        assert forall|v: int| 1 <= v <= vars.len() implies #[trigger] found(v)
                            == assignment.model()(v) by {
                            assert(values[v - 1] == found(v - 1 + 1));
                        }
                    }
                    lemma_satisfies_agree(found, assignment.model(), clauses, vars.len() as int);
                }
                Some(assignment)
            },
        }
    }
}

impl Assignment {
    /// The number of variables that have a value; they are `1..=num_vars()`.
    pub closed spec fn num_vars(&self) -> int {
        self.values@.len() as int
    }

    /// The assignment as a function of the variable's identifier. Outside
    /// `1..=num_vars()` it is false.
    pub closed spec fn model(&self) -> Valuation {
        |v: int| 1 <= v <= self.values@.len() && self.values@[v - 1]
    }

    /// The number of variables that have a value.
    pub fn num_variables(&self) -> (n: usize)
        ensures
            n == self.num_vars(),
    {
        self.values.len()
    }

    /// The value given to `var`.
    pub fn value_of(&self, var: Variable) -> (value: bool)
        requires
            1 <= var.id <= self.num_vars(),
        ensures
            value == self.model()(var.id as int),
    {
        self.values[(var.id - 1) as usize]
    }

    /// Whether `lit` is true under the assignment.
    pub fn holds(&self, lit: Literal) -> (value: bool)
        requires
            1 <= lit.var.id <= self.num_vars(),
        ensures
            value == lit.holds(self.model()),
    {
        self.value_of(lit.var) == lit.positive
    }
}

} // verus!
