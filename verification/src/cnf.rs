//! Variables, literals, clauses and what it means for a truth assignment to
//! satisfy a formula in conjunctive normal form.
//!
//! A clause is modelled as the sequence of the codes of its literals: the
//! code of a literal is the identifier of its variable, taken negative when
//! the literal is negated. A formula is the sequence of its clauses, in the
//! order in which they were added.

use vstd::prelude::*;

verus! {

/// Largest identifier a variable can have.
pub const MAX_VARIABLES: u32 = 0x0fff_ffff;

/// An atomic boolean variable, known by its positive identifier.
#[derive(Clone, Copy, PartialEq, Eq, Debug, Structural)]
pub struct Variable {
    pub id: u32,
}

/// A variable together with a polarity: the variable itself when `positive`,
/// its negation otherwise.
#[derive(Clone, Copy, PartialEq, Eq, Debug, Structural)]
pub struct Literal {
    pub var: Variable,
    pub positive: bool,
}

/// A truth assignment: the value given to each variable identifier.
pub type Valuation = spec_fn(int) -> bool;

impl Literal {
    /// The code of the literal: its variable's identifier, negative for a
    /// negated literal.
    pub open spec fn code(self) -> int {
        if self.positive {
            self.var.id as int
        } else {
            -(self.var.id as int)
        }
    }

    /// Whether the literal is true under `m`.
    pub open spec fn holds(self, m: Valuation) -> bool {
        m(self.var.id as int) == self.positive
    }

    /// The literal that asserts `var`.
    pub fn positive(var: Variable) -> (lit: Literal)
        ensures
            lit == (Literal { var, positive: true }),
    {
        Literal { var, positive: true }
    }

    /// The literal that denies `var`.
    pub fn negative(var: Variable) -> (lit: Literal)
        ensures
            lit == (Literal { var, positive: false }),
    {
        Literal { var, positive: false }
    }

    /// The logical negation: same variable, opposite polarity.
    pub fn negate(self) -> (lit: Literal)
        ensures
            lit == (Literal { var: self.var, positive: !self.positive }),
            lit.code() == -self.code(),
            forall|m: Valuation| lit.holds(m) == !self.holds(m),
    {
        Literal { var: self.var, positive: !self.positive }
    }
}

/// Whether `code` names a literal of one of the variables `1..=n`.
pub open spec fn code_within(code: int, n: int) -> bool {
    (1 <= code <= n) || (1 <= -code <= n)
}

/// Whether every literal of every clause is of one of the variables `1..=n`.
pub open spec fn codes_within(clauses: Seq<Seq<int>>, n: int) -> bool {
    forall|i: int, j: int|
        0 <= i < clauses.len() && 0 <= j < clauses[i].len() ==> code_within(
            #[trigger] clauses[i][j],
            n,
        )
}

/// Whether the literal with code `code` is true under `m`.
pub open spec fn literal_holds(m: Valuation, code: int) -> bool {
    if code > 0 {
        m(code)
    } else {
        !m(-code)
    }
}

/// Whether at least one literal of `clause` is true under `m`.
pub open spec fn clause_holds(m: Valuation, clause: Seq<int>) -> bool {
    exists|j: int| 0 <= j < clause.len() && literal_holds(m, #[trigger] clause[j])
}

/// Whether every clause of `clauses` is true under `m`.
pub open spec fn satisfies(m: Valuation, clauses: Seq<Seq<int>>) -> bool {
    forall|i: int| 0 <= i < clauses.len() ==> clause_holds(m, #[trigger] clauses[i])
}

/// Whether no truth assignment makes every clause of `clauses` true.
pub open spec fn unsatisfiable(clauses: Seq<Seq<int>>) -> bool {
    forall|m: Valuation| !satisfies(m, clauses)
}

/// Whether `m1` and `m2` give the same value to each of the variables `1..=n`.
pub open spec fn agree_upto(m1: Valuation, m2: Valuation, n: int) -> bool {
    forall|v: int| 1 <= v <= n ==> #[trigger] m1(v) == m2(v)
}

/// The assignment that gives `value` to `var` and is `m` everywhere else.
pub open spec fn with_value(m: Valuation, var: int, value: bool) -> Valuation {
    |v: int|
        if v == var {
            value
        } else {
            m(v)
        }
}

/// The clauses that make `z` equivalent to the conjunction of `a` and `b`.
pub open spec fn and_clauses(a: int, b: int, z: int) -> Seq<Seq<int>> {
    seq![seq![-a, -b, z], seq![a, -z], seq![b, -z]]
}

/// The clauses that make `z` equivalent to the disjunction of `a` and `b`.
pub open spec fn or_clauses(a: int, b: int, z: int) -> Seq<Seq<int>> {
    seq![seq![a, b, -z], seq![-a, z], seq![-b, z]]
}

/// The clauses that make `z` equivalent to the exclusive or of `a` and `b`.
pub open spec fn xor_clauses(a: int, b: int, z: int) -> Seq<Seq<int>> {
    seq![seq![-a, -b, -z], seq![a, b, -z], seq![a, -b, z], seq![-a, b, z]]
}

/// A formula followed by further clauses is satisfied exactly when both
/// parts are.
pub proof fn lemma_satisfies_concat(m: Valuation, first: Seq<Seq<int>>, second: Seq<Seq<int>>)
    ensures
        satisfies(m, first + second) == (satisfies(m, first) && satisfies(m, second)),
{
    let both = first + second;
    if satisfies(m, both) {
        assert forall|i: int| 0 <= i < first.len() implies clause_holds(m, #[trigger] first[i]) by {
            assert(both[i] == first[i]);
        }
        assert forall|i: int| 0 <= i < second.len() implies clause_holds(
            m,
            #[trigger] second[i],
        ) by {
            assert(both[first.len() + i] == second[i]);
        }
    }
    if satisfies(m, first) && satisfies(m, second) {
        assert forall|i: int| 0 <= i < both.len() implies clause_holds(m, #[trigger] both[i]) by {}
    }
}

/// A formula with one more clause is satisfied exactly when the formula and
/// the clause are.
pub proof fn lemma_satisfies_push(m: Valuation, clauses: Seq<Seq<int>>, clause: Seq<int>)
    ensures
        satisfies(m, clauses.push(clause)) == (satisfies(m, clauses) && clause_holds(m, clause)),
{
    assert(clauses.push(clause) =~= clauses + seq![clause]);
    lemma_satisfies_concat(m, clauses, seq![clause]);
    assert(seq![clause][0] == clause);
}

/// Two assignments that agree on the variables of a formula satisfy it
/// together or not at all.
pub proof fn lemma_satisfies_agree(m1: Valuation, m2: Valuation, clauses: Seq<Seq<int>>, n: int)
    requires
        codes_within(clauses, n),
        agree_upto(m1, m2, n),
    ensures
        satisfies(m1, clauses) == satisfies(m2, clauses),
{
    assert forall|i: int| 0 <= i < clauses.len() implies clause_holds(m1, #[trigger] clauses[i])
        == clause_holds(m2, clauses[i]) by {
        let c = clauses[i];
        assert forall|j: int| 0 <= j < c.len() implies literal_holds(m1, #[trigger] c[j])
            == literal_holds(m2, c[j]) by {}
    }
}

/// Clauses over the variables `1..=n_first` followed by clauses over the
/// variables `1..=n` are clauses over `1..=n`, when `n_first <= n`.
pub proof fn lemma_codes_within_concat(
    first: Seq<Seq<int>>,
    second: Seq<Seq<int>>,
    n_first: int,
    n: int,
)
    requires
        codes_within(first, n_first),
        codes_within(second, n),
        n_first <= n,
    ensures
        codes_within(first + second, n),
{
    let both = first + second;
    assert forall|i: int, j: int| 0 <= i < both.len() && 0 <= j < both[i].len() implies code_within(
        #[trigger] both[i][j],
        n,
    ) by {}
}

/// Adding a clause over the variables `1..=n` to clauses over them gives
/// clauses over them.
pub proof fn lemma_codes_within_push(clauses: Seq<Seq<int>>, clause: Seq<int>, n: int)
    requires
        codes_within(clauses, n),
        forall|j: int| 0 <= j < clause.len() ==> code_within(#[trigger] clause[j], n),
    ensures
        codes_within(clauses.push(clause), n),
{
    let all = clauses.push(clause);
    assert forall|i: int, j: int| 0 <= i < all.len() && 0 <= j < all[i].len() implies code_within(
        #[trigger] all[i][j],
        n,
    ) by {}
}

/// The clauses of a gate speak of its three variables only.
pub proof fn lemma_gate_codes_within(a: int, b: int, z: int, n: int)
    requires
        code_within(a, n),
        code_within(b, n),
        code_within(z, n),
    ensures
        codes_within(and_clauses(a, b, z), n),
        codes_within(or_clauses(a, b, z), n),
        codes_within(xor_clauses(a, b, z), n),
{
    let f = and_clauses(a, b, z);
    assert forall|i: int, j: int| 0 <= i < f.len() && 0 <= j < f[i].len() implies code_within(
        #[trigger] f[i][j],
        n,
    ) by {}
    let g = or_clauses(a, b, z);
    assert forall|i: int, j: int| 0 <= i < g.len() && 0 <= j < g[i].len() implies code_within(
        #[trigger] g[i][j],
        n,
    ) by {}
    let h = xor_clauses(a, b, z);
    assert(h[0] == seq![-a, -b, -z] && h[1] == seq![a, b, -z] && h[2] == seq![a, -b, z] && h[3]
        == seq![-a, b, z]);
    assert forall|i: int, j: int| 0 <= i < h.len() && 0 <= j < h[i].len() implies code_within(
        #[trigger] h[i][j],
        n,
    ) by {}
}

/// Giving a value to the variable after the last one of a formula changes
/// neither whether the formula is satisfied nor the value of a literal of
/// its variables.
pub proof fn lemma_with_value_fresh(
    m: Valuation,
    clauses: Seq<Seq<int>>,
    n: int,
    value: bool,
    a: int,
    b: int,
)
    requires
        0 <= n,
        codes_within(clauses, n),
        code_within(a, n),
        code_within(b, n),
    ensures
        agree_upto(with_value(m, n + 1, value), m, n),
        satisfies(with_value(m, n + 1, value), clauses) == satisfies(m, clauses),
        literal_holds(with_value(m, n + 1, value), a) == literal_holds(m, a),
        literal_holds(with_value(m, n + 1, value), b) == literal_holds(m, b),
        literal_holds(with_value(m, n + 1, value), n + 1) == value,
{
    lemma_satisfies_agree(with_value(m, n + 1, value), m, clauses, n);
}

/// Agreement on `1..=n` is symmetric, passes on to a shorter range, and
/// passes along a chain.
pub proof fn lemma_agree_upto(m1: Valuation, m2: Valuation, m3: Valuation, n: int, n_more: int)
    requires
        n <= n_more,
        agree_upto(m1, m2, n_more),
        agree_upto(m2, m3, n),
    ensures
        agree_upto(m2, m1, n_more),
        agree_upto(m1, m2, n),
        agree_upto(m1, m3, n),
{
    assert forall|v: int| 1 <= v <= n_more implies #[trigger] m2(v) == m1(v) by {}
    assert forall|v: int| 1 <= v <= n implies #[trigger] m1(v) == m3(v) by {}
}

/// A unit clause is true exactly when its literal is.
pub proof fn lemma_unit_clause(m: Valuation, a: int)
    ensures
        clause_holds(m, seq![a]) == literal_holds(m, a),
{
    let c = seq![a];
    assert(c[0] == a);
}

/// A clause of two literals is true exactly when one of them is.
pub proof fn lemma_binary_clause(m: Valuation, a: int, b: int)
    ensures
        clause_holds(m, seq![a, b]) == (literal_holds(m, a) || literal_holds(m, b)),
{
}

/// A clause of three literals is true exactly when one of them is.
pub proof fn lemma_ternary_clause(m: Valuation, a: int, b: int, c: int)
    ensures
        clause_holds(m, seq![a, b, c]) == (literal_holds(m, a) || literal_holds(m, b)
            || literal_holds(m, c)),
{
}

/// The clauses of a conjunction are satisfied exactly by the assignments
/// under which `z` has the value of `a` and `b`.
pub proof fn lemma_and_clauses(m: Valuation, a: int, b: int, z: int)
    requires
        a != 0,
        b != 0,
        z != 0,
    ensures
        satisfies(m, and_clauses(a, b, z)) == (literal_holds(m, z) == (literal_holds(m, a)
            && literal_holds(m, b))),
{
    lemma_ternary_clause(m, -a, -b, z);
    lemma_binary_clause(m, a, -z);
    lemma_binary_clause(m, b, -z);
}

/// The clauses of a disjunction are satisfied exactly by the assignments
/// under which `z` has the value of `a` or `b`.
pub proof fn lemma_or_clauses(m: Valuation, a: int, b: int, z: int)
    requires
        a != 0,
        b != 0,
        z != 0,
    ensures
        satisfies(m, or_clauses(a, b, z)) == (literal_holds(m, z) == (literal_holds(m, a)
            || literal_holds(m, b))),
{
    lemma_ternary_clause(m, a, b, -z);
    lemma_binary_clause(m, -a, z);
    lemma_binary_clause(m, -b, z);
}

/// The clauses of an exclusive or are satisfied exactly by the assignments
/// under which `z` is true when exactly one of `a` and `b` is.
pub proof fn lemma_xor_clauses(m: Valuation, a: int, b: int, z: int)
    requires
        a != 0,
        b != 0,
        z != 0,
    ensures
        satisfies(m, xor_clauses(a, b, z)) == (literal_holds(m, z) == (literal_holds(m, a)
            != literal_holds(m, b))),
{
    let f = xor_clauses(a, b, z);
    lemma_ternary_clause(m, -a, -b, -z);
    lemma_ternary_clause(m, a, b, -z);
    lemma_ternary_clause(m, a, -b, z);
    lemma_ternary_clause(m, -a, b, z);
    assert(f[0] == seq![-a, -b, -z] && f[1] == seq![a, b, -z] && f[2] == seq![a, -b, z] && f[3]
        == seq![-a, b, z]);
    if satisfies(m, f) {
        assert(clause_holds(m, f[0]) && clause_holds(m, f[1]) && clause_holds(m, f[2])
            && clause_holds(m, f[3]));
    }
}

} // verus!
