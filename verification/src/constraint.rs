//! What a step of the construction adds to a formula: the clauses that it
//! puts at the end, and the constraint that they amount to.
//!
//! Auxiliary variables make the second of these subtle. A step may take new
//! variables and define them by clauses. The formula then says more than
//! before, but nothing more about the variables that were there before:
//! every assignment that satisfied the formula can still be made to satisfy
//! it by choosing values for the new variables. `constrains` states of a
//! step which assignments of the old variables are left.

use crate::cnf::{
    agree_upto, code_within, codes_within, lemma_agree_upto, lemma_codes_within_concat,
    lemma_satisfies_concat, lemma_with_value_fresh, literal_holds, satisfies, with_value,
    Valuation,
};
use vstd::prelude::*;

verus! {

/// Whether `after` is `before` with `count` clauses added at its end.
pub open spec fn appended(before: Seq<Seq<int>>, after: Seq<Seq<int>>, count: int) -> bool {
    &&& after.len() == before.len() + count
    &&& after.subrange(0, before.len() as int) == before
}

/// Whether `m` can be changed on the variables beyond `1..=n` so as to
/// satisfy `clauses`.
pub open spec fn extends_to(m: Valuation, n: int, clauses: Seq<Seq<int>>) -> bool {
    exists|m2: Valuation| #[trigger] satisfies(m2, clauses) && agree_upto(m2, m, n)
}

/// Whether a property of assignments looks at the variables `1..=n` only.
pub open spec fn local_to(property: spec_fn(Valuation) -> bool, n: int) -> bool {
    forall|m1: Valuation, m2: Valuation| #[trigger]
        agree_upto(m1, m2, n) ==> property(m1) == property(m2)
}

/// Whether, seen from the variables `1..=n`, the formula `after` says what
/// `before` says together with `constraint`, no more and no less: every
/// assignment that satisfies `after` satisfies `before` and meets the
/// constraint, and every assignment that satisfies `before` and meets the
/// constraint can be changed beyond `1..=n` so as to satisfy `after`.
pub open spec fn constrains(
    before: Seq<Seq<int>>,
    n: int,
    after: Seq<Seq<int>>,
    constraint: spec_fn(Valuation) -> bool,
) -> bool {
    &&& forall|m: Valuation| #[trigger]
        satisfies(m, after) ==> satisfies(m, before) && constraint(m)
    &&& forall|m: Valuation|
        satisfies(m, before) && constraint(m) ==> #[trigger] extends_to(m, n, after)
}

/// The constraint that every assignment meets.
pub open spec fn unconstrained() -> spec_fn(Valuation) -> bool {
    |m: Valuation| true
}

/// A formula is itself with nothing added; with clauses put behind it, it is
/// itself with that many added.
pub proof fn lemma_appended(clauses: Seq<Seq<int>>, more: Seq<Seq<int>>)
    ensures
        appended(clauses, clauses, 0),
        appended(clauses, clauses + more, more.len() as int),
{
    assert(clauses.subrange(0, clauses.len() as int) =~= clauses);
    assert((clauses + more).subrange(0, clauses.len() as int) =~= clauses);
}

/// Adding to what was added adds both.
pub proof fn lemma_appended_chain(
    f0: Seq<Seq<int>>,
    f1: Seq<Seq<int>>,
    f2: Seq<Seq<int>>,
    first: int,
    second: int,
)
    requires
        appended(f0, f1, first),
        appended(f1, f2, second),
        0 <= first,
        0 <= second,
    ensures
        appended(f0, f2, first + second),
{
    assert(f2.subrange(0, f0.len() as int) =~= f2.subrange(0, f1.len() as int).subrange(
        0,
        f0.len() as int,
    ));
}

/// When `m` satisfies `clauses` once a variable beyond `1..=n` is given a
/// value, `m` extends to `clauses`.
pub proof fn lemma_with_value_extends(
    m: Valuation,
    n: int,
    var: int,
    value: bool,
    clauses: Seq<Seq<int>>,
)
    requires
        n < var,
        satisfies(with_value(m, var, value), clauses),
    ensures
        extends_to(m, n, clauses),
        agree_upto(with_value(m, var, value), m, n),
{
}

/// A formula adds no constraint to itself.
pub proof fn lemma_constrains_nothing(f: Seq<Seq<int>>, n: int, anything: spec_fn(Valuation) -> bool)
    requires
        forall|m: Valuation| #[trigger] anything(m),
    ensures
        constrains(f, n, f, anything),
{
    assert forall|m: Valuation| satisfies(m, f) && anything(m)
        implies #[trigger] extends_to(m, n, f) by {}
}

/// A constraint may be replaced by one that holds of the same assignments.
pub proof fn lemma_constrains_same(
    before: Seq<Seq<int>>,
    n: int,
    after: Seq<Seq<int>>,
    c1: spec_fn(Valuation) -> bool,
    c2: spec_fn(Valuation) -> bool,
)
    requires
        constrains(before, n, after, c1),
        forall|m: Valuation| #[trigger] c2(m) == c1(m),
    ensures
        constrains(before, n, after, c2),
{
    assert forall|m: Valuation| satisfies(m, before) && c2(m)
        implies #[trigger] extends_to(m, n, after) by {}
}

/// A formula that is satisfied exactly when another one is and a condition
/// holds adds that condition as a constraint.
pub proof fn lemma_constrains_asserted(
    before: Seq<Seq<int>>,
    n: int,
    after: Seq<Seq<int>>,
    constraint: spec_fn(Valuation) -> bool,
)
    requires
        forall|m: Valuation| #[trigger]
            satisfies(m, after) == (satisfies(m, before) && constraint(m)),
    ensures
        constrains(before, n, after, constraint),
{
    assert forall|m: Valuation| satisfies(m, before) && constraint(m)
        implies #[trigger] extends_to(m, n, after) by {
        assert(satisfies(m, after));
    }
}

/// Two constraints added one after the other add their conjunction, when the
/// second looks only at variables that were there before the first.
pub proof fn lemma_constrains_chain(
    f0: Seq<Seq<int>>,
    n0: int,
    f1: Seq<Seq<int>>,
    n1: int,
    f2: Seq<Seq<int>>,
    c1: spec_fn(Valuation) -> bool,
    c2: spec_fn(Valuation) -> bool,
    both: spec_fn(Valuation) -> bool,
)
    requires
        constrains(f0, n0, f1, c1),
        constrains(f1, n1, f2, c2),
        n0 <= n1,
        local_to(c2, n0),
        forall|m: Valuation| #[trigger] both(m) == (c1(m) && c2(m)),
    ensures
        constrains(f0, n0, f2, both),
{
    assert forall|m: Valuation| #[trigger] satisfies(m, f2)
        implies satisfies(m, f0) && both(m) by {}
    assert forall|m: Valuation| satisfies(m, f0) && both(m)
        implies #[trigger] extends_to(m, n0, f2) by {
        assert(extends_to(m, n0, f1));
        let m1 = choose|m1: Valuation| #[trigger] satisfies(m1, f1) && agree_upto(m1, m, n0);
        assert(extends_to(m1, n1, f2));
        let m2 = choose|m2: Valuation| #[trigger] satisfies(m2, f2) && agree_upto(m2, m1, n1);
        lemma_agree_upto(m2, m1, m, n0, n1);
    }
}

/// Defining a literal by new clauses and then requiring it adds what the
/// literal means as a constraint: `f1` extends `f0` without constraining it,
/// `stated` is what `f2` requires beyond `f1`, and wherever `f1` holds
/// `stated` is true exactly when `meaning` is.
pub proof fn lemma_constrains_defined(
    f0: Seq<Seq<int>>,
    n0: int,
    f1: Seq<Seq<int>>,
    f2: Seq<Seq<int>>,
    stated: spec_fn(Valuation) -> bool,
    meaning: spec_fn(Valuation) -> bool,
)
    requires
        constrains(f0, n0, f1, unconstrained()),
        forall|m: Valuation| #[trigger] satisfies(m, f1) ==> stated(m) == meaning(m),
        forall|m: Valuation| #[trigger] satisfies(m, f2) == (satisfies(m, f1) && stated(m)),
        local_to(meaning, n0),
    ensures
        constrains(f0, n0, f2, meaning),
{
    assert forall|m: Valuation| #[trigger] satisfies(m, f2)
        implies satisfies(m, f0) && meaning(m) by {}
    assert forall|m: Valuation| satisfies(m, f0) && meaning(m)
        implies #[trigger] extends_to(m, n0, f2) by {
        assert(extends_to(m, n0, f1));
        let m1 = choose|m1: Valuation| #[trigger] satisfies(m1, f1) && agree_upto(m1, m, n0);
        assert(satisfies(m1, f2));
    }
}

/// Clauses that define the next variable in terms of two literals extend a
/// formula without constraining it. The clauses `definition` are satisfied
/// exactly when the variable `n + 1` has the value that `op` gives for the
/// values of the literals `a` and `b`. Then under every assignment that
/// satisfies the extended formula the variable has that value, and every
/// assignment that satisfies the formula satisfies the extended formula once
/// the variable is given that value.
pub proof fn lemma_definition(
    before: Seq<Seq<int>>,
    n: int,
    definition: Seq<Seq<int>>,
    a: int,
    b: int,
    op: spec_fn(bool, bool) -> bool,
)
    requires
        0 <= n,
        codes_within(before, n),
        codes_within(definition, n + 1),
        code_within(a, n),
        code_within(b, n),
        forall|m: Valuation| #[trigger]
            satisfies(m, definition) == (literal_holds(m, n + 1) == op(
                literal_holds(m, a),
                literal_holds(m, b),
            )),
    ensures
        codes_within(before + definition, n + 1),
        forall|m: Valuation| #[trigger]
            satisfies(m, before + definition) ==> satisfies(m, before) && literal_holds(m, n + 1)
                == op(literal_holds(m, a), literal_holds(m, b)),
        forall|m: Valuation, value: bool|
            satisfies(m, before) && value == op(literal_holds(m, a), literal_holds(m, b))
                ==> satisfies(#[trigger] with_value(m, n + 1, value), before + definition),
        constrains(before, n, before + definition, unconstrained()),
{
    let after = before + definition;
    lemma_codes_within_concat(before, definition, n, n + 1);
    assert forall|m: Valuation| #[trigger] satisfies(m, after) implies satisfies(m, before)
        && literal_holds(m, n + 1) == op(literal_holds(m, a), literal_holds(m, b)) by {
        lemma_satisfies_concat(m, before, definition);
    }
    assert forall|m: Valuation, value: bool|
        satisfies(m, before) && value == op(
            literal_holds(m, a),
            literal_holds(m, b),
        ) implies satisfies(#[trigger] with_value(m, n + 1, value), after) by {
        let extended = with_value(m, n + 1, value);
        lemma_with_value_fresh(m, before, n, value, a, b);
        lemma_satisfies_concat(extended, before, definition);
    }
    assert forall|m: Valuation| satisfies(m, before)
        implies #[trigger] extends_to(m, n, after) by {
        let value = op(literal_holds(m, a), literal_holds(m, b));
        lemma_with_value_extends(m, n, n + 1, value, after);
    }
}

} // verus!
