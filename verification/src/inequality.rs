//! The test that two cells hold different values, built from logic gates
//! over the bits of the two cells.

use crate::board::{Board, BITS};
use crate::cnf::{
    agree_upto, or_clauses, satisfies, xor_clauses, Literal, Valuation, MAX_VARIABLES,
};
use crate::constraint::{
    appended, constrains, lemma_appended, lemma_constrains_chain, lemma_constrains_defined,
    local_to, unconstrained,
};
use crate::formula::Formula;
use vstd::prelude::*;

verus! {

/// Whether, under `m`, the two cells differ in one of their first `bits`
/// bits.
spec fn differ_in_bits(
    board: &Board,
    m: Valuation,
    row_a: int,
    column_a: int,
    row_b: int,
    column_b: int,
    bits: int,
) -> bool {
    exists|bit: int|
        0 <= bit < bits && #[trigger] m(board.var_at(row_a, column_a, bit)) != m(
            board.var_at(row_b, column_b, bit),
        )
}

/// Two cells have different values exactly when they differ in one of their
/// four bits.
proof fn lemma_differ_in_bits(
    board: &Board,
    m: Valuation,
    row_a: int,
    column_a: int,
    row_b: int,
    column_b: int,
)
    ensures
        differ_in_bits(board, m, row_a, column_a, row_b, column_b, 4) == (board.cell_value(
            m,
            row_a,
            column_a,
        ) != board.cell_value(m, row_b, column_b)),
{
    if board.cell_value(m, row_a, column_a) != board.cell_value(m, row_b, column_b) {
        if m(board.var_at(row_a, column_a, 0)) != m(board.var_at(row_b, column_b, 0)) {
        } else if m(board.var_at(row_a, column_a, 1)) != m(board.var_at(row_b, column_b, 1)) {
        } else if m(board.var_at(row_a, column_a, 2)) != m(board.var_at(row_b, column_b, 2)) {
        } else {
            assert(m(board.var_at(row_a, column_a, 3)) != m(board.var_at(row_b, column_b, 3)));
        }
    }
}

/// The clauses that define, with variables from `n + 1` on, the literal that
/// is true exactly when two cells differ in one of their first `bits` bits.
/// The first bits are compared by an exclusive or. Each further pair of bits
/// is compared by an exclusive or as well, whose result is joined by an or
/// to the result for the bits before it.
pub open spec fn difference_clauses(
    board: &Board,
    n: int,
    row_a: int,
    column_a: int,
    row_b: int,
    column_b: int,
    bits: int,
) -> Seq<Seq<int>>
    decreases bits,
{
    if bits <= 1 {
        xor_clauses(board.var_at(row_a, column_a, 0), board.var_at(row_b, column_b, 0), n + 1)
    } else {
        difference_clauses(board, n, row_a, column_a, row_b, column_b, bits - 1) + xor_clauses(
            board.var_at(row_a, column_a, bits - 1),
            board.var_at(row_b, column_b, bits - 1),
            n + 2 * bits - 2,
        ) + or_clauses(n + 2 * bits - 3, n + 2 * bits - 2, n + 2 * bits - 1)
    }
}

/// The literal for the difference in four bits takes 25 clauses: four times
/// the four of an exclusive or, three times the three of an or.
pub proof fn lemma_difference_clauses_len(
    board: &Board,
    n: int,
    row_a: int,
    column_a: int,
    row_b: int,
    column_b: int,
)
    ensures
        difference_clauses(board, n, row_a, column_a, row_b, column_b, 4).len() == 25,
{
    reveal_with_fuel(difference_clauses, 4);
}

/// Builds the literal that is true exactly when the two cells hold different
/// values: the exclusive or of each pair of bits, joined by or from the most
/// significant bit down.
pub fn not_equal(
    formula: &mut Formula,
    board: &Board,
    row_a: usize,
    column_a: usize,
    row_b: usize,
    column_b: usize,
) -> (ne: Literal)
    requires
        old(formula).wf(),
        board.wf(),
        board.last() <= old(formula).num_vars(),
        old(formula).num_vars() + 7 <= MAX_VARIABLES,
        row_a < 9,
        column_a < 9,
        row_b < 9,
        column_b < 9,
    ensures
        final(formula).wf(),
        final(formula).num_vars() == old(formula).num_vars() + 7,
        ne.positive,
        ne.var.id == final(formula).num_vars(),
        final(formula).owns(ne),
        final(formula).clauses() == old(formula).clauses() + difference_clauses(
            board,
            old(formula).num_vars(),
            row_a as int,
            column_a as int,
            row_b as int,
            column_b as int,
            4,
        ),
        constrains(
            old(formula).clauses(),
            old(formula).num_vars(),
            final(formula).clauses(),
            unconstrained(),
        ),
        forall|m: Valuation| #[trigger]
            satisfies(m, final(formula).clauses()) ==> ne.holds(m) == (board.cell_value(
                m,
                row_a as int,
                column_a as int,
            ) != board.cell_value(m, row_b as int, column_b as int)),
{
    let ghost f0 = formula.clauses();
    let ghost n0 = formula.num_vars();
    proof {
        board.lemma_wf();
    }
    let mut ne = formula.xor(board.bit(row_a, column_a, 0), board.bit(row_b, column_b, 0));
    for bit in 1..BITS
        invariant
            formula.wf(),
            board.wf(),
            1 <= board.first(),
            board.last() <= n0,
            n0 + 7 <= MAX_VARIABLES,
            row_a < 9,
            column_a < 9,
            row_b < 9,
            column_b < 9,
            formula.num_vars() == n0 + 2 * bit - 1,
            ne.positive,
            ne.var.id == formula.num_vars(),
            formula.clauses() == f0 + difference_clauses(
                board,
                n0,
                row_a as int,
                column_a as int,
                row_b as int,
                column_b as int,
                bit as int,
            ),
            constrains(f0, n0, formula.clauses(), unconstrained()),
            forall|m: Valuation| #[trigger]
                satisfies(m, formula.clauses()) ==> ne.holds(m) == differ_in_bits(
                    board,
                    m,
                    row_a as int,
                    column_a as int,
                    row_b as int,
                    column_b as int,
                    bit as int,
                ),
    {
        let ghost f1 = formula.clauses();
        let ghost n1 = formula.num_vars();
        let bit_a = board.bit(row_a, column_a, bit);
        let bit_b = board.bit(row_b, column_b, bit);
        let ne_bit = formula.xor(bit_a, bit_b);
        let ghost f2 = formula.clauses();
        let joined = formula.or(ne, ne_bit);
        proof {
            let so_far = difference_clauses(
                board,
                n0,
                row_a as int,
                column_a as int,
                row_b as int,
                column_b as int,
                bit as int,
            );
            let compared = xor_clauses(bit_a.code(), bit_b.code(), ne_bit.code());
            let merged = or_clauses(ne.code(), ne_bit.code(), joined.code());
            assert(f0 + so_far + compared + merged =~= f0 + (so_far + compared + merged));
            let free = unconstrained();
            lemma_constrains_chain(f0, n0, f1, n1, f2, free, free, free);
            lemma_constrains_chain(f0, n0, f2, n1 + 1, formula.clauses(), free, free, free);
            assert forall|m: Valuation| #[trigger] satisfies(m, formula.clauses()) implies joined.holds(
                m,
            ) == differ_in_bits(
                board,
                m,
                row_a as int,
                column_a as int,
                row_b as int,
                column_b as int,
                bit + 1,
            ) by {
                assert(satisfies(m, f2));
                assert(satisfies(m, f1));
                assert(ne_bit.holds(m) == (m(board.var_at(row_a as int, column_a as int, bit as int))
                    != m(board.var_at(row_b as int, column_b as int, bit as int))));
            }
        }
        ne = joined;
    }
    proof {
        assert forall|m: Valuation| #[trigger] satisfies(m, formula.clauses()) implies ne.holds(m)
            == (board.cell_value(m, row_a as int, column_a as int) != board.cell_value(
            m,
            row_b as int,
            column_b as int,
        )) by {
            lemma_differ_in_bits(
                board,
                m,
                row_a as int,
                column_a as int,
                row_b as int,
                column_b as int,
            );
        }
    }
    ne
}

/// The constraint that two cells hold different values.
pub open spec fn cells_differ(
    board: &Board,
    row_a: int,
    column_a: int,
    row_b: int,
    column_b: int,
) -> spec_fn(Valuation) -> bool {
    |m: Valuation| board.cell_value(m, row_a, column_a) != board.cell_value(m, row_b, column_b)
}

/// Whether two cells differ looks at the variables of the board only.
pub proof fn lemma_cells_differ_local(
    board: &Board,
    n: int,
    row_a: int,
    column_a: int,
    row_b: int,
    column_b: int,
)
    requires
        board.wf(),
        board.last() <= n,
        0 <= row_a < 9,
        0 <= column_a < 9,
        0 <= row_b < 9,
        0 <= column_b < 9,
    ensures
        local_to(cells_differ(board, row_a, column_a, row_b, column_b), n),
{
    let c = cells_differ(board, row_a, column_a, row_b, column_b);
    assert forall|m1: Valuation, m2: Valuation| #[trigger] agree_upto(m1, m2, n)
        implies c(m1) == c(m2) by {
        board.lemma_cell_value_agree(m1, m2, n, row_a, column_a);
        board.lemma_cell_value_agree(m1, m2, n, row_b, column_b);
    }
}

/// Requires the two cells to hold different values.
pub fn assert_different(
    formula: &mut Formula,
    board: &Board,
    row_a: usize,
    column_a: usize,
    row_b: usize,
    column_b: usize,
)
    requires
        old(formula).wf(),
        board.wf(),
        board.last() <= old(formula).num_vars(),
        old(formula).num_vars() + 7 <= MAX_VARIABLES,
        row_a < 9,
        column_a < 9,
        row_b < 9,
        column_b < 9,
    ensures
        final(formula).wf(),
        final(formula).num_vars() == old(formula).num_vars() + 7,
        final(formula).clauses() == (old(formula).clauses() + difference_clauses(
            board,
            old(formula).num_vars(),
            row_a as int,
            column_a as int,
            row_b as int,
            column_b as int,
            4,
        )).push(seq![old(formula).num_vars() + 7]),
        appended(old(formula).clauses(), final(formula).clauses(), 26),
        constrains(
            old(formula).clauses(),
            old(formula).num_vars(),
            final(formula).clauses(),
            cells_differ(board, row_a as int, column_a as int, row_b as int, column_b as int),
        ),
{
    let ghost f0 = formula.clauses();
    let ghost n0 = formula.num_vars();
    let ne = not_equal(formula, board, row_a, column_a, row_b, column_b);
    let ghost f1 = formula.clauses();
    formula.assert_true(ne);
    proof {
        let definition = difference_clauses(
            board,
            n0,
            row_a as int,
            column_a as int,
            row_b as int,
            column_b as int,
            4,
        );
        lemma_difference_clauses_len(
            board,
            n0,
            row_a as int,
            column_a as int,
            row_b as int,
            column_b as int,
        );
        assert(formula.clauses() =~= f0 + definition.push(seq![n0 + 7]));
        lemma_appended(f0, definition.push(seq![n0 + 7]));
        lemma_cells_differ_local(
            board,
            n0,
            row_a as int,
            column_a as int,
            row_b as int,
            column_b as int,
        );
        lemma_constrains_defined(
            f0,
            n0,
            f1,
            formula.clauses(),
            |m: Valuation| ne.holds(m),
            cells_differ(board, row_a as int, column_a as int, row_b as int, column_b as int),
        );
    }
}

} // verus!
