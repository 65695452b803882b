//! The cells that are given with the puzzle: each is held to its value bit by
//! bit.

use crate::board::{bit_weight, Board, BITS};
use crate::cnf::{agree_upto, satisfies, Valuation};
use crate::constraint::{
    appended, constrains, lemma_appended, lemma_appended_chain, lemma_constrains_asserted,
    lemma_constrains_chain, lemma_constrains_nothing, lemma_constrains_same, local_to,
};
use crate::formula::Formula;
use crate::grid::FixedCell;
use vstd::prelude::*;

verus! {

/// Whether the bit at position `bit` is set in the four-bit number `number`.
pub open spec fn bit_is_set(number: int, bit: int) -> bool {
    (number / bit_weight(bit)) % 2 == 1
}

/// Whether, under `m`, each of the first `bits` bits of a cell is as in
/// `number`.
spec fn spells_in_bits(
    board: &Board,
    m: Valuation,
    row: int,
    column: int,
    number: int,
    bits: int,
) -> bool {
    forall|bit: int|
        0 <= bit < bits ==> #[trigger] m(board.var_at(row, column, bit)) == bit_is_set(number, bit)
}

/// A cell holds a number below 16 exactly when each of its four bits is as
/// in the number.
proof fn lemma_spells_in_bits(board: &Board, m: Valuation, row: int, column: int, number: int)
    requires
        0 <= number < 16,
    ensures
        spells_in_bits(board, m, row, column, number, 4) == (board.cell_value(m, row, column)
            == number),
{
    if spells_in_bits(board, m, row, column, number, 4) {
        assert(m(board.var_at(row, column, 0)) == bit_is_set(number, 0));
        assert(m(board.var_at(row, column, 1)) == bit_is_set(number, 1));
        assert(m(board.var_at(row, column, 2)) == bit_is_set(number, 2));
        assert(m(board.var_at(row, column, 3)) == bit_is_set(number, 3));
    }
    if board.cell_value(m, row, column) == number {
        assert forall|bit: int| 0 <= bit < 4 implies #[trigger] m(board.var_at(row, column, bit))
            == bit_is_set(number, bit) by {
            assert(bit == 0 || bit == 1 || bit == 2 || bit == 3);
        }
    }
}

/// Whether the bit at position `bit` is set in `number`.
pub fn has_bit(number: u8, bit: usize) -> (set: bool)
    requires
        number < 16,
        bit < 4,
    ensures
        set == bit_is_set(number as int, bit as int),
{
    let mask: u8 = 1u8 << (BITS - bit - 1);
    proof {
        assert(number & (1u8 << 3) != 0 <==> (number / 8) % 2 == 1) by (bit_vector)
            requires
                number < 16,
        ;
        assert(number & (1u8 << 2) != 0 <==> (number / 4) % 2 == 1) by (bit_vector)
            requires
                number < 16,
        ;
        assert(number & (1u8 << 1) != 0 <==> (number / 2) % 2 == 1) by (bit_vector)
            requires
                number < 16,
        ;
        assert(number & (1u8 << 0) != 0 <==> (number / 1) % 2 == 1) by (bit_vector)
            requires
                number < 16,
        ;
    }
    number & mask != 0
}

/// The clauses that hold the first `bits` bits of a cell to `number`: for
/// each bit the clause of its single literal, positive when the bit is set
/// in `number` and negative when it is not.
pub open spec fn given_clauses(
    board: &Board,
    row: int,
    column: int,
    number: int,
    bits: int,
) -> Seq<Seq<int>> {
    Seq::new(
        bits as nat,
        |bit: int|
            seq![
                if bit_is_set(number, bit) {
                    board.var_at(row, column, bit)
                } else {
                    -board.var_at(row, column, bit)
                },
            ],
    )
}

/// The constraint that a cell holds `number`.
pub open spec fn cell_holds(board: &Board, row: int, column: int, number: int) -> spec_fn(
    Valuation,
) -> bool {
    |m: Valuation| board.cell_value(m, row, column) == number
}

/// Whether a cell holds a number looks at the variables of the board only.
pub proof fn lemma_cell_holds_local(board: &Board, n: int, row: int, column: int, number: int)
    requires
        board.wf(),
        board.last() <= n,
        0 <= row < 9,
        0 <= column < 9,
    ensures
        local_to(cell_holds(board, row, column, number), n),
{
    let c = cell_holds(board, row, column, number);
    assert forall|m1: Valuation, m2: Valuation| #[trigger] agree_upto(m1, m2, n)
        implies c(m1) == c(m2) by {
        board.lemma_cell_value_agree(m1, m2, n, row, column);
    }
}

/// Holds a cell to `number`, one of 0 to 8: each bit of the cell is required
/// to be as in the number.
pub fn assign(formula: &mut Formula, board: &Board, row: usize, column: usize, number: u8)
    requires
        old(formula).wf(),
        board.wf(),
        board.last() <= old(formula).num_vars(),
        row < 9,
        column < 9,
        number <= 8,
    ensures
        final(formula).wf(),
        final(formula).num_vars() == old(formula).num_vars(),
        final(formula).clauses() == old(formula).clauses() + given_clauses(
            board,
            row as int,
            column as int,
            number as int,
            4,
        ),
        appended(old(formula).clauses(), final(formula).clauses(), 4),
        forall|m: Valuation| #[trigger]
            satisfies(m, final(formula).clauses()) == (satisfies(m, old(formula).clauses())
                && board.cell_value(m, row as int, column as int) == number),
        constrains(
            old(formula).clauses(),
            old(formula).num_vars(),
            final(formula).clauses(),
            cell_holds(board, row as int, column as int, number as int),
        ),
{
    let ghost f0 = formula.clauses();
    proof {
        board.lemma_wf();
    }
    for bit in 0..BITS
        invariant
            formula.wf(),
            board.wf(),
            1 <= board.first(),
            board.last() <= formula.num_vars(),
            formula.num_vars() == old(formula).num_vars(),
            row < 9,
            column < 9,
            number <= 8,
            formula.clauses() == f0 + given_clauses(
                board,
                row as int,
                column as int,
                number as int,
                bit as int,
            ),
            forall|m: Valuation| #[trigger]
                satisfies(m, formula.clauses()) == (satisfies(m, f0) && spells_in_bits(
                    board,
                    m,
                    row as int,
                    column as int,
                    number as int,
                    bit as int,
                )),
    {
        let ghost f1 = formula.clauses();
        let lit = board.bit(row, column, bit);
        let set = has_bit(number, bit);
        if set {
            formula.assert_true(lit);
        } else {
            formula.assert_false(lit);
        }
        proof {
            assert(formula.clauses() =~= f0 + given_clauses(
                board,
                row as int,
                column as int,
                number as int,
                bit + 1,
            ));
            assert forall|m: Valuation| #[trigger]
                satisfies(m, formula.clauses()) == (satisfies(m, f0) && spells_in_bits(
                    board,
                    m,
                    row as int,
                    column as int,
                    number as int,
                    bit + 1,
                )) by {
                assert(satisfies(m, formula.clauses()) == (satisfies(m, f1) && m(
                    board.var_at(row as int, column as int, bit as int),
                ) == set));
                assert(satisfies(m, f1) == (satisfies(m, f0) && spells_in_bits(
                    board,
                    m,
                    row as int,
                    column as int,
                    number as int,
                    bit as int,
                )));
            }
        }
    }
    proof {
        lemma_appended(f0, given_clauses(board, row as int, column as int, number as int, 4));
        assert forall|m: Valuation| #[trigger]
            satisfies(m, formula.clauses()) == (satisfies(m, f0) && board.cell_value(
                m,
                row as int,
                column as int,
            ) == number) by {
            lemma_spells_in_bits(board, m, row as int, column as int, number as int);
        }
        lemma_constrains_asserted(
            f0,
            formula.num_vars(),
            formula.clauses(),
            cell_holds(board, row as int, column as int, number as int),
        );
    }
}

/// The constraint that the first `count` of the given cells hold their
/// digits.
spec fn fixed_hold_before(board: &Board, fixed: Seq<FixedCell>, count: int) -> spec_fn(
    Valuation,
) -> bool {
    |m: Valuation|
        forall|k: int|
            0 <= k < count ==> board.cell_value(
                m,
                (#[trigger] fixed[k]).row as int,
                fixed[k].column as int,
            ) == fixed[k].digit - 1
}

/// The constraint that all given cells hold their digits, a digit `d` being
/// held as the value `d - 1`.
pub open spec fn fixed_hold(board: &Board, fixed: Seq<FixedCell>) -> spec_fn(Valuation) -> bool {
    |m: Valuation|
        forall|k: int|
            0 <= k < fixed.len() ==> board.cell_value(
                m,
                (#[trigger] fixed[k]).row as int,
                fixed[k].column as int,
            ) == fixed[k].digit - 1
}

/// Holds each of the given cells to its digit.
pub fn constrain_fixed(formula: &mut Formula, board: &Board, fixed: &Vec<FixedCell>)
    requires
        old(formula).wf(),
        board.wf(),
        board.last() <= old(formula).num_vars(),
        forall|k: int| 0 <= k < fixed@.len() ==> (#[trigger] fixed@[k]).valid(),
    ensures
        final(formula).wf(),
        final(formula).num_vars() == old(formula).num_vars(),
        appended(old(formula).clauses(), final(formula).clauses(), 4 * (fixed@.len() as int)),
        constrains(
            old(formula).clauses(),
            old(formula).num_vars(),
            final(formula).clauses(),
            fixed_hold(board, fixed@),
        ),
{
    let ghost f0 = formula.clauses();
    let ghost n0 = formula.num_vars();
    proof {
        lemma_appended(f0, Seq::empty());
        lemma_constrains_nothing(f0, n0, fixed_hold_before(board, fixed@, 0));
    }
    for k in 0..fixed.len()
        invariant
            formula.wf(),
            board.wf(),
            board.last() <= n0,
            formula.num_vars() == n0,
            forall|k: int| 0 <= k < fixed@.len() ==> (#[trigger] fixed@[k]).valid(),
            appended(f0, formula.clauses(), 4 * k),
            constrains(f0, n0, formula.clauses(), fixed_hold_before(board, fixed@, k as int)),
    {
        let ghost f1 = formula.clauses();
        let cell = fixed[k];
        assert(cell.valid());
        assign(formula, board, cell.row, cell.column, cell.digit - 1);
        proof {
            lemma_appended_chain(f0, f1, formula.clauses(), 4 * k, 4);
            lemma_cell_holds_local(
                board,
                n0,
                cell.row as int,
                cell.column as int,
                cell.digit - 1,
            );
            lemma_constrains_chain(
                f0,
                n0,
                f1,
                n0,
                formula.clauses(),
                fixed_hold_before(board, fixed@, k as int),
                cell_holds(board, cell.row as int, cell.column as int, cell.digit - 1),
                fixed_hold_before(board, fixed@, k + 1),
            );
        }
    }
    proof {
        lemma_constrains_same(
            f0,
            n0,
            formula.clauses(),
            fixed_hold_before(board, fixed@, fixed@.len() as int),
            fixed_hold(board, fixed@),
        );
    }
}

/// Whether the given cells hold their digits looks at the variables of the
/// board only.
pub proof fn lemma_fixed_hold_local(board: &Board, n: int, fixed: Seq<FixedCell>)
    requires
        board.wf(),
        board.last() <= n,
        forall|k: int| 0 <= k < fixed.len() ==> (#[trigger] fixed[k]).valid(),
    ensures
        local_to(fixed_hold(board, fixed), n),
{
    let c = fixed_hold(board, fixed);
    assert forall|m1: Valuation, m2: Valuation| #[trigger] agree_upto(m1, m2, n)
        implies c(m1) == c(m2) by {
        board.lemma_cell_values_agree(m1, m2, n);
        assert forall|k: int| 0 <= k < fixed.len() implies board.cell_value(
            m1,
            (#[trigger] fixed[k]).row as int,
            fixed[k].column as int,
        ) == board.cell_value(m2, fixed[k].row as int, fixed[k].column as int) by {
            assert(fixed[k].valid());
        }
    }
}

} // verus!
