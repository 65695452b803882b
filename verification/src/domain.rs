//! The range of a cell: of the sixteen values that four bits can spell, a
//! cell may hold the nine from 0 to 8.

use crate::board::{Board, BITS};
use crate::cnf::{agree_upto, and_clauses, satisfies, Valuation, MAX_VARIABLES};
use crate::constraint::{
    appended, constrains, lemma_appended, lemma_appended_chain, lemma_constrains_chain,
    lemma_constrains_defined, lemma_constrains_nothing, lemma_constrains_same, local_to,
    unconstrained,
};
use crate::formula::Formula;
use crate::grid::{comes_before, COLUMNS, ROWS};
use vstd::prelude::*;

verus! {

/// Whether, under `m`, the first bit of a cell is set and none of the
/// following bits up to position `bits` is.
spec fn leads_eight(board: &Board, m: Valuation, row: int, column: int, bits: int) -> bool {
    &&& m(board.var_at(row, column, 0))
    &&& forall|bit: int| 1 <= bit < bits ==> !#[trigger] m(board.var_at(row, column, bit))
}

/// The four bits of a cell spell 8 exactly when the first is set and the
/// others are not.
proof fn lemma_leads_eight(board: &Board, m: Valuation, row: int, column: int)
    ensures
        leads_eight(board, m, row, column, 4) == (board.cell_value(m, row, column) == 8),
{
    if board.cell_value(m, row, column) == 8 {
        assert forall|bit: int| 1 <= bit < 4 implies !#[trigger] m(
            board.var_at(row, column, bit),
        ) by {
            assert(bit == 1 || bit == 2 || bit == 3);
        }
    }
    if leads_eight(board, m, row, column, 4) {
        assert(!m(board.var_at(row, column, 1)));
        assert(!m(board.var_at(row, column, 2)));
        assert(!m(board.var_at(row, column, 3)));
    }
}

/// The clauses that define, with variables from `n + 1` on, the literal that
/// is true exactly when the first bit of a cell is set and none of the
/// following bits up to position `bits` is: one conjunction for each of the
/// following bits, of what was found so far and the negated bit.
pub open spec fn eight_clauses(board: &Board, n: int, row: int, column: int, bits: int) -> Seq<
    Seq<int>,
>
    decreases bits,
{
    if bits <= 1 {
        Seq::empty()
    } else {
        eight_clauses(board, n, row, column, bits - 1) + and_clauses(
            if bits == 2 {
                board.var_at(row, column, 0)
            } else {
                n + bits - 2
            },
            -board.var_at(row, column, bits - 1),
            n + bits - 1,
        )
    }
}

/// The literal for the value 8 takes nine clauses: three times the three of
/// a conjunction.
pub proof fn lemma_eight_clauses_len(board: &Board, n: int, row: int, column: int)
    ensures
        eight_clauses(board, n, row, column, 4).len() == 9,
{
    reveal_with_fuel(eight_clauses, 4);
}

/// The constraint that a cell holds one of the values 0 to 8.
pub open spec fn cell_in_range(board: &Board, row: int, column: int) -> spec_fn(Valuation) -> bool {
    |m: Valuation| board.cell_value(m, row, column) <= 8
}

/// Whether a cell is in range looks at the variables of the board only.
pub proof fn lemma_cell_in_range_local(board: &Board, n: int, row: int, column: int)
    requires
        board.wf(),
        board.last() <= n,
        0 <= row < 9,
        0 <= column < 9,
    ensures
        local_to(cell_in_range(board, row, column), n),
{
    let c = cell_in_range(board, row, column);
    assert forall|m1: Valuation, m2: Valuation| #[trigger] agree_upto(m1, m2, n)
        implies c(m1) == c(m2) by {
        board.lemma_cell_value_agree(m1, m2, n, row, column);
    }
}

/// Keeps a cell within the values 0 to 8. A literal is built that is true
/// exactly when the cell holds 8, and the cell's first bit is allowed only
/// together with it.
pub fn constrain_cell(formula: &mut Formula, board: &Board, row: usize, column: usize)
    requires
        old(formula).wf(),
        board.wf(),
        board.last() <= old(formula).num_vars(),
        old(formula).num_vars() + 3 <= MAX_VARIABLES,
        row < 9,
        column < 9,
    ensures
        final(formula).wf(),
        final(formula).num_vars() == old(formula).num_vars() + 3,
        final(formula).clauses() == (old(formula).clauses() + eight_clauses(
            board,
            old(formula).num_vars(),
            row as int,
            column as int,
            4,
        )).push(
            seq![-board.var_at(row as int, column as int, 0), old(formula).num_vars() + 3],
        ),
        appended(old(formula).clauses(), final(formula).clauses(), 10),
        constrains(
            old(formula).clauses(),
            old(formula).num_vars(),
            final(formula).clauses(),
            cell_in_range(board, row as int, column as int),
        ),
{
    let ghost f0 = formula.clauses();
    let ghost n0 = formula.num_vars();
    proof {
        board.lemma_wf();
        lemma_constrains_nothing(f0, n0, unconstrained());
    }
    let first = board.bit(row, column, 0);
    let mut is_eight = first;
    for bit in 1..BITS
        invariant
            formula.wf(),
            board.wf(),
            1 <= board.first(),
            board.last() <= n0,
            n0 + 3 <= MAX_VARIABLES,
            row < 9,
            column < 9,
            formula.num_vars() == n0 + bit - 1,
            formula.owns(is_eight),
            is_eight.positive,
            is_eight.var.id == if bit == 1 {
                board.var_at(row as int, column as int, 0)
            } else {
                n0 + bit - 1
            },
            formula.clauses() == f0 + eight_clauses(board, n0, row as int, column as int, bit as int),
            constrains(f0, n0, formula.clauses(), unconstrained()),
            forall|m: Valuation| #[trigger]
                satisfies(m, formula.clauses()) ==> is_eight.holds(m) == leads_eight(
                    board,
                    m,
                    row as int,
                    column as int,
                    bit as int,
                ),
    {
        let ghost f1 = formula.clauses();
        let ghost n1 = formula.num_vars();
        let unset = board.bit(row, column, bit).negate();
        let joined = formula.and(is_eight, unset);
        proof {
            let so_far = eight_clauses(board, n0, row as int, column as int, bit as int);
            let narrowed = and_clauses(is_eight.code(), unset.code(), joined.code());
            assert(f0 + so_far + narrowed =~= f0 + (so_far + narrowed));
            let free = unconstrained();
            lemma_constrains_chain(f0, n0, f1, n1, formula.clauses(), free, free, free);
            assert forall|m: Valuation| #[trigger] satisfies(m, formula.clauses()) implies joined.holds(
                m,
            ) == leads_eight(board, m, row as int, column as int, bit + 1) by {
                assert(satisfies(m, f1));
                assert(unset.holds(m) == !m(board.var_at(row as int, column as int, bit as int)));
            }
        }
        is_eight = joined;
    }
    let ghost f1 = formula.clauses();
    let cleared = first.negate();
    formula.assert_any(cleared, is_eight);
    proof {
        let definition = eight_clauses(board, n0, row as int, column as int, 4);
        let allowed = seq![-board.var_at(row as int, column as int, 0), n0 + 3];
        lemma_eight_clauses_len(board, n0, row as int, column as int);
        assert(formula.clauses() =~= f0 + definition.push(allowed));
        lemma_appended(f0, definition.push(allowed));
        lemma_cell_in_range_local(board, n0, row as int, column as int);
        assert forall|m: Valuation| #[trigger] satisfies(m, f1) implies (cleared.holds(m)
            || is_eight.holds(m)) == cell_in_range(board, row as int, column as int)(m) by {
            lemma_leads_eight(board, m, row as int, column as int);
        }
        lemma_constrains_defined(
            f0,
            n0,
            f1,
            formula.clauses(),
            |m: Valuation| cleared.holds(m) || is_eight.holds(m),
            cell_in_range(board, row as int, column as int),
        );
    }
}

/// The constraint that the cells that come before the cell at `row` and
/// `column`, when the grid is read row by row, hold values from 0 to 8.
spec fn cells_in_range_before(board: &Board, row: int, column: int) -> spec_fn(
    Valuation,
) -> bool {
    |m: Valuation|
        forall|r: int, c: int|
            0 <= r < 9 && 0 <= c < 9 && comes_before(r, c, row, column)
                ==> #[trigger] board.cell_value(m, r, c) <= 8
}

/// The constraint that every cell holds one of the values 0 to 8.
pub open spec fn cells_in_range(board: &Board) -> spec_fn(Valuation) -> bool {
    |m: Valuation|
        forall|r: int, c: int|
            0 <= r < 9 && 0 <= c < 9 ==> #[trigger] board.cell_value(m, r, c) <= 8
}

/// Keeps every cell within the values 0 to 8.
pub fn constrain_cells(formula: &mut Formula, board: &Board)
    requires
        old(formula).wf(),
        board.wf(),
        board.last() <= old(formula).num_vars(),
        old(formula).num_vars() + 243 <= MAX_VARIABLES,
    ensures
        final(formula).wf(),
        final(formula).num_vars() == old(formula).num_vars() + 243,
        appended(old(formula).clauses(), final(formula).clauses(), 810),
        constrains(
            old(formula).clauses(),
            old(formula).num_vars(),
            final(formula).clauses(),
            cells_in_range(board),
        ),
{
    let ghost f0 = formula.clauses();
    let ghost n0 = formula.num_vars();
    proof {
        lemma_appended(f0, Seq::empty());
        lemma_constrains_nothing(f0, n0, cells_in_range_before(board, 0, 0));
    }
    for row in 0..ROWS
        invariant
            formula.wf(),
            board.wf(),
            board.last() <= n0,
            n0 + 243 <= MAX_VARIABLES,
            formula.num_vars() == n0 + 27 * row,
            appended(f0, formula.clauses(), 90 * row),
            constrains(f0, n0, formula.clauses(), cells_in_range_before(board, row as int, 0)),
    {
        for column in 0..COLUMNS
            invariant
                row < 9,
                formula.wf(),
                board.wf(),
                board.last() <= n0,
                n0 + 243 <= MAX_VARIABLES,
                formula.num_vars() == n0 + 27 * row + 3 * column,
                appended(f0, formula.clauses(), 90 * row + 10 * column),
                constrains(
                    f0,
                    n0,
                    formula.clauses(),
                    cells_in_range_before(board, row as int, column as int),
                ),
        {
            let ghost f1 = formula.clauses();
            let ghost n1 = formula.num_vars();
            constrain_cell(formula, board, row, column);
            proof {
                lemma_appended_chain(f0, f1, formula.clauses(), 90 * row + 10 * column, 10);
                lemma_cell_in_range_local(board, n0, row as int, column as int);
                lemma_constrains_chain(
                    f0,
                    n0,
                    f1,
                    n1,
                    formula.clauses(),
                    cells_in_range_before(board, row as int, column as int),
                    cell_in_range(board, row as int, column as int),
                    cells_in_range_before(board, row as int, column + 1),
                );
            }
        }
        proof {
            lemma_constrains_same(
                f0,
                n0,
                formula.clauses(),
                cells_in_range_before(board, row as int, 9),
                cells_in_range_before(board, row + 1, 0),
            );
        }
    }
    proof {
        lemma_constrains_same(
            f0,
            n0,
            formula.clauses(),
            cells_in_range_before(board, 9, 0),
            cells_in_range(board),
        );
    }
}

} // verus!
