//! The whole way: from the given cells to a formula whose satisfying
//! assignments are the solved grids, to the solver, and back to a grid.

use crate::board::{bit_weight, Board, BITS};
use crate::cnf::{agree_upto, satisfies, Valuation};
use crate::constraint::{constrains, extends_to, lemma_constrains_chain};
use crate::domain::{cells_in_range, constrain_cells};
use crate::formula::{Assignment, Formula};
use crate::givens::{bit_is_set, constrain_fixed, fixed_hold, lemma_fixed_hold_local};
use crate::grid::{
    cell_index, comes_before, honors, is_solution, lemma_example_is_solution, same_unit,
    FixedCell, Grid, COLUMNS, ROWS,
};
use crate::uniqueness::{
    boxes_differ, columns_differ, constrain_boxes, constrain_columns, constrain_rows,
    lemma_boxes_differ_local, lemma_columns_differ_local, lemma_rows_differ_local, rows_differ,
};
use vstd::prelude::*;

verus! {

/// A puzzle as a formula, with the board that says which variables stand for
/// which cell.
pub struct Encoding {
    pub formula: Formula,
    pub board: Board,
}

/// The grid that an assignment spells on the board: in each cell the value
/// of the cell plus one, so that the values 0 to 8 become the digits 1 to 9.
pub open spec fn decoded(board: &Board, m: Valuation) -> Seq<u8> {
    Seq::new(81, |i: int| (board.cell_value(m, i / 9, i % 9) + 1) as u8)
}

/// Whether some assignment satisfies `clauses` and spells `digits` on the
/// board.
pub open spec fn encodes(clauses: Seq<Seq<int>>, board: &Board, digits: Seq<u8>) -> bool {
    exists|m: Valuation| #[trigger] satisfies(m, clauses) && decoded(board, m) == digits
}

/// All that the puzzle asks of an assignment: every cell in range, no value
/// twice in a row, a column or a box, and every given cell as given.
pub open spec fn puzzle_constraint(board: &Board, fixed: Seq<FixedCell>) -> spec_fn(
    Valuation,
) -> bool {
    |m: Valuation|
        cells_in_range(board)(m) && rows_differ(board)(m) && columns_differ(board)(m)
            && boxes_differ(board)(m) && fixed_hold(board, fixed)(m)
}

/// The assignment that spells `digits` on the board, and is false on every
/// other variable.
pub open spec fn grid_valuation(board: &Board, digits: Seq<u8>) -> Valuation {
    |v: int|
        board.first() <= v <= board.last() && bit_is_set(
            digits[(v - board.first()) / 4] - 1,
            (v - board.first()) % 4,
        )
}

/// The digit that an assignment spells in a cell is the cell's value plus
/// one.
pub proof fn lemma_decoded_at(board: &Board, m: Valuation, row: int, column: int)
    requires
        0 <= row < 9,
        0 <= column < 9,
    ensures
        0 <= board.cell_value(m, row, column) <= 15,
        decoded(board, m)[cell_index(row, column)] == board.cell_value(m, row, column) + 1,
{
    let i = cell_index(row, column);
    assert(i / 9 == row && i % 9 == column);
}

/// Under the assignment that spells `digits`, a cell has the value of its
/// digit minus one.
pub proof fn lemma_grid_valuation_at(board: &Board, digits: Seq<u8>, row: int, column: int)
    requires
        0 <= row < 9,
        0 <= column < 9,
        1 <= digits[cell_index(row, column)] <= 16,
    ensures
        board.cell_value(grid_valuation(board, digits), row, column) == digits[cell_index(
            row,
            column,
        )] - 1,
{
    let m = grid_valuation(board, digits);
    let number = digits[cell_index(row, column)] - 1;
    assert forall|bit: int| 0 <= bit < 4 implies #[trigger] m(board.var_at(row, column, bit))
        == bit_is_set(number, bit) by {
        let v = board.var_at(row, column, bit);
        assert((v - board.first()) / 4 == cell_index(row, column));
        assert((v - board.first()) % 4 == bit);
    }
    assert(m(board.var_at(row, column, 0)) == bit_is_set(number, 0));
    assert(m(board.var_at(row, column, 1)) == bit_is_set(number, 1));
    assert(m(board.var_at(row, column, 2)) == bit_is_set(number, 2));
    assert(m(board.var_at(row, column, 3)) == bit_is_set(number, 3));
}

/// An assignment meets the constraints of the puzzle exactly when the grid
/// that it spells is a solution with the given cells as given.
pub proof fn lemma_constraint_is_solution(board: &Board, fixed: Seq<FixedCell>, m: Valuation)
    requires
        forall|k: int| 0 <= k < fixed.len() ==> (#[trigger] fixed[k]).valid(),
    ensures
        puzzle_constraint(board, fixed)(m) == (is_solution(decoded(board, m)) && honors(
            decoded(board, m),
            fixed,
        )),
{
    let g = decoded(board, m);
    assert forall|row: int, column: int| 0 <= row < 9 && 0 <= column < 9 implies #[trigger] g[cell_index(
        row,
        column,
    )] == board.cell_value(m, row, column) + 1 by {
        lemma_decoded_at(board, m, row, column);
    }
    assert forall|row: int, column: int| 0 <= row < 9 && 0 <= column < 9 implies (
    #[trigger] board.cell_value(m, row, column)) + 1 == g[cell_index(row, column)] by {
        lemma_decoded_at(board, m, row, column);
    }
    if puzzle_constraint(board, fixed)(m) {
        assert forall|row_a: int, column_a: int, row_b: int, column_b: int|
            0 <= row_a < 9 && 0 <= column_a < 9 && 0 <= row_b < 9 && 0 <= column_b < 9 && (row_a
                != row_b || column_a != column_b) && same_unit(
                row_a,
                column_a,
                row_b,
                column_b,
            ) implies #[trigger] g[cell_index(row_a, column_a)] != #[trigger] g[cell_index(
            row_b,
            column_b,
        )] by {
            let va = board.cell_value(m, row_a, column_a);
            let vb = board.cell_value(m, row_b, column_b);
            assert(g[cell_index(row_a, column_a)] == va + 1);
            assert(g[cell_index(row_b, column_b)] == vb + 1);
            if row_a == row_b {
                if column_a < column_b {
                    assert(va != vb);
                } else {
                    assert(vb != va);
                }
            } else if column_a == column_b {
                if row_a < row_b {
                    assert(va != vb);
                } else {
                    assert(vb != va);
                }
            } else {
                if row_a < row_b {
                    assert(va != vb);
                } else {
                    assert(vb != va);
                }
            }
        }
        assert forall|k: int| 0 <= k < fixed.len() implies g[cell_index(
            (#[trigger] fixed[k]).row as int,
            fixed[k].column as int,
        )] == fixed[k].digit by {
            assert(fixed[k].valid());
            lemma_decoded_at(board, m, fixed[k].row as int, fixed[k].column as int);
        }
        assert(is_solution(g));
        assert(honors(g, fixed));
    }
    if is_solution(g) && honors(g, fixed) {
        assert(cells_in_range(board)(m));
        assert(rows_differ(board)(m)) by {
            assert forall|r: int, c: int, c2: int| 0 <= r < 9 && 0 <= c < c2 < 9 implies (
            #[trigger] board.cell_value(m, r, c)) != (#[trigger] board.cell_value(m, r, c2)) by {
                assert(g[cell_index(r, c)] != g[cell_index(r, c2)]);
            }
        }
        assert(columns_differ(board)(m)) by {
            assert forall|r: int, c: int, r2: int| 0 <= r < r2 < 9 && 0 <= c < 9 implies (
            #[trigger] board.cell_value(m, r, c)) != (#[trigger] board.cell_value(m, r2, c)) by {
                assert(g[cell_index(r, c)] != g[cell_index(r2, c)]);
            }
        }
        assert(boxes_differ(board)(m)) by {
            assert forall|ra: int, ca: int, rb: int, cb: int|
                0 <= ra < 9 && 0 <= ca < 9 && 0 <= rb < 9 && 0 <= cb < 9
                    && comes_before(ra, ca, rb, cb) && ra / 3 == rb / 3 && ca
                    / 3 == cb / 3 implies (#[trigger] board.cell_value(m, ra, ca)) != (
            #[trigger] board.cell_value(m, rb, cb)) by {
                assert(g[cell_index(ra, ca)] != g[cell_index(rb, cb)]);
            }
        }
        assert(fixed_hold(board, fixed)(m)) by {
            assert forall|k: int| 0 <= k < fixed.len() implies board.cell_value(
                m,
                (#[trigger] fixed[k]).row as int,
                fixed[k].column as int,
            ) == fixed[k].digit - 1 by {
                assert(fixed[k].valid());
                lemma_decoded_at(board, m, fixed[k].row as int, fixed[k].column as int);
            }
        }
    }
}

/// What the first `bits` bits of a cell add up to under `m`.
spec fn value_in_bits(board: &Board, m: Valuation, row: int, column: int, bits: int) -> int {
    (if bits > 0 {
        board.bit_value(m, row, column, 0)
    } else {
        0
    }) + (if bits > 1 {
        board.bit_value(m, row, column, 1)
    } else {
        0
    }) + (if bits > 2 {
        board.bit_value(m, row, column, 2)
    } else {
        0
    }) + (if bits > 3 {
        board.bit_value(m, row, column, 3)
    } else {
        0
    })
}

/// What the bit at position `bit` of a cell adds to the cell's value when it
/// is set.
pub fn weight(bit: usize) -> (w: u8)
    requires
        bit < 4,
    ensures
        w == bit_weight(bit as int),
{
    proof {
        assert(1u8 << 3 == 8 && 1u8 << 2 == 4 && 1u8 << 1 == 2 && 1u8 << 0 == 1) by (bit_vector);
    }
    1u8 << (BITS - bit - 1)
}

/// Builds the formula of a puzzle: the board, the range of each cell, the
/// inequalities within rows, columns and boxes, and the given cells. Its
/// satisfying assignments spell exactly the solutions of the puzzle.
pub fn encode(fixed: &Vec<FixedCell>) -> (encoding: Encoding)
    requires
        forall|k: int| 0 <= k < fixed@.len() ==> (#[trigger] fixed@[k]).valid(),
    ensures
        encoding.formula.wf(),
        encoding.board.wf(),
        encoding.board.first() == 1,
        encoding.formula.num_vars() == 7371,
        encoding.formula.clauses().len() == 26082 + 4 * fixed@.len(),
        forall|m: Valuation| #[trigger]
            satisfies(m, encoding.formula.clauses()) ==> is_solution(decoded(&encoding.board, m))
                && honors(decoded(&encoding.board, m), fixed@),
        forall|digits: Seq<u8>|
            is_solution(digits) && honors(digits, fixed@) ==> #[trigger] encodes(
                encoding.formula.clauses(),
                &encoding.board,
                digits,
            ),
{
    let mut formula = Formula::new();
    let board = Board::allocate(&mut formula);
    let ghost f0 = formula.clauses();
    let ghost n0 = formula.num_vars();
    let ghost in_range = cells_in_range(&board);
    constrain_cells(&mut formula, &board);
    let ghost f1 = formula.clauses();
    let ghost n1 = formula.num_vars();
    constrain_rows(&mut formula, &board);
    let ghost f2 = formula.clauses();
    let ghost n2 = formula.num_vars();
    let ghost with_rows = |m: Valuation| in_range(m) && rows_differ(&board)(m);
    proof {
        lemma_rows_differ_local(&board, n0);
        lemma_constrains_chain(f0, n0, f1, n1, f2, in_range, rows_differ(&board), with_rows);
    }
    constrain_columns(&mut formula, &board);
    let ghost f3 = formula.clauses();
    let ghost n3 = formula.num_vars();
    let ghost with_columns = |m: Valuation| with_rows(m) && columns_differ(&board)(m);
    proof {
        lemma_columns_differ_local(&board, n0);
        lemma_constrains_chain(f0, n0, f2, n2, f3, with_rows, columns_differ(&board), with_columns);
    }
    constrain_boxes(&mut formula, &board);
    let ghost f4 = formula.clauses();
    let ghost n4 = formula.num_vars();
    let ghost with_boxes = |m: Valuation| with_columns(m) && boxes_differ(&board)(m);
    proof {
        lemma_boxes_differ_local(&board, n0);
        lemma_constrains_chain(f0, n0, f3, n3, f4, with_columns, boxes_differ(&board), with_boxes);
    }
    constrain_fixed(&mut formula, &board, fixed);
    proof {
        let f5 = formula.clauses();
        let all = puzzle_constraint(&board, fixed@);
        lemma_fixed_hold_local(&board, n0, fixed@);
        lemma_constrains_chain(f0, n0, f4, n4, f5, with_boxes, fixed_hold(&board, fixed@), all);
        assert forall|m: Valuation| #[trigger] satisfies(m, f5) implies is_solution(
            decoded(&board, m),
        ) && honors(decoded(&board, m), fixed@) by {
            lemma_constraint_is_solution(&board, fixed@, m);
        }
        assert forall|digits: Seq<u8>| is_solution(digits) && honors(digits, fixed@) implies #[trigger] encodes(
            f5,
            &board,
            digits,
        ) by {
            lemma_solution_encoded(f5, &board, fixed@, digits);
        }
    }
    Encoding { formula, board }
}

/// A formula that adds the constraints of the puzzle to the empty formula
/// has, for each solution of the puzzle, a satisfying assignment that spells
/// it.
pub proof fn lemma_solution_encoded(
    clauses: Seq<Seq<int>>,
    board: &Board,
    fixed: Seq<FixedCell>,
    digits: Seq<u8>,
)
    requires
        board.wf(),
        forall|k: int| 0 <= k < fixed.len() ==> (#[trigger] fixed[k]).valid(),
        constrains(
            Seq::<Seq<int>>::empty(),
            board.last(),
            clauses,
            puzzle_constraint(board, fixed),
        ),
        is_solution(digits),
        honors(digits, fixed),
    ensures
        encodes(clauses, board, digits),
{
    let start = grid_valuation(board, digits);
    assert forall|row: int, column: int| 0 <= row < 9 && 0 <= column < 9 implies (
    #[trigger] board.cell_value(start, row, column)) == digits[cell_index(row, column)] - 1 by {
        lemma_grid_valuation_at(board, digits, row, column);
    }
    assert(decoded(board, start) =~= digits) by {
        assert forall|i: int| 0 <= i < 81 implies decoded(board, start)[i] == digits[i] by {
            assert(cell_index(i / 9, i % 9) == i);
            assert(board.cell_value(start, i / 9, i % 9) == digits[cell_index(i / 9, i % 9)] - 1);
        }
    }
    lemma_constraint_is_solution(board, fixed, start);
    assert(satisfies(start, Seq::<Seq<int>>::empty()));
    assert(extends_to(start, board.last(), clauses));
    let m = choose|m: Valuation| #[trigger]
        satisfies(m, clauses) && agree_upto(m, start, board.last());
    board.lemma_cell_values_agree(m, start, board.last());
    assert(decoded(board, m) =~= decoded(board, start));
}

/// Reads the grid off an assignment: in each cell the weights of the bits
/// that are set, plus one.
pub fn decode(assignment: &Assignment, board: &Board) -> (grid: Grid)
    requires
        board.wf(),
        board.last() <= assignment.num_vars(),
    ensures
        grid@ == decoded(board, assignment.model()),
{
    let ghost m = assignment.model();
    let mut digits: Vec<u8> = Vec::new();
    proof {
        board.lemma_wf();
    }
    for row in 0..ROWS
        invariant
            board.wf(),
            1 <= board.first(),
            board.last() <= assignment.num_vars(),
            m == assignment.model(),
            digits@.len() == row * 9,
            forall|i: int| 0 <= i < digits@.len() ==> digits@[i] == #[trigger] decoded(board, m)[i],
    {
        for column in 0..COLUMNS
            invariant
                row < 9,
                board.wf(),
                1 <= board.first(),
                board.last() <= assignment.num_vars(),
                m == assignment.model(),
                digits@.len() == row * 9 + column,
                forall|i: int|
                    0 <= i < digits@.len() ==> digits@[i] == #[trigger] decoded(board, m)[i],
        {
            let mut number: u8 = 0;
            for bit in 0..BITS
                invariant
                    row < 9,
                    column < 9,
                    board.wf(),
                    1 <= board.first(),
                    board.last() <= assignment.num_vars(),
                    m == assignment.model(),
                    number == value_in_bits(board, m, row as int, column as int, bit as int),
            {
                if assignment.holds(board.bit(row, column, bit)) {
                    number += weight(bit);
                }
            }
            proof {
                lemma_decoded_at(board, m, row as int, column as int);
            }
            digits.push(number + 1);
        }
    }
    proof {
        assert(digits@ =~= decoded(board, m));
    }
    Grid::from_digits(digits)
}

/// Solves the puzzle with the given cells. The answer is a solved grid with
/// the given cells as given, or `None` when the puzzle has no solution. The
/// puzzle without given cells has one.
pub fn solve(fixed: &Vec<FixedCell>) -> (result: Option<Grid>)
    requires
        forall|k: int| 0 <= k < fixed@.len() ==> (#[trigger] fixed@[k]).valid(),
    ensures
        match result {
            Some(grid) => is_solution(grid@) && honors(grid@, fixed@),
            None => forall|digits: Seq<u8>|
                !(#[trigger] is_solution(digits) && honors(digits, fixed@)),
        },
        fixed@.len() == 0 ==> result is Some,
{
    let encoding = encode(fixed);
    let Encoding { formula, board } = encoding;
    let ghost clauses = formula.clauses();
    match formula.solve() {
        Some(assignment) => Some(decode(&assignment, &board)),
        None => {
            proof {
                assert forall|digits: Seq<u8>| #[trigger] is_solution(digits) implies !honors(
                    digits,
                    fixed@,
                ) by {
                    if honors(digits, fixed@) {
                        assert(encodes(clauses, &board, digits));
                    }
                }
                lemma_example_is_solution();
            }
            None
        },
    }
}

} // verus!
