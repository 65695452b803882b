//! The rules of the puzzle: no value twice in a row, in a column or in a
//! box.

use crate::board::Board;
use crate::cnf::{agree_upto, Valuation, MAX_VARIABLES};
use crate::constraint::{
    appended, constrains, lemma_appended, lemma_appended_chain, lemma_constrains_chain,
    lemma_constrains_nothing, lemma_constrains_same, local_to,
};
use crate::formula::Formula;
use crate::grid::{comes_before, COLUMNS, ROWS};
use crate::inequality::{assert_different, cells_differ, lemma_cells_differ_local};
use vstd::prelude::*;

verus! {

/// The constraint that the pairs of cells of one row that come before a
/// place in the walk over all such pairs differ. The walk goes row by row
/// and, within a row, through the pairs of a left column `column` and a
/// column `other` to its right, in the order of `column` and then `other`.
spec fn rows_differ_before(
    board: &Board,
    row: int,
    column: int,
    other: int,
) -> spec_fn(Valuation) -> bool {
    |m: Valuation|
        forall|r: int, c: int, c2: int|
            0 <= r < 9 && 0 <= c < c2 < 9 && (r < row || (r == row && (c < column || (c == column
                && c2 < other)))) ==> #[trigger] board.cell_value(m, r, c)
                != #[trigger] board.cell_value(m, r, c2)
}

/// The constraint that no two cells of a row hold the same value.
pub open spec fn rows_differ(board: &Board) -> spec_fn(Valuation) -> bool {
    |m: Valuation|
        forall|r: int, c: int, c2: int|
            0 <= r < 9 && 0 <= c < c2 < 9 ==> #[trigger] board.cell_value(m, r, c)
                != #[trigger] board.cell_value(m, r, c2)
}

/// The number of pairs `(c, c2)` with `c < c2 < 9` whose first part is less
/// than `first`.
spec fn pairs_before(first: int) -> int {
    if first <= 0 {
        0
    } else if first == 1 {
        8
    } else if first == 2 {
        15
    } else if first == 3 {
        21
    } else if first == 4 {
        26
    } else if first == 5 {
        30
    } else if first == 6 {
        33
    } else if first == 7 {
        35
    } else {
        36
    }
}

/// Requires the cells of each row to hold values that all differ: one
/// inequality for each pair of cells of a row.
pub fn constrain_rows(formula: &mut Formula, board: &Board)
    requires
        old(formula).wf(),
        board.wf(),
        board.last() <= old(formula).num_vars(),
        old(formula).num_vars() + 2268 <= MAX_VARIABLES,
    ensures
        final(formula).wf(),
        final(formula).num_vars() == old(formula).num_vars() + 2268,
        appended(old(formula).clauses(), final(formula).clauses(), 8424),
        constrains(
            old(formula).clauses(),
            old(formula).num_vars(),
            final(formula).clauses(),
            rows_differ(board),
        ),
{
    let ghost f0 = formula.clauses();
    let ghost n0 = formula.num_vars();
    proof {
        lemma_appended(f0, Seq::empty());
        lemma_constrains_nothing(f0, n0, rows_differ_before(board, 0, 0, 0));
    }
    for row in 0..ROWS
        invariant
            formula.wf(),
            board.wf(),
            board.last() <= n0,
            n0 + 2268 <= MAX_VARIABLES,
            formula.num_vars() == n0 + 252 * row,
            appended(f0, formula.clauses(), 936 * row),
            constrains(f0, n0, formula.clauses(), rows_differ_before(board, row as int, 0, 0)),
    {
        for column in 0..COLUMNS
            invariant
                row < 9,
                formula.wf(),
                board.wf(),
                board.last() <= n0,
                n0 + 2268 <= MAX_VARIABLES,
                formula.num_vars() == n0 + 252 * row + 7 * pairs_before(column as int),
                appended(f0, formula.clauses(), 936 * row + 26 * pairs_before(column as int)),
                constrains(
                    f0,
                    n0,
                    formula.clauses(),
                    rows_differ_before(board, row as int, column as int, 0),
                ),
        {
            proof {
                lemma_constrains_same(
                    f0,
                    n0,
                    formula.clauses(),
                    rows_differ_before(board, row as int, column as int, 0),
                    rows_differ_before(board, row as int, column as int, column + 1),
                );
            }
            for other in (column + 1)..COLUMNS
                invariant
                    row < 9,
                    column < 9,
                    formula.wf(),
                    board.wf(),
                    board.last() <= n0,
                    n0 + 2268 <= MAX_VARIABLES,
                    formula.num_vars() == n0 + 252 * row + 7 * (pairs_before(column as int) + other
                        - column - 1),
                    appended(
                        f0,
                        formula.clauses(),
                        936 * row + 26 * (pairs_before(column as int) + other - column - 1),
                    ),
                    constrains(
                        f0,
                        n0,
                        formula.clauses(),
                        rows_differ_before(board, row as int, column as int, other as int),
                    ),
            {
                let ghost f1 = formula.clauses();
                let ghost n1 = formula.num_vars();
                assert_different(formula, board, row, column, row, other);
                proof {
                    lemma_appended_chain(
                        f0,
                        f1,
                        formula.clauses(),
                        936 * row + 26 * (pairs_before(column as int) + other - column - 1),
                        26,
                    );
                    lemma_cells_differ_local(
                        board,
                        n0,
                        row as int,
                        column as int,
                        row as int,
                        other as int,
                    );
                    lemma_constrains_chain(
                        f0,
                        n0,
                        f1,
                        n1,
                        formula.clauses(),
                        rows_differ_before(board, row as int, column as int, other as int),
                        cells_differ(board, row as int, column as int, row as int, other as int),
                        rows_differ_before(board, row as int, column as int, other + 1),
                    );
                }
            }
            proof {
                lemma_constrains_same(
                    f0,
                    n0,
                    formula.clauses(),
                    rows_differ_before(board, row as int, column as int, 9),
                    rows_differ_before(board, row as int, column + 1, 0),
                );
            }
        }
        proof {
            lemma_constrains_same(
                f0,
                n0,
                formula.clauses(),
                rows_differ_before(board, row as int, 9, 0),
                rows_differ_before(board, row + 1, 0, 0),
            );
        }
    }
    proof {
        lemma_constrains_same(
            f0,
            n0,
            formula.clauses(),
            rows_differ_before(board, 9, 0, 0),
            rows_differ(board),
        );
    }
}

/// The constraint that the pairs of cells of one column that come before a
/// place in the walk over all such pairs differ. The walk goes through the
/// upper cells row by row and column by column, and for each of them through
/// the cells below it, in the order of their row `other`.
spec fn columns_differ_before(
    board: &Board,
    row: int,
    column: int,
    other: int,
) -> spec_fn(Valuation) -> bool {
    |m: Valuation|
        forall|r: int, c: int, r2: int|
            0 <= r < r2 < 9 && 0 <= c < 9 && (r < row || (r == row && (c < column || (c == column
                && r2 < other)))) ==> #[trigger] board.cell_value(m, r, c)
                != #[trigger] board.cell_value(m, r2, c)
}

/// The constraint that no two cells of a column hold the same value.
pub open spec fn columns_differ(board: &Board) -> spec_fn(Valuation) -> bool {
    |m: Valuation|
        forall|r: int, c: int, r2: int|
            0 <= r < r2 < 9 && 0 <= c < 9 ==> #[trigger] board.cell_value(m, r, c)
                != #[trigger] board.cell_value(m, r2, c)
}

/// The product of `a` and `b`, kept apart from linear arithmetic.
spec fn times(a: int, b: int) -> int {
    a * b
}

/// How the product starts at zero, grows with its first factor, what it is
/// for nine, and that it is not negative when its factors are not.
proof fn lemma_times(a: int, b: int)
    ensures
        times(0, b) == 0,
        times(a + 1, b) == times(a, b) + b,
        times(9, b) == 9 * b,
        0 <= a && 0 <= b ==> 0 <= times(a, b),
{
    assert(0 * b == 0) by (nonlinear_arith);
    assert((a + 1) * b == a * b + b) by (nonlinear_arith);
    assert(0 <= a && 0 <= b ==> 0 <= a * b) by (nonlinear_arith);
}

/// Requires the cells of each column to hold values that all differ: one
/// inequality for each pair of cells of a column.
pub fn constrain_columns(formula: &mut Formula, board: &Board)
    requires
        old(formula).wf(),
        board.wf(),
        board.last() <= old(formula).num_vars(),
        old(formula).num_vars() + 2268 <= MAX_VARIABLES,
    ensures
        final(formula).wf(),
        final(formula).num_vars() == old(formula).num_vars() + 2268,
        appended(old(formula).clauses(), final(formula).clauses(), 8424),
        constrains(
            old(formula).clauses(),
            old(formula).num_vars(),
            final(formula).clauses(),
            columns_differ(board),
        ),
{
    let ghost f0 = formula.clauses();
    let ghost n0 = formula.num_vars();
    proof {
        lemma_appended(f0, Seq::empty());
        lemma_constrains_nothing(f0, n0, columns_differ_before(board, 0, 0, 0));
    }
    for row in 0..ROWS
        invariant
            formula.wf(),
            board.wf(),
            board.last() <= n0,
            n0 + 2268 <= MAX_VARIABLES,
            formula.num_vars() == n0 + 63 * pairs_before(row as int),
            appended(f0, formula.clauses(), 234 * pairs_before(row as int)),
            constrains(f0, n0, formula.clauses(), columns_differ_before(board, row as int, 0, 0)),
    {
        let ghost below: int = 8 - row;
        proof {
            lemma_times(0, below);
        }
        for column in 0..COLUMNS
            invariant
                row < 9,
                below == 8 - row,
                formula.wf(),
                board.wf(),
                board.last() <= n0,
                n0 + 2268 <= MAX_VARIABLES,
                formula.num_vars() == n0 + 63 * pairs_before(row as int) + 7 * times(
                    column as int,
                    below,
                ),
                appended(
                    f0,
                    formula.clauses(),
                    234 * pairs_before(row as int) + 26 * times(column as int, below),
                ),
                times(column as int, below) + times(9 - column, below) == 9 * below,
                constrains(
                    f0,
                    n0,
                    formula.clauses(),
                    columns_differ_before(board, row as int, column as int, 0),
                ),
        {
            proof {
                lemma_times(8 - column, below);
                lemma_constrains_same(
                    f0,
                    n0,
                    formula.clauses(),
                    columns_differ_before(board, row as int, column as int, 0),
                    columns_differ_before(board, row as int, column as int, row + 1),
                );
            }
            for other in (row + 1)..ROWS
                invariant
                    row < 9,
                    column < 9,
                    below == 8 - row,
                    times(column as int, below) + times(8 - column, below) == 8 * below,
                    formula.wf(),
                    board.wf(),
                    board.last() <= n0,
                    n0 + 2268 <= MAX_VARIABLES,
                    formula.num_vars() == n0 + 63 * pairs_before(row as int) + 7 * times(
                        column as int,
                        below,
                    ) + 7 * (other - row - 1),
                    appended(
                        f0,
                        formula.clauses(),
                        234 * pairs_before(row as int) + 26 * times(column as int, below) + 26 * (
                        other - row - 1),
                    ),
                    formula.num_vars() + 7 * (9 - other) <= n0 + 2268,
                    constrains(
                        f0,
                        n0,
                        formula.clauses(),
                        columns_differ_before(board, row as int, column as int, other as int),
                    ),
            {
                let ghost f1 = formula.clauses();
                let ghost n1 = formula.num_vars();
                assert_different(formula, board, row, column, other, column);
                proof {
                    lemma_times(8 - column, below);
                    lemma_appended_chain(
                        f0,
                        f1,
                        formula.clauses(),
                        234 * pairs_before(row as int) + 26 * times(column as int, below) + 26 * (
                        other - row - 1),
                        26,
                    );
                    lemma_cells_differ_local(
                        board,
                        n0,
                        row as int,
                        column as int,
                        other as int,
                        column as int,
                    );
                    lemma_constrains_chain(
                        f0,
                        n0,
                        f1,
                        n1,
                        formula.clauses(),
                        columns_differ_before(board, row as int, column as int, other as int),
                        cells_differ(board, row as int, column as int, other as int, column as int),
                        columns_differ_before(board, row as int, column as int, other + 1),
                    );
                }
            }
            proof {
                lemma_times(column as int, below);
                lemma_constrains_same(
                    f0,
                    n0,
                    formula.clauses(),
                    columns_differ_before(board, row as int, column as int, 9),
                    columns_differ_before(board, row as int, column + 1, 0),
                );
            }
        }
        proof {
            lemma_constrains_same(
                f0,
                n0,
                formula.clauses(),
                columns_differ_before(board, row as int, 9, 0),
                columns_differ_before(board, row + 1, 0, 0),
            );
        }
    }
    proof {
        lemma_constrains_same(
            f0,
            n0,
            formula.clauses(),
            columns_differ_before(board, 9, 0, 0),
            columns_differ(board),
        );
    }
}

/// Whether both cells lie in the box whose upper left cell is at `row_base`
/// and `column_base`.
pub open spec fn in_box(
    row_base: int,
    column_base: int,
    row_a: int,
    column_a: int,
    row_b: int,
    column_b: int,
) -> bool {
    &&& row_base <= row_a < row_base + 3
    &&& row_base <= row_b < row_base + 3
    &&& column_base <= column_a < column_base + 3
    &&& column_base <= column_b < column_base + 3
}

/// The constraint that the pairs of cells of one box that come before a
/// place in the walk over all such pairs differ. The walk goes through the
/// row of the first cell, the row of the second, the column of the first and
/// the column of the second, in this order, and takes a pair when its first
/// cell comes before its second.
spec fn box_differs_before(
    board: &Board,
    row_base: int,
    column_base: int,
    row_a: int,
    row_b: int,
    column_a: int,
    column_b: int,
) -> spec_fn(Valuation) -> bool {
    |m: Valuation|
        forall|ra: int, ca: int, rb: int, cb: int|
            in_box(row_base, column_base, ra, ca, rb, cb) && comes_before(ra, ca, rb, cb) && (ra
                < row_a || (ra == row_a && (rb < row_b || (rb == row_b && (ca < column_a || (ca
                == column_a && cb < column_b)))))) ==> #[trigger] board.cell_value(m, ra, ca)
                != #[trigger] board.cell_value(m, rb, cb)
}

/// The constraint that no two cells of one box hold the same value.
pub open spec fn box_differs(board: &Board, row_base: int, column_base: int) -> spec_fn(
    Valuation,
) -> bool {
    |m: Valuation|
        forall|ra: int, ca: int, rb: int, cb: int|
            in_box(row_base, column_base, ra, ca, rb, cb) && comes_before(ra, ca, rb, cb)
                ==> #[trigger] board.cell_value(m, ra, ca) != #[trigger] board.cell_value(
                m,
                rb,
                cb,
            )
}

/// The number of pairs of one box that the walk takes before it comes to the
/// place given by the four positions, each counted from the box's corner.
#[verifier::opaque]
spec fn box_pairs_before(row_a: int, row_b: int, column_a: int, column_b: int) -> int {
    let rows_done: int = if row_a <= 0 {
        0
    } else if row_a == 1 {
        21
    } else if row_a == 2 {
        33
    } else {
        36
    };
    let second_rows_done: int = if row_b <= row_a {
        0
    } else {
        3 + 9 * (row_b - row_a - 1)
    };
    let columns_done: int = if row_a < row_b {
        3 * column_a
    } else if row_a > row_b {
        0
    } else if column_a <= 0 {
        0
    } else if column_a == 1 {
        2
    } else {
        3
    };
    let second_columns_done: int = if row_a < row_b {
        column_b
    } else if row_a == row_b && column_b > column_a + 1 {
        column_b - column_a - 1
    } else {
        0
    };
    rows_done + second_rows_done + columns_done + second_columns_done
}

/// How the number of pairs taken grows along the walk through a box: by one
/// at each place where a pair is taken, and not at all from the end of one
/// round to the start of the next. There are 36 pairs in all.
proof fn lemma_box_pairs_before(row_a: int, row_b: int, column_a: int, column_b: int)
    requires
        0 <= row_a < 3,
        0 <= row_b < 3,
        0 <= column_a < 3,
        0 <= column_b < 3,
    ensures
        box_pairs_before(0, 0, 0, 0) == 0,
        box_pairs_before(3, 0, 0, 0) == 36,
        0 <= box_pairs_before(row_a, row_b, column_a, column_b),
        comes_before(row_a, column_a, row_b, column_b) ==> box_pairs_before(
            row_a,
            row_b,
            column_a,
            column_b,
        ) < 36,
        box_pairs_before(row_a, row_b, column_a, column_b + 1) == box_pairs_before(
            row_a,
            row_b,
            column_a,
            column_b,
        ) + if comes_before(row_a, column_a, row_b, column_b) {
            1int
        } else {
            0int
        },
        box_pairs_before(row_a, row_b, column_a, 3) == box_pairs_before(
            row_a,
            row_b,
            column_a + 1,
            0,
        ),
        box_pairs_before(row_a, row_b, 3, 0) == box_pairs_before(row_a, row_b + 1, 0, 0),
        box_pairs_before(row_a, 3, 0, 0) == box_pairs_before(row_a + 1, 0, 0, 0),
{
    reveal(box_pairs_before);
}

/// Whether the cells of a box differ looks at the variables of the board
/// only.
pub proof fn lemma_box_differs_local(board: &Board, n: int, row_base: int, column_base: int)
    requires
        board.wf(),
        board.last() <= n,
        0 <= row_base <= 6,
        0 <= column_base <= 6,
    ensures
        local_to(box_differs(board, row_base, column_base), n),
{
    let c = box_differs(board, row_base, column_base);
    assert forall|m1: Valuation, m2: Valuation| #[trigger] agree_upto(m1, m2, n)
        implies c(m1) == c(m2) by {
        board.lemma_cell_values_agree(m1, m2, n);
    }
}

/// Requires the cells of one box to hold values that all differ: one
/// inequality for each pair of cells of the box.
pub fn constrain_box(formula: &mut Formula, board: &Board, row_base: usize, column_base: usize)
    requires
        old(formula).wf(),
        board.wf(),
        board.last() <= old(formula).num_vars(),
        old(formula).num_vars() + 252 <= MAX_VARIABLES,
        row_base <= 6,
        column_base <= 6,
    ensures
        final(formula).wf(),
        final(formula).num_vars() == old(formula).num_vars() + 252,
        appended(old(formula).clauses(), final(formula).clauses(), 936),
        constrains(
            old(formula).clauses(),
            old(formula).num_vars(),
            final(formula).clauses(),
            box_differs(board, row_base as int, column_base as int),
        ),
{
    let ghost f0 = formula.clauses();
    let ghost n0 = formula.num_vars();
    let ghost r0 = row_base as int;
    let ghost c0 = column_base as int;
    proof {
        lemma_box_pairs_before(0, 0, 0, 0);
        lemma_appended(f0, Seq::empty());
        lemma_constrains_nothing(f0, n0, box_differs_before(board, r0, c0, r0, r0, c0, c0));
    }
    for row_a in row_base..(row_base + 3)
        invariant
            r0 == row_base <= 6,
            c0 == column_base <= 6,
            formula.wf(),
            board.wf(),
            board.last() <= n0,
            n0 + 252 <= MAX_VARIABLES,
            formula.num_vars() == n0 + 7 * box_pairs_before(row_a - r0, 0, 0, 0),
            appended(f0, formula.clauses(), 26 * box_pairs_before(row_a - r0, 0, 0, 0)),
            constrains(
                f0,
                n0,
                formula.clauses(),
                box_differs_before(board, r0, c0, row_a as int, r0, c0, c0),
            ),
    {
        for row_b in row_base..(row_base + 3)
            invariant
                r0 == row_base <= 6,
                c0 == column_base <= 6,
                r0 <= row_a < r0 + 3,
                formula.wf(),
                board.wf(),
                board.last() <= n0,
                n0 + 252 <= MAX_VARIABLES,
                formula.num_vars() == n0 + 7 * box_pairs_before(row_a - r0, row_b - r0, 0, 0),
                appended(
                    f0,
                    formula.clauses(),
                    26 * box_pairs_before(row_a - r0, row_b - r0, 0, 0),
                ),
                constrains(
                    f0,
                    n0,
                    formula.clauses(),
                    box_differs_before(board, r0, c0, row_a as int, row_b as int, c0, c0),
                ),
        {
            for column_a in column_base..(column_base + 3)
                invariant
                    r0 == row_base <= 6,
                    c0 == column_base <= 6,
                    r0 <= row_a < r0 + 3,
                    r0 <= row_b < r0 + 3,
                    formula.wf(),
                    board.wf(),
                    board.last() <= n0,
                    n0 + 252 <= MAX_VARIABLES,
                    formula.num_vars() == n0 + 7 * box_pairs_before(
                        row_a - r0,
                        row_b - r0,
                        column_a - c0,
                        0,
                    ),
                    appended(
                        f0,
                        formula.clauses(),
                        26 * box_pairs_before(row_a - r0, row_b - r0, column_a - c0, 0),
                    ),
                    constrains(
                        f0,
                        n0,
                        formula.clauses(),
                        box_differs_before(
                            board,
                            r0,
                            c0,
                            row_a as int,
                            row_b as int,
                            column_a as int,
                            c0,
                        ),
                    ),
            {
                for column_b in column_base..(column_base + 3)
                    invariant
                        r0 == row_base <= 6,
                        c0 == column_base <= 6,
                        r0 <= row_a < r0 + 3,
                        r0 <= row_b < r0 + 3,
                        c0 <= column_a < c0 + 3,
                        formula.wf(),
                        board.wf(),
                        board.last() <= n0,
                        n0 + 252 <= MAX_VARIABLES,
                        formula.num_vars() == n0 + 7 * box_pairs_before(
                            row_a - r0,
                            row_b - r0,
                            column_a - c0,
                            column_b - c0,
                        ),
                        appended(
                            f0,
                            formula.clauses(),
                            26 * box_pairs_before(
                                row_a - r0,
                                row_b - r0,
                                column_a - c0,
                                column_b - c0,
                            ),
                        ),
                        constrains(
                            f0,
                            n0,
                            formula.clauses(),
                            box_differs_before(
                                board,
                                r0,
                                c0,
                                row_a as int,
                                row_b as int,
                                column_a as int,
                                column_b as int,
                            ),
                        ),
                {
                    let ghost f1 = formula.clauses();
                    let ghost n1 = formula.num_vars();
                    proof {
                        lemma_box_pairs_before(
                            row_a - r0,
                            row_b - r0,
                            column_a - c0,
                            column_b - c0,
                        );
                    }
                    let ghost here = box_differs_before(
                        board,
                        r0,
                        c0,
                        row_a as int,
                        row_b as int,
                        column_a as int,
                        column_b as int,
                    );
                    let ghost next = box_differs_before(
                        board,
                        r0,
                        c0,
                        row_a as int,
                        row_b as int,
                        column_a as int,
                        column_b + 1,
                    );
                    if row_a < row_b || (row_a == row_b && column_a < column_b) {
                        assert_different(formula, board, row_a, column_a, row_b, column_b);
                        proof {
                            lemma_appended_chain(
                                f0,
                                f1,
                                formula.clauses(),
                                26 * box_pairs_before(
                                    row_a - r0,
                                    row_b - r0,
                                    column_a - c0,
                                    column_b - c0,
                                ),
                                26,
                            );
                            lemma_cells_differ_local(
                                board,
                                n0,
                                row_a as int,
                                column_a as int,
                                row_b as int,
                                column_b as int,
                            );
                            lemma_constrains_chain(
                                f0,
                                n0,
                                f1,
                                n1,
                                formula.clauses(),
                                here,
                                cells_differ(
                                    board,
                                    row_a as int,
                                    column_a as int,
                                    row_b as int,
                                    column_b as int,
                                ),
                                next,
                            );
                        }
                    } else {
                        proof {
                            lemma_constrains_same(f0, n0, f1, here, next);
                        }
                    }
                }
                proof {
                    lemma_box_pairs_before(row_a - r0, row_b - r0, column_a - c0, 0);
                    lemma_constrains_same(
                        f0,
                        n0,
                        formula.clauses(),
                        box_differs_before(
                            board,
                            r0,
                            c0,
                            row_a as int,
                            row_b as int,
                            column_a as int,
                            c0 + 3,
                        ),
                        box_differs_before(
                            board,
                            r0,
                            c0,
                            row_a as int,
                            row_b as int,
                            column_a + 1,
                            c0,
                        ),
                    );
                }
            }
            proof {
                lemma_box_pairs_before(row_a - r0, row_b - r0, 0, 0);
                lemma_constrains_same(
                    f0,
                    n0,
                    formula.clauses(),
                    box_differs_before(board, r0, c0, row_a as int, row_b as int, c0 + 3, c0),
                    box_differs_before(board, r0, c0, row_a as int, row_b + 1, c0, c0),
                );
            }
        }
        proof {
            lemma_box_pairs_before(row_a - r0, 0, 0, 0);
            lemma_constrains_same(
                f0,
                n0,
                formula.clauses(),
                box_differs_before(board, r0, c0, row_a as int, r0 + 3, c0, c0),
                box_differs_before(board, r0, c0, row_a + 1, r0, c0, c0),
            );
        }
    }
    proof {
        lemma_box_pairs_before(0, 0, 0, 0);
        lemma_constrains_same(
            f0,
            n0,
            formula.clauses(),
            box_differs_before(board, r0, c0, r0 + 3, r0, c0, c0),
            box_differs(board, r0, c0),
        );
    }
}

/// The constraint that no two cells of one box hold the same value, for the
/// boxes that come before the box at `box_row` and `box_column` when the
/// boxes are read row by row.
spec fn boxes_differ_before(board: &Board, box_row: int, box_column: int) -> spec_fn(
    Valuation,
) -> bool {
    |m: Valuation|
        forall|ra: int, ca: int, rb: int, cb: int|
            0 <= ra < 9 && 0 <= ca < 9 && 0 <= rb < 9 && 0 <= cb < 9 && comes_before(
                ra,
                ca,
                rb,
                cb,
            ) && ra / 3 == rb / 3 && ca / 3 == cb / 3 && (ra / 3 < box_row || (ra / 3 == box_row
                && ca / 3 < box_column)) ==> #[trigger] board.cell_value(m, ra, ca)
                != #[trigger] board.cell_value(m, rb, cb)
}

/// The constraint that no two cells of a box hold the same value.
pub open spec fn boxes_differ(board: &Board) -> spec_fn(Valuation) -> bool {
    |m: Valuation|
        forall|ra: int, ca: int, rb: int, cb: int|
            0 <= ra < 9 && 0 <= ca < 9 && 0 <= rb < 9 && 0 <= cb < 9 && comes_before(
                ra,
                ca,
                rb,
                cb,
            ) && ra / 3 == rb / 3 && ca / 3 == cb / 3 ==> #[trigger] board.cell_value(m, ra, ca)
                != #[trigger] board.cell_value(m, rb, cb)
}

/// Requires the cells of each box to hold values that all differ, box by
/// box.
pub fn constrain_boxes(formula: &mut Formula, board: &Board)
    requires
        old(formula).wf(),
        board.wf(),
        board.last() <= old(formula).num_vars(),
        old(formula).num_vars() + 2268 <= MAX_VARIABLES,
    ensures
        final(formula).wf(),
        final(formula).num_vars() == old(formula).num_vars() + 2268,
        appended(old(formula).clauses(), final(formula).clauses(), 8424),
        constrains(
            old(formula).clauses(),
            old(formula).num_vars(),
            final(formula).clauses(),
            boxes_differ(board),
        ),
{
    let ghost f0 = formula.clauses();
    let ghost n0 = formula.num_vars();
    proof {
        lemma_appended(f0, Seq::empty());
        lemma_constrains_nothing(f0, n0, boxes_differ_before(board, 0, 0));
    }
    for box_row in 0..3usize
        invariant
            formula.wf(),
            board.wf(),
            board.last() <= n0,
            n0 + 2268 <= MAX_VARIABLES,
            formula.num_vars() == n0 + 756 * box_row,
            appended(f0, formula.clauses(), 2808 * box_row),
            constrains(f0, n0, formula.clauses(), boxes_differ_before(board, box_row as int, 0)),
    {
        for box_column in 0..3usize
            invariant
                box_row < 3,
                formula.wf(),
                board.wf(),
                board.last() <= n0,
                n0 + 2268 <= MAX_VARIABLES,
                formula.num_vars() == n0 + 756 * box_row + 252 * box_column,
                appended(f0, formula.clauses(), 2808 * box_row + 936 * box_column),
                constrains(
                    f0,
                    n0,
                    formula.clauses(),
                    boxes_differ_before(board, box_row as int, box_column as int),
                ),
        {
            let ghost f1 = formula.clauses();
            let ghost n1 = formula.num_vars();
            constrain_box(formula, board, 3 * box_row, 3 * box_column);
            proof {
                lemma_appended_chain(
                    f0,
                    f1,
                    formula.clauses(),
                    2808 * box_row + 936 * box_column,
                    936,
                );
                lemma_box_differs_local(board, n0, 3 * box_row, 3 * box_column);
                lemma_constrains_chain(
                    f0,
                    n0,
                    f1,
                    n1,
                    formula.clauses(),
                    boxes_differ_before(board, box_row as int, box_column as int),
                    box_differs(board, 3 * box_row, 3 * box_column),
                    boxes_differ_before(board, box_row as int, box_column + 1),
                );
            }
        }
        proof {
            lemma_constrains_same(
                f0,
                n0,
                formula.clauses(),
                boxes_differ_before(board, box_row as int, 3),
                boxes_differ_before(board, box_row + 1, 0),
            );
        }
    }
    proof {
        lemma_constrains_same(
            f0,
            n0,
            formula.clauses(),
            boxes_differ_before(board, 3, 0),
            boxes_differ(board),
        );
    }
}

/// Whether the cells of the rows differ looks at the variables of the board
/// only.
pub proof fn lemma_rows_differ_local(board: &Board, n: int)
    requires
        board.wf(),
        board.last() <= n,
    ensures
        local_to(rows_differ(board), n),
{
    let c = rows_differ(board);
    assert forall|m1: Valuation, m2: Valuation| #[trigger] agree_upto(m1, m2, n)
        implies c(m1) == c(m2) by {
        board.lemma_cell_values_agree(m1, m2, n);
    }
}

/// Whether the cells of the columns differ looks at the variables of the
/// board only.
pub proof fn lemma_columns_differ_local(board: &Board, n: int)
    requires
        board.wf(),
        board.last() <= n,
    ensures
        local_to(columns_differ(board), n),
{
    let c = columns_differ(board);
    assert forall|m1: Valuation, m2: Valuation| #[trigger] agree_upto(m1, m2, n)
        implies c(m1) == c(m2) by {
        board.lemma_cell_values_agree(m1, m2, n);
    }
}

/// Whether the cells of the boxes differ looks at the variables of the board
/// only.
pub proof fn lemma_boxes_differ_local(board: &Board, n: int)
    requires
        board.wf(),
        board.last() <= n,
    ensures
        local_to(boxes_differ(board), n),
{
    let c = boxes_differ(board);
    assert forall|m1: Valuation, m2: Valuation| #[trigger] agree_upto(m1, m2, n)
        implies c(m1) == c(m2) by {
        board.lemma_cell_values_agree(m1, m2, n);
    }
}

} // verus!
