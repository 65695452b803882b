//! The puzzle as its users see it: the cells that are given, the grid that
//! comes out, and what makes a grid a solution.

use vstd::prelude::*;
use vstd::seq_lib::seq_to_set_is_finite;
use vstd::set_lib::{lemma_int_range, lemma_subset_equality, set_int_range};

verus! {

/// Number of rows of the grid.
pub const ROWS: usize = 9;

/// Number of columns of the grid.
pub const COLUMNS: usize = 9;

/// A cell whose digit is given with the puzzle.
#[derive(Clone, Copy, PartialEq, Eq, Debug)]
pub struct FixedCell {
    pub row: usize,
    pub column: usize,
    pub digit: u8,
}

impl FixedCell {
    /// Whether the cell lies on the grid and its digit is one of 1 to 9.
    pub open spec fn valid(self) -> bool {
        self.row < 9 && self.column < 9 && 1 <= self.digit <= 9
    }
}

/// A filled grid: one digit for each of the 81 cells.
#[derive(PartialEq, Eq, Debug)]
pub struct Grid {
    digits: Vec<u8>,
}

/// The place of the cell at `row` and `column` in a grid written row by row.
pub open spec fn cell_index(row: int, column: int) -> int {
    row * 9 + column
}

/// Whether the cell at `row_a` and `column_a` comes before the cell at
/// `row_b` and `column_b` when the grid is read row by row.
pub open spec fn comes_before(row_a: int, column_a: int, row_b: int, column_b: int) -> bool {
    row_a < row_b || (row_a == row_b && column_a < column_b)
}

/// Whether two cells lie in the same row, the same column or the same box of
/// three by three cells.
pub open spec fn same_unit(row_a: int, column_a: int, row_b: int, column_b: int) -> bool {
    row_a == row_b || column_a == column_b || (row_a / 3 == row_b / 3 && column_a / 3 == column_b
        / 3)
}

/// Whether `digits` is a solved grid: 81 digits from 1 to 9, no two equal in
/// any row, column or box.
pub open spec fn is_solution(digits: Seq<u8>) -> bool {
    &&& digits.len() == 81
    &&& forall|row: int, column: int|
        0 <= row < 9 && 0 <= column < 9 ==> 1 <= #[trigger] digits[cell_index(row, column)] <= 9
    &&& forall|row_a: int, column_a: int, row_b: int, column_b: int|
        0 <= row_a < 9 && 0 <= column_a < 9 && 0 <= row_b < 9 && 0 <= column_b < 9 && (row_a
            != row_b || column_a != column_b) && same_unit(row_a, column_a, row_b, column_b)
            ==> #[trigger] digits[cell_index(row_a, column_a)] != #[trigger] digits[cell_index(
            row_b,
            column_b,
        )]
}

/// Whether `digits` has the given digit in each of the cells of `fixed`.
pub open spec fn honors(digits: Seq<u8>, fixed: Seq<FixedCell>) -> bool {
    forall|k: int|
        0 <= k < fixed.len() ==> digits[cell_index(
            (#[trigger] fixed[k]).row as int,
            fixed[k].column as int,
        )] == fixed[k].digit
}

impl View for Grid {
    type V = Seq<u8>;

    closed spec fn view(&self) -> Seq<u8> {
        self.digits@
    }
}

impl Grid {
    #[verifier::type_invariant]
    spec fn complete(self) -> bool {
        self.digits@.len() == 81
    }

    /// The grid that holds `digits`, row by row.
    pub fn from_digits(digits: Vec<u8>) -> (grid: Grid)
        requires
            digits@.len() == 81,
        ensures
            grid@ == digits@,
    {
        Grid { digits }
    }

    /// The digit in the cell at `row` and `column`.
    pub fn digit(&self, row: usize, column: usize) -> (d: u8)
        requires
            row < 9,
            column < 9,
        ensures
            d == self@[cell_index(row as int, column as int)],
    {
        proof {
            use_type_invariant(self);
        }
        self.digits[row * 9 + column]
    }
}

/// The place in the grid of the cell number `k` of the row `unit`.
pub open spec fn row_cell(unit: int, k: int) -> int {
    cell_index(unit, k)
}

/// The place in the grid of the cell number `k` of the column `unit`.
pub open spec fn column_cell(unit: int, k: int) -> int {
    cell_index(k, unit)
}

/// The place in the grid of the cell number `k` of the box `unit`, boxes and
/// the cells of a box being counted row by row.
pub open spec fn box_cell(unit: int, k: int) -> int {
    cell_index(3 * (unit / 3) + k / 3, 3 * (unit % 3) + k % 3)
}

/// Nine values from 1 to 9 of which no two are equal include each of 1 to 9.
pub proof fn lemma_nine_different(values: Seq<int>, d: int)
    requires
        values.len() == 9,
        forall|i: int| 0 <= i < 9 ==> 1 <= #[trigger] values[i] <= 9,
        forall|i: int, j: int| 0 <= i < j < 9 ==> values[i] != values[j],
        1 <= d <= 9,
    ensures
        exists|i: int| 0 <= i < 9 && values[i] == d,
{
    let all = set_int_range(1, 10);
    assert(values.no_duplicates());
    values.unique_seq_to_set();
    seq_to_set_is_finite(values);
    lemma_int_range(1, 10);
    assert(values.to_set().subset_of(all)) by {
        assert forall|x: int| values.to_set().contains(x) implies all.contains(x) by {
            let i = choose|i: int| 0 <= i < values.len() && values[i] == x;
            assert(1 <= values[i] <= 9);
        }
    }
    lemma_subset_equality(values.to_set(), all);
    assert(all.contains(d));
    assert(values.to_set().contains(d));
    assert(values.contains(d));
}

/// In a solved grid every row, every column and every box holds each of the
/// digits 1 to 9: for each of the nine rows, columns and boxes `unit` and
/// each digit `d` there is a cell of it that holds `d`, and no second one.
pub proof fn lemma_solution_units_complete(digits: Seq<u8>, unit: int, d: u8)
    requires
        is_solution(digits),
        0 <= unit < 9,
        1 <= d <= 9,
    ensures
        exists|k: int| 0 <= k < 9 && digits[row_cell(unit, k)] == d,
        exists|k: int| 0 <= k < 9 && digits[column_cell(unit, k)] == d,
        exists|k: int| 0 <= k < 9 && digits[box_cell(unit, k)] == d,
        forall|j: int, k: int|
            0 <= j < 9 && 0 <= k < 9 && digits[row_cell(unit, j)] == d && digits[row_cell(unit, k)]
                == d ==> j == k,
        forall|j: int, k: int|
            0 <= j < 9 && 0 <= k < 9 && digits[column_cell(unit, j)] == d && digits[column_cell(
                unit,
                k,
            )] == d ==> j == k,
        forall|j: int, k: int|
            0 <= j < 9 && 0 <= k < 9 && digits[box_cell(unit, j)] == d && digits[box_cell(unit, k)]
                == d ==> j == k,
{
    let in_row = Seq::new(9, |k: int| digits[cell_index(unit, k)] as int);
    let in_column = Seq::new(9, |k: int| digits[cell_index(k, unit)] as int);
    let in_box = Seq::new(
        9,
        |k: int| digits[cell_index(3 * (unit / 3) + k / 3, 3 * (unit % 3) + k % 3)] as int,
    );
    assert forall|j: int, k: int| 0 <= j < 9 && 0 <= k < 9 && j != k implies in_row[j] != in_row[k]
        && in_column[j] != in_column[k] && in_box[j] != in_box[k] by {
        assert(digits[cell_index(unit, j)] != digits[cell_index(unit, k)]);
        assert(digits[cell_index(j, unit)] != digits[cell_index(k, unit)]);
        let (row_j, column_j) = (3 * (unit / 3) + j / 3, 3 * (unit % 3) + j % 3);
        let (row_k, column_k) = (3 * (unit / 3) + k / 3, 3 * (unit % 3) + k % 3);
        assert(row_j != row_k || column_j != column_k);
        assert(same_unit(row_j, column_j, row_k, column_k));
        assert(digits[cell_index(row_j, column_j)] != digits[cell_index(row_k, column_k)]);
    }
    assert forall|k: int| 0 <= k < 9 implies 1 <= #[trigger] in_row[k] <= 9 by {
        assert(1 <= digits[cell_index(unit, k)] <= 9);
    }
    assert forall|k: int| 0 <= k < 9 implies 1 <= #[trigger] in_column[k] <= 9 by {
        assert(1 <= digits[cell_index(k, unit)] <= 9);
    }
    assert forall|k: int| 0 <= k < 9 implies 1 <= #[trigger] in_box[k] <= 9 by {
        assert(1 <= digits[cell_index(3 * (unit / 3) + k / 3, 3 * (unit % 3) + k % 3)] <= 9);
    }
    lemma_nine_different(in_row, d as int);
    lemma_nine_different(in_column, d as int);
    lemma_nine_different(in_box, d as int);
    let r = choose|k: int| 0 <= k < 9 && in_row[k] == d;
    assert(digits[row_cell(unit, r)] == d);
    let c = choose|k: int| 0 <= k < 9 && in_column[k] == d;
    assert(digits[column_cell(unit, c)] == d);
    let b = choose|k: int| 0 <= k < 9 && in_box[k] == d;
    assert(digits[box_cell(unit, b)] == d);
    assert forall|j: int, k: int|
        0 <= j < 9 && 0 <= k < 9 && digits[row_cell(unit, j)] == d && digits[row_cell(unit, k)]
            == d implies j == k by {
        assert(in_row[j] == in_row[k]);
    }
    assert forall|j: int, k: int|
        0 <= j < 9 && 0 <= k < 9 && digits[column_cell(unit, j)] == d && digits[column_cell(
            unit,
            k,
        )] == d implies j == k by {
        assert(in_column[j] == in_column[k]);
    }
    assert forall|j: int, k: int|
        0 <= j < 9 && 0 <= k < 9 && digits[box_cell(unit, j)] == d && digits[box_cell(unit, k)]
            == d implies j == k by {
        assert(in_box[j] == in_box[k]);
    }
}

/// A solved grid: each row is the row above it moved on by three places, and
/// by one place more at the start of each band of three rows.
pub open spec fn example_solution() -> Seq<u8> {
    Seq::new(81, |i: int| ((3 * ((i / 9) % 3) + (i / 9) / 3 + i % 9) % 9 + 1) as u8)
}

/// There are solved grids: `example_solution()` is one.
pub proof fn lemma_example_is_solution()
    ensures
        is_solution(example_solution()),
{
    let g = example_solution();
    assert forall|row: int, column: int| 0 <= row < 9 && 0 <= column < 9 implies #[trigger] g[cell_index(
        row,
        column,
    )] == (3 * (row % 3) + row / 3 + column) % 9 + 1 by {
        let i = cell_index(row, column);
        assert(i / 9 == row && i % 9 == column);
    }
}

} // verus!
