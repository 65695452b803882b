//! The board: four variables for each cell of the grid, which together hold
//! the cell's value as a binary number.

use crate::cnf::{agree_upto, Literal, Valuation, Variable, MAX_VARIABLES};
use crate::formula::Formula;
use crate::grid::{COLUMNS, ROWS};
use vstd::prelude::*;

verus! {

/// Number of variables of a cell.
pub const BITS: usize = 4;

/// The variables of all cells: row by row, cell by cell, and within a cell
/// from the most significant bit to the least.
pub struct Board {
    vars: Vec<Variable>,
}

/// What the bit at position `bit` of a cell adds to the cell's value when it
/// is set: 8, 4, 2, 1 for the positions 0 to 3.
pub open spec fn bit_weight(bit: int) -> int {
    if bit == 0 {
        8
    } else if bit == 1 {
        4
    } else if bit == 2 {
        2
    } else {
        1
    }
}

impl Board {
    /// The identifier of the first variable of the board. The others follow
    /// it without a gap.
    pub closed spec fn first(&self) -> int {
        self.vars@[0].id as int
    }

    /// The identifier of the last variable of the board.
    pub open spec fn last(&self) -> int {
        self.first() + 323
    }

    /// The identifier of the variable for the bit at position `bit` of the
    /// cell at `row` and `column`.
    pub open spec fn var_at(&self, row: int, column: int, bit: int) -> int {
        self.first() + (row * 9 + column) * 4 + bit
    }

    /// The invariant of a board: 324 variables with consecutive identifiers.
    pub closed spec fn wf(&self) -> bool {
        &&& self.vars@.len() == 324
        &&& 1 <= self.vars@[0].id
        &&& self.vars@[0].id + 323 <= MAX_VARIABLES
        &&& forall|i: int| 0 <= i < 324 ==> (#[trigger] self.vars@[i]).id == self.vars@[0].id + i
    }

    /// What the bit at position `bit` of a cell contributes to its value
    /// under `m`.
    pub open spec fn bit_value(&self, m: Valuation, row: int, column: int, bit: int) -> int {
        if m(self.var_at(row, column, bit)) {
            bit_weight(bit)
        } else {
            0
        }
    }

    /// The value of a cell under `m`: the binary number that its four bits
    /// spell, between 0 and 15.
    pub open spec fn cell_value(&self, m: Valuation, row: int, column: int) -> int {
        self.bit_value(m, row, column, 0) + self.bit_value(m, row, column, 1) + self.bit_value(
            m,
            row,
            column,
            2,
        ) + self.bit_value(m, row, column, 3)
    }

    /// The variables of a well-formed board have identifiers from 1 up.
    pub proof fn lemma_wf(&self)
        requires
            self.wf(),
        ensures
            1 <= self.first(),
            self.last() <= MAX_VARIABLES,
    {
    }

    /// Assignments that agree on the variables of the board give every cell
    /// the same value.
    pub proof fn lemma_cell_value_agree(
        &self,
        m1: Valuation,
        m2: Valuation,
        n: int,
        row: int,
        column: int,
    )
        requires
            self.wf(),
            self.last() <= n,
            agree_upto(m1, m2, n),
            0 <= row < 9,
            0 <= column < 9,
        ensures
            self.cell_value(m1, row, column) == self.cell_value(m2, row, column),
    {
        assert(m1(self.var_at(row, column, 0)) == m2(self.var_at(row, column, 0)));
        assert(m1(self.var_at(row, column, 1)) == m2(self.var_at(row, column, 1)));
        assert(m1(self.var_at(row, column, 2)) == m2(self.var_at(row, column, 2)));
        assert(m1(self.var_at(row, column, 3)) == m2(self.var_at(row, column, 3)));
    }

    /// Assignments that agree on the variables of the board give all cells
    /// the same values.
    pub proof fn lemma_cell_values_agree(&self, m1: Valuation, m2: Valuation, n: int)
        requires
            self.wf(),
            self.last() <= n,
            agree_upto(m1, m2, n),
        ensures
            forall|row: int, column: int|
                0 <= row < 9 && 0 <= column < 9 ==> (#[trigger] self.cell_value(m1, row, column))
                    == self.cell_value(m2, row, column),
            forall|row: int, column: int|
                0 <= row < 9 && 0 <= column < 9 ==> (#[trigger] self.cell_value(m2, row, column))
                    == self.cell_value(m1, row, column),
    {
        assert forall|row: int, column: int| 0 <= row < 9 && 0 <= column < 9 implies (
        #[trigger] self.cell_value(m1, row, column)) == self.cell_value(m2, row, column) by {
            self.lemma_cell_value_agree(m1, m2, n, row, column);
        }
    }

    /// Takes the 324 variables of a board from `formula`, in the order of
    /// rows, columns and bits.
    pub fn allocate(formula: &mut Formula) -> (board: Board)
        requires
            old(formula).wf(),
            old(formula).num_vars() + 324 <= MAX_VARIABLES,
        ensures
            final(formula).wf(),
            final(formula).num_vars() == old(formula).num_vars() + 324,
            final(formula).clauses() == old(formula).clauses(),
            board.wf(),
            board.first() == old(formula).num_vars() + 1,
    {
        let mut vars: Vec<Variable> = Vec::new();
        for row in 0..ROWS
            invariant
                formula.wf(),
                vars@.len() == row * 36,
                formula.num_vars() == old(formula).num_vars() + vars@.len(),
                formula.clauses() == old(formula).clauses(),
                old(formula).num_vars() + 324 <= MAX_VARIABLES,
                forall|i: int|
                    0 <= i < vars@.len() ==> (#[trigger] vars@[i]).id == old(formula).num_vars() + 1
                        + i,
        {
            for column in 0..COLUMNS
                invariant
                    row < 9,
                    formula.wf(),
                    vars@.len() == row * 36 + column * 4,
                    formula.num_vars() == old(formula).num_vars() + vars@.len(),
                    formula.clauses() == old(formula).clauses(),
                    old(formula).num_vars() + 324 <= MAX_VARIABLES,
                    forall|i: int|
                        0 <= i < vars@.len() ==> (#[trigger] vars@[i]).id == old(
                            formula,
                        ).num_vars() + 1 + i,
            {
                for bit in 0..BITS
                    invariant
                        row < 9,
                        column < 9,
                        formula.wf(),
                        vars@.len() == row * 36 + column * 4 + bit,
                        formula.num_vars() == old(formula).num_vars() + vars@.len(),
                        formula.clauses() == old(formula).clauses(),
                        old(formula).num_vars() + 324 <= MAX_VARIABLES,
                        forall|i: int|
                            0 <= i < vars@.len() ==> (#[trigger] vars@[i]).id == old(
                                formula,
                            ).num_vars() + 1 + i,
                {
                    let var = formula.new_variable();
                    vars.push(var);
                }
            }
        }
        proof {
            old(formula).lemma_wf();
        }
        Board { vars }
    }

    /// The positive literal of the bit at position `bit` of the cell at
    /// `row` and `column`.
    pub fn bit(&self, row: usize, column: usize, bit: usize) -> (lit: Literal)
        requires
            self.wf(),
            row < 9,
            column < 9,
            bit < 4,
        ensures
            lit.positive,
            lit.var.id == self.var_at(row as int, column as int, bit as int),
            self.first() <= lit.var.id <= self.last(),
    {
        Literal { var: self.vars[(row * COLUMNS + column) * BITS + bit], positive: true }
    }
}

} // verus!
