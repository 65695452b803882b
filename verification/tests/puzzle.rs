use sudoku::board::Board;
use sudoku::cnf::Literal;
use sudoku::domain::{constrain_cell, constrain_cells};
use sudoku::formula::Formula;
use sudoku::givens::{assign, constrain_fixed, has_bit};
use sudoku::grid::{FixedCell, Grid};
use sudoku::inequality::{assert_different, not_equal};
use sudoku::puzzle::{decode, encode, solve, weight};
use sudoku::uniqueness::{constrain_box, constrain_boxes, constrain_columns, constrain_rows};

fn assert_valid(grid: &Grid) {
    for i in 0..9 {
        let mut in_row = [false; 10];
        let mut in_column = [false; 10];
        let mut in_box = [false; 10];
        for j in 0..9 {
            let d = grid.digit(i, j) as usize;
            assert!((1..=9).contains(&d), "digit {} at ({}, {})", d, i, j);
            assert!(!in_row[d], "digit {} twice in row {}", d, i);
            in_row[d] = true;
            let d = grid.digit(j, i) as usize;
            assert!((1..=9).contains(&d), "digit {} at ({}, {})", d, j, i);
            assert!(!in_column[d], "digit {} twice in column {}", d, i);
            in_column[d] = true;
            let (row, column) = (3 * (i / 3) + j / 3, 3 * (i % 3) + j % 3);
            let d = grid.digit(row, column) as usize;
            assert!(!in_box[d], "digit {} twice in box {}", d, i);
            in_box[d] = true;
        }
        for d in 1..=9 {
            assert!(in_row[d] && in_column[d] && in_box[d], "digit {} missing in unit {}", d, i);
        }
    }
}

fn set_bits(formula: &mut Formula, board: &Board, row: usize, column: usize, value: u8) {
    for bit in 0..4 {
        let lit = board.bit(row, column, bit);
        if value & (8 >> bit) != 0 {
            formula.assert_true(lit);
        } else {
            formula.assert_true(lit.negate());
        }
    }
}

const SOLVED: [[u8; 9]; 9] = [
    [5, 3, 4, 6, 7, 8, 9, 1, 2],
    [6, 7, 2, 1, 9, 5, 3, 4, 8],
    [1, 9, 8, 3, 4, 2, 5, 6, 7],
    [8, 5, 9, 7, 6, 1, 4, 2, 3],
    [4, 2, 6, 8, 5, 3, 7, 9, 1],
    [7, 1, 3, 9, 2, 4, 8, 5, 6],
    [9, 6, 1, 5, 3, 7, 2, 8, 4],
    [2, 8, 7, 4, 1, 9, 6, 3, 5],
    [3, 4, 5, 2, 8, 6, 1, 7, 9],
];

const CLUES: [[u8; 9]; 9] = [
    [5, 3, 0, 0, 7, 0, 0, 0, 0],
    [6, 0, 0, 1, 9, 5, 0, 0, 0],
    [0, 9, 8, 0, 0, 0, 0, 6, 0],
    [8, 0, 0, 0, 6, 0, 0, 0, 3],
    [4, 0, 0, 8, 0, 3, 0, 0, 1],
    [7, 0, 0, 0, 2, 0, 0, 0, 6],
    [0, 6, 0, 0, 0, 0, 2, 8, 0],
    [0, 0, 0, 4, 1, 9, 0, 0, 5],
    [0, 0, 0, 0, 8, 0, 0, 7, 9],
];

fn cells_of(digits: &[[u8; 9]; 9]) -> Vec<FixedCell> {
    let mut fixed = Vec::new();
    for row in 0..9 {
        for column in 0..9 {
            if digits[row][column] != 0 {
                fixed.push(FixedCell { row, column, digit: digits[row][column] });
            }
        }
    }
    fixed
}

#[test]
fn empty_puzzle_has_a_valid_solution() {
    let grid = solve(&Vec::new()).expect("the empty puzzle has solutions");
    assert_valid(&grid);
}

#[test]
fn two_fixed_cells_are_honored() {
    let fixed = vec![
        FixedCell { row: 0, column: 0, digit: 1 },
        FixedCell { row: 0, column: 1, digit: 4 },
    ];
    let grid = solve(&fixed).expect("satisfiable");
    assert_eq!(grid.digit(0, 0), 1);
    assert_eq!(grid.digit(0, 1), 4);
    assert_valid(&grid);
}

#[test]
fn equal_digits_in_a_row_are_unsatisfiable() {
    let fixed = vec![
        FixedCell { row: 0, column: 0, digit: 5 },
        FixedCell { row: 0, column: 1, digit: 5 },
    ];
    assert!(solve(&fixed).is_none());
}

#[test]
fn equal_digits_in_a_column_are_unsatisfiable() {
    let fixed = vec![
        FixedCell { row: 2, column: 7, digit: 9 },
        FixedCell { row: 8, column: 7, digit: 9 },
    ];
    assert!(solve(&fixed).is_none());
}

#[test]
fn equal_digits_in_a_box_are_unsatisfiable() {
    let fixed = vec![
        FixedCell { row: 3, column: 3, digit: 2 },
        FixedCell { row: 4, column: 5, digit: 2 },
    ];
    assert!(solve(&fixed).is_none());
}

#[test]
fn equal_digits_in_no_common_unit_are_satisfiable() {
    let fixed = vec![
        FixedCell { row: 0, column: 0, digit: 5 },
        FixedCell { row: 4, column: 4, digit: 5 },
        FixedCell { row: 8, column: 8, digit: 5 },
    ];
    let grid = solve(&fixed).expect("satisfiable");
    assert_eq!(grid.digit(0, 0), 5);
    assert_eq!(grid.digit(4, 4), 5);
    assert_eq!(grid.digit(8, 8), 5);
    assert_valid(&grid);
}

#[test]
fn one_cell_given_twice_with_two_digits_is_unsatisfiable() {
    let fixed = vec![
        FixedCell { row: 4, column: 4, digit: 3 },
        FixedCell { row: 4, column: 4, digit: 7 },
    ];
    assert!(solve(&fixed).is_none());
}

#[test]
fn one_cell_given_twice_with_one_digit_is_satisfiable() {
    let fixed = vec![
        FixedCell { row: 4, column: 4, digit: 3 },
        FixedCell { row: 4, column: 4, digit: 3 },
    ];
    let grid = solve(&fixed).expect("satisfiable");
    assert_eq!(grid.digit(4, 4), 3);
    assert_valid(&grid);
}

#[test]
fn full_solved_grid_comes_back_unchanged() {
    let grid = solve(&cells_of(&SOLVED)).expect("a solved grid solves itself");
    for row in 0..9 {
        for column in 0..9 {
            assert_eq!(grid.digit(row, column), SOLVED[row][column]);
        }
    }
    let digits: Vec<u8> = SOLVED.iter().flatten().copied().collect();
    assert_eq!(grid, Grid::from_digits(digits));
}

#[test]
fn puzzle_with_one_solution_is_solved() {
    let grid = solve(&cells_of(&CLUES)).expect("the puzzle has a solution");
    for row in 0..9 {
        for column in 0..9 {
            assert_eq!(grid.digit(row, column), SOLVED[row][column]);
        }
    }
}

#[test]
fn full_grid_with_one_wrong_digit_is_unsatisfiable() {
    let mut digits = SOLVED;
    digits[8][8] = 1;
    assert!(solve(&cells_of(&digits)).is_none());
}

#[test]
fn solving_twice_honors_the_fixed_cells_both_times() {
    let fixed = vec![
        FixedCell { row: 1, column: 2, digit: 9 },
        FixedCell { row: 5, column: 5, digit: 1 },
        FixedCell { row: 7, column: 0, digit: 6 },
    ];
    for _ in 0..2 {
        let grid = solve(&fixed).expect("satisfiable");
        assert_eq!(grid.digit(1, 2), 9);
        assert_eq!(grid.digit(5, 5), 1);
        assert_eq!(grid.digit(7, 0), 6);
        assert_valid(&grid);
    }
}

#[test]
fn every_digit_can_be_fixed_in_every_corner() {
    for digit in 1..=9u8 {
        let fixed = vec![
            FixedCell { row: 0, column: 0, digit },
            FixedCell { row: 8, column: 8, digit: 10 - digit },
        ];
        let grid = solve(&fixed).expect("satisfiable");
        assert_eq!(grid.digit(0, 0), digit);
        assert_eq!(grid.digit(8, 8), 10 - digit);
        assert_valid(&grid);
    }
}

#[test]
fn encoding_has_the_expected_number_of_variables() {
    let encoding = encode(&Vec::new());
    // 324 for the board, 3 for each of 81 cells, 7 for each of 972 pairs.
    assert_eq!(encoding.formula.num_variables(), 324 + 81 * 3 + 972 * 7);
    assert_eq!(encoding.formula.num_variables(), 7371);
    let with_givens = encode(&cells_of(&CLUES));
    assert_eq!(with_givens.formula.num_variables(), 7371);
}

#[test]
fn board_variables_are_consecutive() {
    let mut formula = Formula::new();
    let board = Board::allocate(&mut formula);
    assert_eq!(formula.num_variables(), 324);
    assert_eq!(board.bit(0, 0, 0).var.id, 1);
    assert_eq!(board.bit(0, 0, 3).var.id, 4);
    assert_eq!(board.bit(0, 1, 0).var.id, 5);
    assert_eq!(board.bit(1, 0, 0).var.id, 37);
    assert_eq!(board.bit(8, 8, 3).var.id, 324);
    assert!(board.bit(4, 4, 2).positive);
}

#[test]
fn board_after_other_variables_starts_at_the_next() {
    let mut formula = Formula::new();
    let x = formula.new_variable();
    let y = formula.new_variable();
    assert_eq!((x.id, y.id), (1, 2));
    let board = Board::allocate(&mut formula);
    assert_eq!(formula.num_variables(), 326);
    assert_eq!(board.bit(0, 0, 0).var.id, 3);
    assert_eq!(board.bit(8, 8, 3).var.id, 326);
}

#[test]
fn bit_weights_are_8_4_2_1() {
    assert_eq!(weight(0), 8);
    assert_eq!(weight(1), 4);
    assert_eq!(weight(2), 2);
    assert_eq!(weight(3), 1);
}

#[test]
fn has_bit_reads_most_significant_bit_first() {
    assert_eq!((has_bit(8, 0), has_bit(8, 1), has_bit(8, 2), has_bit(8, 3)), (true, false, false, false));
    assert_eq!((has_bit(5, 0), has_bit(5, 1), has_bit(5, 2), has_bit(5, 3)), (false, true, false, true));
    assert_eq!((has_bit(0, 0), has_bit(0, 1), has_bit(0, 2), has_bit(0, 3)), (false, false, false, false));
    assert_eq!((has_bit(15, 0), has_bit(15, 1), has_bit(15, 2), has_bit(15, 3)), (true, true, true, true));
    assert_eq!((has_bit(3, 0), has_bit(3, 1), has_bit(3, 2), has_bit(3, 3)), (false, false, true, true));
}

#[test]
fn not_equal_tells_all_pairs_of_four_bit_values_apart() {
    for v1 in 0..16u8 {
        for v2 in 0..16u8 {
            let mut formula = Formula::new();
            let board = Board::allocate(&mut formula);
            let ne = not_equal(&mut formula, &board, 0, 0, 0, 1);
            assert_eq!(ne, Literal { var: sudoku::cnf::Variable { id: 331 }, positive: true });
            set_bits(&mut formula, &board, 0, 0, v1);
            set_bits(&mut formula, &board, 0, 1, v2);
            let assignment = formula.solve().expect("a definition constrains nothing");
            assert_eq!(assignment.holds(ne), v1 != v2, "values {} and {}", v1, v2);
        }
    }
}

#[test]
fn not_equal_cannot_take_the_other_value() {
    for (v1, v2) in [(0u8, 0u8), (3, 3), (15, 15), (8, 0), (1, 2), (7, 15), (4, 5)] {
        for claim in [false, true] {
            let mut formula = Formula::new();
            let board = Board::allocate(&mut formula);
            let ne = not_equal(&mut formula, &board, 2, 3, 7, 8);
            set_bits(&mut formula, &board, 2, 3, v1);
            set_bits(&mut formula, &board, 7, 8, v2);
            formula.assert_true(if claim { ne } else { ne.negate() });
            assert_eq!(formula.solve().is_some(), claim == (v1 != v2));
        }
    }
}

#[test]
fn not_equal_takes_seven_variables() {
    let mut formula = Formula::new();
    let board = Board::allocate(&mut formula);
    let first = not_equal(&mut formula, &board, 0, 0, 0, 1);
    assert_eq!(formula.num_variables(), 331);
    assert_eq!(first.var.id, 331);
    let second = not_equal(&mut formula, &board, 0, 0, 0, 1);
    assert_eq!(formula.num_variables(), 338);
    assert_eq!(second.var.id, 338);
}

#[test]
fn assert_different_excludes_equal_values_only() {
    for v1 in 0..16u8 {
        for v2 in 0..16u8 {
            let mut formula = Formula::new();
            let board = Board::allocate(&mut formula);
            assert_different(&mut formula, &board, 0, 0, 5, 5);
            assert_eq!(formula.num_variables(), 331);
            set_bits(&mut formula, &board, 0, 0, v1);
            set_bits(&mut formula, &board, 5, 5, v2);
            assert_eq!(formula.solve().is_some(), v1 != v2);
        }
    }
}

#[test]
fn cell_domain_allows_0_to_8_only() {
    for value in 0..16u8 {
        let mut formula = Formula::new();
        let board = Board::allocate(&mut formula);
        constrain_cell(&mut formula, &board, 3, 4);
        assert_eq!(formula.num_variables(), 327);
        set_bits(&mut formula, &board, 3, 4, value);
        assert_eq!(formula.solve().is_some(), value <= 8, "value {}", value);
    }
}

#[test]
fn cell_domain_leaves_other_cells_free() {
    let mut formula = Formula::new();
    let board = Board::allocate(&mut formula);
    constrain_cell(&mut formula, &board, 3, 4);
    set_bits(&mut formula, &board, 4, 3, 15);
    let assignment = formula.solve().expect("satisfiable");
    let grid = decode(&assignment, &board);
    assert_eq!(grid.digit(4, 3), 16);
    assert!(grid.digit(3, 4) <= 9);
}

#[test]
fn all_cell_domains_keep_every_digit_between_1_and_9() {
    let mut formula = Formula::new();
    let board = Board::allocate(&mut formula);
    constrain_cells(&mut formula, &board);
    assert_eq!(formula.num_variables(), 324 + 243);
    // Ask for the largest values that are left: the first bit of every cell.
    for row in 0..9 {
        for column in 0..9 {
            formula.assert_true(board.bit(row, column, 0));
        }
    }
    let assignment = formula.solve().expect("satisfiable");
    let grid = decode(&assignment, &board);
    for row in 0..9 {
        for column in 0..9 {
            assert_eq!(grid.digit(row, column), 9);
        }
    }
}

#[test]
fn all_cell_domains_exclude_ten_in_any_cell() {
    for (row, column) in [(0, 0), (4, 7), (8, 8)] {
        let mut formula = Formula::new();
        let board = Board::allocate(&mut formula);
        constrain_cells(&mut formula, &board);
        set_bits(&mut formula, &board, row, column, 9);
        assert!(formula.solve().is_none());
    }
}

#[test]
fn assign_fixes_the_value_of_a_cell() {
    for number in 0..=8u8 {
        let mut formula = Formula::new();
        let board = Board::allocate(&mut formula);
        assign(&mut formula, &board, 6, 2, number);
        assert_eq!(formula.num_variables(), 324);
        let assignment = formula.solve().expect("satisfiable");
        let grid = decode(&assignment, &board);
        assert_eq!(grid.digit(6, 2), number + 1);
        for bit in 0..4 {
            assert_eq!(assignment.holds(board.bit(6, 2, bit)), number & (8 >> bit) != 0);
        }
    }
}

#[test]
fn assign_twice_with_different_numbers_is_unsatisfiable() {
    let mut formula = Formula::new();
    let board = Board::allocate(&mut formula);
    assign(&mut formula, &board, 6, 2, 3);
    assign(&mut formula, &board, 6, 2, 4);
    assert!(formula.solve().is_none());
}

#[test]
fn decode_adds_the_weights_of_the_set_bits_plus_one() {
    let mut formula = Formula::new();
    let board = Board::allocate(&mut formula);
    for row in 0..9 {
        for column in 0..9 {
            set_bits(&mut formula, &board, row, column, ((row * 9 + column) % 16) as u8);
        }
    }
    let assignment = formula.solve().expect("satisfiable");
    let grid = decode(&assignment, &board);
    for row in 0..9 {
        for column in 0..9 {
            assert_eq!(grid.digit(row, column), ((row * 9 + column) % 16) as u8 + 1);
        }
    }
    // 1010 is 8 + 2.
    assert_eq!(grid.digit(1, 1), 11);
}

#[test]
fn rows_alone_allow_equal_values_in_a_column() {
    let mut formula = Formula::new();
    let board = Board::allocate(&mut formula);
    constrain_rows(&mut formula, &board);
    assert_eq!(formula.num_variables(), 324 + 2268);
    assign(&mut formula, &board, 0, 0, 4);
    assign(&mut formula, &board, 1, 0, 4);
    let assignment = formula.solve().expect("satisfiable");
    let grid = decode(&assignment, &board);
    assert_eq!(grid.digit(0, 0), 5);
    assert_eq!(grid.digit(1, 0), 5);
    for row in 0..9 {
        for a in 0..9 {
            for b in (a + 1)..9 {
                assert_ne!(grid.digit(row, a), grid.digit(row, b));
            }
        }
    }
}

#[test]
fn rows_exclude_equal_values_in_a_row() {
    for (a, b) in [(0, 1), (0, 8), (3, 4), (7, 8)] {
        let mut formula = Formula::new();
        let board = Board::allocate(&mut formula);
        constrain_rows(&mut formula, &board);
        assign(&mut formula, &board, 5, a, 2);
        assign(&mut formula, &board, 5, b, 2);
        assert!(formula.solve().is_none());
    }
}

#[test]
fn columns_alone_allow_equal_values_in_a_row() {
    let mut formula = Formula::new();
    let board = Board::allocate(&mut formula);
    constrain_columns(&mut formula, &board);
    assert_eq!(formula.num_variables(), 324 + 2268);
    assign(&mut formula, &board, 0, 0, 4);
    assign(&mut formula, &board, 0, 1, 4);
    let assignment = formula.solve().expect("satisfiable");
    let grid = decode(&assignment, &board);
    for column in 0..9 {
        for a in 0..9 {
            for b in (a + 1)..9 {
                assert_ne!(grid.digit(a, column), grid.digit(b, column));
            }
        }
    }
}

#[test]
fn columns_exclude_equal_values_in_a_column() {
    for (a, b) in [(0, 1), (0, 8), (3, 4), (7, 8)] {
        let mut formula = Formula::new();
        let board = Board::allocate(&mut formula);
        constrain_columns(&mut formula, &board);
        assign(&mut formula, &board, a, 6, 8);
        assign(&mut formula, &board, b, 6, 8);
        assert!(formula.solve().is_none());
    }
}

#[test]
fn one_box_excludes_equal_values_within_it_only() {
    for a in 0..9usize {
        for b in 0..9usize {
            if a == b {
                continue;
            }
            let mut formula = Formula::new();
            let board = Board::allocate(&mut formula);
            constrain_box(&mut formula, &board, 3, 6);
            assert_eq!(formula.num_variables(), 324 + 252);
            assign(&mut formula, &board, 3 + a / 3, 6 + a % 3, 0);
            assign(&mut formula, &board, 3 + b / 3, 6 + b % 3, 0);
            assert!(formula.solve().is_none(), "cells {} and {}", a, b);
        }
    }
    let mut formula = Formula::new();
    let board = Board::allocate(&mut formula);
    constrain_box(&mut formula, &board, 3, 6);
    assign(&mut formula, &board, 3, 6, 0);
    assign(&mut formula, &board, 3, 5, 0);
    assign(&mut formula, &board, 2, 6, 0);
    assert!(formula.solve().is_some());
}

#[test]
fn boxes_exclude_equal_values_in_each_box() {
    for (box_row, box_column) in [(0, 0), (0, 2), (1, 1), (2, 0), (2, 2)] {
        let mut formula = Formula::new();
        let board = Board::allocate(&mut formula);
        constrain_boxes(&mut formula, &board);
        assert_eq!(formula.num_variables(), 324 + 2268);
        assign(&mut formula, &board, 3 * box_row, 3 * box_column, 7);
        assign(&mut formula, &board, 3 * box_row + 2, 3 * box_column + 1, 7);
        assert!(formula.solve().is_none());
    }
    let mut formula = Formula::new();
    let board = Board::allocate(&mut formula);
    constrain_boxes(&mut formula, &board);
    assign(&mut formula, &board, 2, 2, 7);
    assign(&mut formula, &board, 2, 3, 7);
    assign(&mut formula, &board, 3, 2, 7);
    assert!(formula.solve().is_some());
}

#[test]
fn grid_is_read_row_by_row() {
    let digits: Vec<u8> = (0..81).map(|i| (i % 9) as u8 + 1).collect();
    let grid = Grid::from_digits(digits);
    assert_eq!(grid.digit(0, 0), 1);
    assert_eq!(grid.digit(0, 8), 9);
    assert_eq!(grid.digit(1, 0), 1);
    assert_eq!(grid.digit(8, 3), 4);
}

#[test]
fn constrain_fixed_holds_each_given_cell() {
    let fixed = vec![
        FixedCell { row: 0, column: 0, digit: 1 },
        FixedCell { row: 3, column: 7, digit: 9 },
        FixedCell { row: 8, column: 8, digit: 6 },
    ];
    let mut formula = Formula::new();
    let board = Board::allocate(&mut formula);
    constrain_fixed(&mut formula, &board, &fixed);
    assert_eq!(formula.num_variables(), 324);
    let assignment = formula.solve().expect("satisfiable");
    let grid = decode(&assignment, &board);
    assert_eq!(grid.digit(0, 0), 1);
    assert_eq!(grid.digit(3, 7), 9);
    assert_eq!(grid.digit(8, 8), 6);
}

#[test]
fn constrain_fixed_with_no_cells_requires_nothing() {
    let mut formula = Formula::new();
    let board = Board::allocate(&mut formula);
    constrain_fixed(&mut formula, &board, &Vec::new());
    set_bits(&mut formula, &board, 0, 0, 15);
    assert!(formula.solve().is_some());
}
