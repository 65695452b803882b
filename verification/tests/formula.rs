use sudoku::cnf::{Literal, Variable, MAX_VARIABLES};
use sudoku::formula::Formula;

fn gate_output(gate: &str, a: bool, b: bool) -> bool {
    let mut formula = Formula::new();
    let x = Literal::positive(formula.new_variable());
    let y = Literal::positive(formula.new_variable());
    let z = match gate {
        "and" => formula.and(x, y),
        "or" => formula.or(x, y),
        "xor" => formula.xor(x, y),
        _ => unreachable!(),
    };
    formula.assert_true(if a { x } else { x.negate() });
    formula.assert_true(if b { y } else { y.negate() });
    let assignment = formula.solve().expect("a gate with fixed inputs can be satisfied");
    assert_eq!(assignment.holds(x), a);
    assert_eq!(assignment.holds(y), b);
    assignment.holds(z)
}

fn output_can_be(gate: &str, a: bool, b: bool, wanted: bool) -> bool {
    let mut formula = Formula::new();
    let x = Literal::positive(formula.new_variable());
    let y = Literal::positive(formula.new_variable());
    let z = match gate {
        "and" => formula.and(x, y),
        "or" => formula.or(x, y),
        "xor" => formula.xor(x, y),
        _ => unreachable!(),
    };
    formula.assert_true(if a { x } else { x.negate() });
    formula.assert_true(if b { y } else { y.negate() });
    formula.assert_true(if wanted { z } else { z.negate() });
    formula.solve().is_some()
}

#[test]
fn and_gate_matches_truth_table() {
    assert_eq!(gate_output("and", false, false), false);
    assert_eq!(gate_output("and", false, true), false);
    assert_eq!(gate_output("and", true, false), false);
    assert_eq!(gate_output("and", true, true), true);
}

#[test]
fn or_gate_matches_truth_table() {
    assert_eq!(gate_output("or", false, false), false);
    assert_eq!(gate_output("or", false, true), true);
    assert_eq!(gate_output("or", true, false), true);
    assert_eq!(gate_output("or", true, true), true);
}

#[test]
fn xor_gate_matches_truth_table() {
    assert_eq!(gate_output("xor", false, false), false);
    assert_eq!(gate_output("xor", false, true), true);
    assert_eq!(gate_output("xor", true, false), true);
    assert_eq!(gate_output("xor", true, true), false);
}

#[test]
fn gate_output_cannot_take_the_other_value() {
    for gate in ["and", "or", "xor"] {
        for a in [false, true] {
            for b in [false, true] {
                let expected = match gate {
                    "and" => a && b,
                    "or" => a || b,
                    _ => a != b,
                };
                assert!(output_can_be(gate, a, b, expected));
                assert!(!output_can_be(gate, a, b, !expected));
            }
        }
    }
}

#[test]
fn gates_accept_negated_inputs() {
    let mut formula = Formula::new();
    let x = Literal::positive(formula.new_variable());
    let y = Literal::positive(formula.new_variable());
    let z = formula.and(x.negate(), y);
    formula.assert_true(z);
    let assignment = formula.solve().expect("satisfiable");
    assert_eq!(assignment.holds(x), false);
    assert_eq!(assignment.holds(y), true);
    assert_eq!(assignment.holds(z), true);
}

#[test]
fn gates_compose() {
    // (x xor y) or (x and y) is x or y.
    for a in [false, true] {
        for b in [false, true] {
            let mut formula = Formula::new();
            let x = Literal::positive(formula.new_variable());
            let y = Literal::positive(formula.new_variable());
            let differ = formula.xor(x, y);
            let both = formula.and(x, y);
            let any = formula.or(differ, both);
            formula.assert_true(if a { x } else { x.negate() });
            formula.assert_true(if b { y } else { y.negate() });
            let assignment = formula.solve().expect("satisfiable");
            assert_eq!(assignment.holds(any), a || b);
        }
    }
}

#[test]
fn variables_are_numbered_from_one() {
    let mut formula = Formula::new();
    assert_eq!(formula.num_variables(), 0);
    assert_eq!(formula.new_variable(), Variable { id: 1 });
    assert_eq!(formula.new_variable(), Variable { id: 2 });
    assert_eq!(formula.new_variable(), Variable { id: 3 });
    assert_eq!(formula.num_variables(), 3);
}

#[test]
fn each_gate_takes_one_fresh_variable() {
    let mut formula = Formula::new();
    let x = Literal::positive(formula.new_variable());
    let y = Literal::positive(formula.new_variable());
    let first = formula.and(x, y);
    assert_eq!(first, Literal { var: Variable { id: 3 }, positive: true });
    let second = formula.and(x, y);
    assert_eq!(second, Literal { var: Variable { id: 4 }, positive: true });
    let third = formula.or(x, y);
    assert_eq!(third, Literal { var: Variable { id: 5 }, positive: true });
    let fourth = formula.xor(x, y);
    assert_eq!(fourth, Literal { var: Variable { id: 6 }, positive: true });
    assert_eq!(formula.num_variables(), 6);
}

#[test]
fn assertions_take_no_variable() {
    let mut formula = Formula::new();
    let x = Literal::positive(formula.new_variable());
    let y = Literal::positive(formula.new_variable());
    formula.assert_true(x);
    formula.assert_any(x.negate(), y);
    assert_eq!(formula.num_variables(), 2);
}

#[test]
fn literal_negation_flips_polarity_only() {
    let var = Variable { id: 7 };
    let lit = Literal::positive(var);
    assert_eq!(lit, Literal { var, positive: true });
    assert_eq!(lit.negate(), Literal { var, positive: false });
    assert_eq!(lit.negate(), Literal::negative(var));
    assert_eq!(lit.negate().negate(), lit);
}

#[test]
fn max_variables_is_two_to_the_28_minus_one() {
    assert_eq!(MAX_VARIABLES, (1u32 << 28) - 1);
}

#[test]
fn empty_formula_is_satisfiable() {
    let formula = Formula::new();
    let assignment = formula.solve().expect("nothing is required");
    assert_eq!(assignment.num_variables(), 0);
}

#[test]
fn assert_true_forces_the_polarity() {
    let mut formula = Formula::new();
    let x = formula.new_variable();
    let y = formula.new_variable();
    formula.assert_true(Literal::positive(x));
    formula.assert_true(Literal::negative(y));
    let assignment = formula.solve().expect("satisfiable");
    assert_eq!(assignment.num_variables(), 2);
    assert_eq!(assignment.value_of(x), true);
    assert_eq!(assignment.value_of(y), false);
    assert_eq!(assignment.holds(Literal::negative(y)), true);
    assert_eq!(assignment.holds(Literal::negative(x)), false);
}

#[test]
fn assert_any_forces_one_of_two() {
    let mut formula = Formula::new();
    let x = Literal::positive(formula.new_variable());
    let y = Literal::positive(formula.new_variable());
    formula.assert_any(x, y);
    formula.assert_true(x.negate());
    let assignment = formula.solve().expect("satisfiable");
    assert_eq!(assignment.holds(x), false);
    assert_eq!(assignment.holds(y), true);
}

#[test]
fn contradiction_is_unsatisfiable() {
    let mut formula = Formula::new();
    let x = Literal::positive(formula.new_variable());
    formula.assert_true(x);
    formula.assert_true(x.negate());
    assert!(formula.solve().is_none());
}

#[test]
fn assert_any_of_two_false_literals_is_unsatisfiable() {
    let mut formula = Formula::new();
    let x = Literal::positive(formula.new_variable());
    let y = Literal::positive(formula.new_variable());
    formula.assert_any(x, y);
    formula.assert_true(x.negate());
    formula.assert_true(y.negate());
    assert!(formula.solve().is_none());
}

#[test]
fn unused_variable_has_a_value() {
    let mut formula = Formula::new();
    let unused = formula.new_variable();
    let x = formula.new_variable();
    formula.assert_true(Literal::positive(x));
    let assignment = formula.solve().expect("satisfiable");
    assert_eq!(assignment.num_variables(), 2);
    assert_eq!(assignment.value_of(x), true);
    let value = assignment.value_of(unused);
    assert_eq!(assignment.holds(Literal::positive(unused)), value);
    assert_eq!(assignment.holds(Literal::negative(unused)), !value);
}

#[test]
fn assert_false_forces_the_opposite_polarity() {
    let mut formula = Formula::new();
    let x = Literal::positive(formula.new_variable());
    let y = Literal::positive(formula.new_variable());
    formula.assert_false(x);
    formula.assert_false(y.negate());
    assert_eq!(formula.num_variables(), 2);
    let assignment = formula.solve().expect("satisfiable");
    assert_eq!(assignment.holds(x), false);
    assert_eq!(assignment.holds(y), true);
}

#[test]
fn assert_false_contradicts_assert_true() {
    let mut formula = Formula::new();
    let x = Literal::positive(formula.new_variable());
    formula.assert_true(x);
    formula.assert_false(x);
    assert!(formula.solve().is_none());
}
