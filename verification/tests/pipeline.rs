use linear_solver::equation::Equation;
use linear_solver::equation_solver::{recursive_solve, EquationSolver};
use linear_solver::expression::{ExpressionSide, ExpressionType, Rational};
use linear_solver::fold::simplify_side;
use linear_solver::render::eqsolver_to_string;
use linear_solver::solve_equation;
use linear_solver::tokenizer::tokenize;
use linear_solver::SolveError;

fn strings(words: &[&str]) -> Vec<String> {
    words.iter().map(|w| w.to_string()).collect()
}

#[test]
fn tokenize_inserts_implicit_multiplication() {
    let tokens = tokenize("2x+3=7");
    assert_eq!(tokens, strings(&["2", "*", "x", "+", "3", "=", "7"]));
}

#[test]
fn tokenize_skips_unrecognised_characters() {
    let tokens = tokenize(" 2 x + 3 = 7 ");
    assert_eq!(tokens, strings(&["2", "*", "x", "+", "3", "=", "7"]));
}

#[test]
fn tokenize_keeps_digit_runs_together() {
    let tokens = tokenize("10/x=2");
    assert_eq!(tokens, strings(&["10", "/", "x", "=", "2"]));
}

#[test]
fn tokenize_no_insertion_after_letter() {
    let tokens = tokenize("x2=4");
    assert_eq!(tokens, strings(&["x", "2", "=", "4"]));
}

#[test]
fn split_at_equals_sign() {
    let equation = Equation::from_tokens(strings(&["2", "*", "x", "=", "7"]));
    let (left, right) = equation.parse().unwrap();
    assert_eq!(left, strings(&["2", "*", "x"]));
    assert_eq!(right, strings(&["7"]));
}

#[test]
fn split_without_equals_fails() {
    let equation = Equation::from_tokens(strings(&["2", "*", "x"]));
    assert_eq!(equation.parse().unwrap_err(), SolveError::NoEqualsSign);
}

#[test]
fn parse_addition_of_product_and_constant() {
    let tree = ExpressionType::parse_tokens(strings(&["2", "*", "x", "+", "3"])).unwrap();
    match tree {
        ExpressionType::Addition(outer) => {
            match &outer.0 {
                ExpressionType::Multiplication(inner) => {
                    assert!(matches!(inner.0, ExpressionType::Constant(Rational { num: 2, den: 1 })));
                    assert!(matches!(inner.1, ExpressionType::Variable('x')));
                }
                other => panic!("expected a multiplication on the left, got {:?}", other),
            }
            assert!(matches!(outer.1, ExpressionType::Constant(Rational { num: 3, den: 1 })));
        }
        other => panic!("expected an addition at the root, got {:?}", other),
    }
}

#[test]
fn parse_single_tokens() {
    let number = ExpressionType::parse_tokens(strings(&["42"])).unwrap();
    assert!(matches!(number, ExpressionType::Constant(Rational { num: 42, den: 1 })));
    let variable = ExpressionType::parse_tokens(strings(&["y"])).unwrap();
    assert!(matches!(variable, ExpressionType::Variable('y')));
}

#[test]
fn parse_failures() {
    assert_eq!(
        ExpressionType::parse_tokens(Vec::new()).unwrap_err(),
        SolveError::ParseFailure
    );
    assert_eq!(
        ExpressionType::parse_tokens(strings(&["x", "2"])).unwrap_err(),
        SolveError::ParseFailure
    );
    assert_eq!(
        ExpressionType::parse_tokens(strings(&["+", "1"])).unwrap_err(),
        SolveError::ParseFailure
    );
    // A numeral beyond the supported exact range is rejected.
    assert_eq!(
        ExpressionType::parse_tokens(strings(&["9223372036854775807"])).unwrap_err(),
        SolveError::ParseFailure
    );
}

#[test]
fn find_variable_paths() {
    let tree = ExpressionType::parse_tokens(strings(&["2", "*", "x", "+", "3"])).unwrap();
    let path = tree.find_variable().unwrap();
    assert_eq!(path, vec![ExpressionSide::Left, ExpressionSide::Right]);
    let no_var = ExpressionType::parse_tokens(strings(&["2", "+", "3"])).unwrap();
    assert!(no_var.find_variable().is_none());
}

#[test]
fn end_to_end_two_x_plus_three() {
    assert_eq!(solve_equation("2x+3=7").unwrap(), "x = 2");
}

#[test]
fn end_to_end_x_minus_five() {
    assert_eq!(solve_equation("x-5=10").unwrap(), "x = 15");
}

#[test]
fn end_to_end_three_x() {
    assert_eq!(solve_equation("3x=9").unwrap(), "x = 3");
}

#[test]
fn end_to_end_variable_divisor_swaps_sides() {
    assert_eq!(solve_equation("10/x=2").unwrap(), "x = 5");
}

#[test]
fn end_to_end_chained_products() {
    assert_eq!(solve_equation("2 3x=12").unwrap(), "x = 2");
}

#[test]
fn end_to_end_non_integral_solution() {
    assert_eq!(solve_equation("2x=5").unwrap(), "x = 5/2");
}

#[test]
fn end_to_end_missing_equals_sign() {
    assert_eq!(solve_equation("2x+3").unwrap_err(), SolveError::NoEqualsSign);
}

#[test]
fn end_to_end_no_variable() {
    assert_eq!(solve_equation("2+3=7").unwrap_err(), SolveError::NoVariablePath);
}

#[test]
fn end_to_end_parse_failure() {
    assert_eq!(solve_equation("2++x=7").unwrap_err(), SolveError::ParseFailure);
}

#[test]
fn end_to_end_division_by_zero_in_folding() {
    assert_eq!(solve_equation("x+1/0=2").unwrap_err(), SolveError::DivisionByZero);
}

#[test]
fn end_to_end_overflow_in_folding() {
    assert_eq!(
        solve_equation("x/4611686018427387904=4611686018427387904").unwrap_err(),
        SolveError::Overflow
    );
}

#[test]
fn end_to_end_unsolved_state_yields_diagnostic() {
    assert_eq!(
        solve_equation("x=y").unwrap(),
        "Unable to create a string from x = y"
    );
}

#[test]
fn folding_constant_leaf_is_identity() {
    let constant = ExpressionType::Constant(Rational { num: 4, den: 2 });
    let folded = simplify_side(constant).unwrap();
    assert!(matches!(folded, ExpressionType::Constant(Rational { num: 4, den: 2 })));
    let refolded = simplify_side(folded).unwrap();
    assert!(matches!(refolded, ExpressionType::Constant(Rational { num: 4, den: 2 })));
}

#[test]
fn folding_collapses_constant_tree() {
    let tree = ExpressionType::parse_tokens(strings(&["2", "+", "3", "*", "4"])).unwrap();
    // The parser splits on `+` first: 2 + (3 * 4).
    let folded = simplify_side(tree).unwrap();
    match folded {
        ExpressionType::Constant(c) => {
            assert_eq!(c.num % c.den, 0);
            assert_eq!(c.num / c.den, 14);
        }
        other => panic!("expected a constant, got {:?}", other),
    }
}

#[test]
fn folding_leaves_variable_tree_untouched() {
    let tree = ExpressionType::parse_tokens(strings(&["x", "+", "2", "*", "3"])).unwrap();
    let folded = simplify_side(tree).unwrap();
    // The whole tree holds the variable, so even its constant subtree stays.
    match folded {
        ExpressionType::Addition(b) => {
            assert!(matches!(b.0, ExpressionType::Variable('x')));
            assert!(matches!(b.1, ExpressionType::Multiplication(_)));
        }
        other => panic!("expected the tree unchanged, got {:?}", other),
    }
}

#[test]
fn solver_takes_one_step_per_level() {
    let left = ExpressionType::parse_tokens(strings(&["2", "*", "x", "+", "3"])).unwrap();
    let right = ExpressionType::parse_tokens(strings(&["7"])).unwrap();
    // The variable leaf sits two levels down, so exactly two steps solve it.
    let solver = EquationSolver::from(left, right);
    let after_one = solver.solve_step().unwrap();
    assert!(!matches!(after_one.left_side, ExpressionType::Variable(_)));
    let after_two = after_one.solve_step().unwrap();
    assert!(matches!(after_two.left_side, ExpressionType::Variable('x')));
}

#[test]
fn solver_reports_missing_variable() {
    let left = ExpressionType::parse_tokens(strings(&["2", "+", "3"])).unwrap();
    let right = ExpressionType::parse_tokens(strings(&["7"])).unwrap();
    let solver = EquationSolver::from(left, right);
    assert_eq!(solver.solve_step().unwrap_err(), SolveError::NoVariablePath);
}

#[test]
fn recursive_solve_reaches_bare_variable() {
    let left = ExpressionType::parse_tokens(strings(&["2", "*", "x", "+", "3"])).unwrap();
    let right = ExpressionType::parse_tokens(strings(&["7"])).unwrap();
    let solved = recursive_solve(EquationSolver::from(left, right)).unwrap();
    assert!(matches!(solved.left_side, ExpressionType::Variable('x')));
}

#[test]
fn rendering_solved_and_unsolved_states() {
    let solved = EquationSolver::from(
        ExpressionType::Variable('x'),
        ExpressionType::Constant(Rational { num: -8, den: 4 }),
    );
    assert_eq!(eqsolver_to_string(solved), "x = -2");
    let unsolved = EquationSolver::from(
        ExpressionType::Addition(Box::new((
            ExpressionType::Variable('x'),
            ExpressionType::Constant(Rational { num: 1, den: 1 }),
        ))),
        ExpressionType::Constant(Rational { num: 7, den: 1 }),
    );
    assert_eq!(
        eqsolver_to_string(unsolved),
        "Unable to create a string from (x + 1) = 7"
    );
}

#[test]
fn second_equals_sign_stays_in_right_side() {
    // Only the first `=` splits; the leftover one fails the right side's parse.
    assert_eq!(solve_equation("x=1=2").unwrap_err(), SolveError::ParseFailure);
}

#[test]
fn empty_input_has_no_equation() {
    assert_eq!(solve_equation("").unwrap_err(), SolveError::NoEqualsSign);
}

#[test]
fn end_to_end_negative_solution() {
    assert_eq!(solve_equation("x+5=3").unwrap(), "x = -2");
}
