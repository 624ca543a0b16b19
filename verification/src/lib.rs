//! A verified solver for single-variable linear equations.
//!
//! The pipeline turns a raw equation string such as `"2x+3=7"` into the
//! isolated-variable answer `"x = 2"`: the tokenizer produces lexical tokens,
//! the equation splitter cuts the token sequence at the equals sign, the
//! expression parser builds a binary expression tree for each side, the
//! solver walks the tree toward the variable and inverts one operation per
//! step, and the constant folder collapses the remaining constant tree into a
//! single exact rational value.

pub mod equation;
pub mod equation_solver;
pub mod expression;
pub mod fold;
pub mod render;
pub mod tokenizer;

use vstd::prelude::*;

verus! {

/// The failure kinds of the pipeline.  Every fallible operation reports one
/// of these instead of panicking.
#[derive(Clone, Copy, Debug, PartialEq, Eq, Structural)]
pub enum SolveError {
    /// The token sequence holds no `=` token, so there is no equation.
    NoEqualsSign,
    /// A token sequence does not reduce to a valid leaf or operator split.
    ParseFailure,
    /// The left side of the equation holds no variable to isolate.
    NoVariablePath,
    /// Constant folding divided by a subtree whose value is zero.
    DivisionByZero,
    /// A folded constant left the range that the solver's exact rational
    /// arithmetic supports.
    Overflow,
}

} // verus!

verus! {

use crate::equation::{spec_split, Equation};
use crate::equation_solver::{
    lemma_run_stable, lemma_solver_terminates, no_divisor_variable, recursive_solve, spec_run,
    EquationSolver,
};
use crate::expression::{contains_var, spec_parse, var_path, ExpressionType};
use crate::fold::{simplify_side, spec_fold};
use crate::render::{eqsolver_to_string, spec_solver_str};
use crate::tokenizer::{spec_tokenize, tokenize};

/// What solving a parsed equation `(le, re)` yields when the left side
/// holds the variable and never as a divisor's denominator: run exactly one
/// solver step per level of the variable path, fold the final right side,
/// and render the solved state.
pub open spec fn spec_solution(le: ExpressionType, re: ExpressionType) -> Result<
    Seq<char>,
    SolveError,
> {
    match spec_run((le, re), var_path(le).len()) {
        Ok(fin) => match spec_fold(fin.1) {
            Ok(f) => Ok(spec_solver_str(fin.0, f)),
            Err(er) => Err(er),
        },
        Err(er) => Err(er),
    }
}

/// The whole pipeline: tokenize the raw string, split at the equals sign,
/// parse both sides, isolate the variable step by step, fold the right
/// side, and render `<variable> = <value>`.
pub fn solve_equation(input: &str) -> (r: Result<String, SolveError>)
    ensures
        spec_split(spec_tokenize(input@)) is None ==> r == Err::<String, _>(
            SolveError::NoEqualsSign,
        ),
        spec_split(spec_tokenize(input@)) matches Some(lr) ==> ((spec_parse(lr.0) is None
            || spec_parse(lr.1) is None) ==> r == Err::<String, _>(SolveError::ParseFailure)),
        spec_split(spec_tokenize(input@)) matches Some(lr) ==> (spec_parse(lr.0) matches Some(le)
            ==> (spec_parse(lr.1) matches Some(re) ==> {
            &&& (!contains_var(le) ==> r == Err::<String, _>(SolveError::NoVariablePath))
            &&& (contains_var(le) ==> r != Err::<String, _>(SolveError::NoVariablePath))
            &&& (contains_var(le) && no_divisor_variable(le) ==> (match spec_solution(le, re) {
                Ok(out) => r matches Ok(s) && s@ == out,
                Err(er) => r == Err::<String, _>(er),
            }))
            &&& (r matches Ok(s) ==> exists|n: nat|
                {
                    &&& (#[trigger] spec_run((le, re), n)) matches Ok(fin)
                    &&& fin.0 is Variable
                    &&& spec_fold(fin.1) matches Ok(f)
                    &&& s@ == spec_solver_str(fin.0, f)
                })
        })),
{
    let tokens = tokenize(input);
    let equation = Equation::from_tokens(tokens);
    let parts = match equation.parse() {
        Ok(p) => p,
        Err(e) => {
            return Err(e);
        },
    };
    let left_expr = match ExpressionType::parse_tokens(parts.0) {
        Ok(e) => e,
        Err(e) => {
            return Err(e);
        },
    };
    let right_expr = match ExpressionType::parse_tokens(parts.1) {
        Ok(e) => e,
        Err(e) => {
            return Err(e);
        },
    };
    let ghost le = left_expr;
    let ghost re = right_expr;
    let solver = EquationSolver::from(left_expr, right_expr);
    let solved = match recursive_solve(solver) {
        Ok(s) => s,
        Err(e) => {
            return Err(e);
        },
    };
    let final_left = solved.left_side;
    let final_right = solved.right_side;
    proof {
        if contains_var(le) && no_divisor_variable(le) {
            lemma_solver_terminates(le, re);
            let fin = spec_run((le, re), var_path(le).len())->Ok_0;
            let n = choose|n: nat|
                spec_run((le, re), n) == Ok::<_, SolveError>((final_left, final_right));
            if n < var_path(le).len() {
                assert(spec_run((le, re), n) matches Ok(mid) && !(mid.0 is Variable));
                assert(false);
            }
            lemma_run_stable((le, re), var_path(le).len(), n, fin);
            assert(fin == (final_left, final_right));
        }
    }
    proof {
        crate::fold::lemma_fold_errors(final_right);
    }
    let folded = match simplify_side(final_right) {
        Ok(f) => f,
        Err(e) => {
            return Err(e);
        },
    };
    let out = eqsolver_to_string(EquationSolver::from(final_left, folded));
    Ok(out)
}

} // verus!
