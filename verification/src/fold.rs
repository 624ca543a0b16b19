//! The constant folder: a tree without a variable collapses into a single
//! constant by exact rational arithmetic; a tree that holds the variable is
//! returned untouched.  Dividing by a zero-valued subtree and leaving the
//! bounded range of the rational components are reported as errors.

use crate::SolveError;
use vstd::prelude::*;

verus! {

use crate::expression::{contains_var, rat_wf, wf_expr, ExpressionType, Rational, RAT_BOUND};

/// Both components of a folded rational stay within [`RAT_BOUND`].
pub open spec fn rat_in_range(n: int, d: int) -> bool {
    &&& -(RAT_BOUND as int) <= n <= RAT_BOUND as int
    &&& -(RAT_BOUND as int) <= d <= RAT_BOUND as int
}

/// A folded value, unless its components left the supported range.
pub open spec fn check_range(v: (int, int)) -> Result<(int, int), SolveError> {
    if rat_in_range(v.0, v.1) {
        Ok(v)
    } else {
        Err(SolveError::Overflow)
    }
}

/// The exact rational value of a variable-free tree, as an unreduced
/// numerator/denominator pair.  Division by a zero-valued subtree is a
/// [`SolveError::DivisionByZero`]; a component leaving [`RAT_BOUND`] is a
/// [`SolveError::Overflow`].  (On a tree that holds a variable, the result
/// is meaningless: the folder never evaluates such a tree.)
pub open spec fn spec_eval(e: ExpressionType) -> Result<(int, int), SolveError>
    decreases e,
{
    match e {
        ExpressionType::Constant(c) => Ok((c.num as int, c.den as int)),
        ExpressionType::Variable(_) => Err(SolveError::NoVariablePath),
        ExpressionType::Addition(b) => match (spec_eval(b.0), spec_eval(b.1)) {
            (Ok(x), Ok(y)) => check_range((x.0 * y.1 + y.0 * x.1, x.1 * y.1)),
            (Err(e1), _) => Err(e1),
            (_, Err(e2)) => Err(e2),
        },
        ExpressionType::Subtraction(b) => match (spec_eval(b.0), spec_eval(b.1)) {
            (Ok(x), Ok(y)) => check_range((x.0 * y.1 - y.0 * x.1, x.1 * y.1)),
            (Err(e1), _) => Err(e1),
            (_, Err(e2)) => Err(e2),
        },
        ExpressionType::Multiplication(b) => match (spec_eval(b.0), spec_eval(b.1)) {
            (Ok(x), Ok(y)) => check_range((x.0 * y.0, x.1 * y.1)),
            (Err(e1), _) => Err(e1),
            (_, Err(e2)) => Err(e2),
        },
        ExpressionType::Division(b) => match (spec_eval(b.0), spec_eval(b.1)) {
            (Ok(x), Ok(y)) => if y.0 == 0 {
                Err(SolveError::DivisionByZero)
            } else {
                check_range((x.0 * y.1, x.1 * y.0))
            },
            (Err(e1), _) => Err(e1),
            (_, Err(e2)) => Err(e2),
        },
    }
}

/// What folding a tree yields: a tree with a variable is unchanged, and a
/// variable-free tree becomes the single constant it evaluates to.
pub open spec fn spec_fold(e: ExpressionType) -> Result<ExpressionType, SolveError> {
    if contains_var(e) {
        Ok(e)
    } else {
        match spec_eval(e) {
            Ok(v) => Ok(ExpressionType::Constant(Rational { num: v.0 as i64, den: v.1 as i64 })),
            Err(er) => Err(er),
        }
    }
}

/// The product of two values bounded by `m` is bounded by `m * m`.
proof fn lemma_mul_bound(a: int, b: int, m: int)
    by (nonlinear_arith)
    requires
        0 <= m,
        -m <= a <= m,
        -m <= b <= m,
    ensures
        -(m * m) <= a * b <= m * m,
{
}

/// The product of two nonzero values is nonzero.
proof fn lemma_mul_nonzero(a: int, b: int)
    by (nonlinear_arith)
    requires
        a != 0,
        b != 0,
    ensures
        a * b != 0,
{
}

/// On a well-formed tree, a successful evaluation stays within range and
/// keeps a nonzero denominator.
pub proof fn lemma_eval_range(e: ExpressionType)
    requires
        wf_expr(e),
    ensures
        spec_eval(e) matches Ok(v) ==> rat_in_range(v.0, v.1) && v.1 != 0,
    decreases e,
{
    match e {
        ExpressionType::Addition(b) => {
            lemma_eval_range(b.0);
            lemma_eval_range(b.1);
            match (spec_eval(b.0), spec_eval(b.1)) {
                (Ok(x), Ok(y)) => lemma_mul_nonzero(x.1, y.1),
                _ => (),
            }
        },
        ExpressionType::Subtraction(b) => {
            lemma_eval_range(b.0);
            lemma_eval_range(b.1);
            match (spec_eval(b.0), spec_eval(b.1)) {
                (Ok(x), Ok(y)) => lemma_mul_nonzero(x.1, y.1),
                _ => (),
            }
        },
        ExpressionType::Multiplication(b) => {
            lemma_eval_range(b.0);
            lemma_eval_range(b.1);
            match (spec_eval(b.0), spec_eval(b.1)) {
                (Ok(x), Ok(y)) => lemma_mul_nonzero(x.1, y.1),
                _ => (),
            }
        },
        ExpressionType::Division(b) => {
            lemma_eval_range(b.0);
            lemma_eval_range(b.1);
            match (spec_eval(b.0), spec_eval(b.1)) {
                (Ok(x), Ok(y)) => {
                    if y.0 != 0 {
                        lemma_mul_nonzero(x.1, y.0);
                    }
                },
                _ => (),
            }
        },
        _ => {},
    }
}

/// On a variable-free tree, evaluation can only fail with a division by
/// zero or an out-of-range constant.
proof fn lemma_eval_errors(e: ExpressionType)
    requires
        !contains_var(e),
    ensures
        spec_eval(e) matches Err(er) ==> er == SolveError::DivisionByZero || er
            == SolveError::Overflow,
    decreases e,
{
    match e {
        ExpressionType::Addition(b) => {
            lemma_eval_errors(b.0);
            lemma_eval_errors(b.1);
        },
        ExpressionType::Subtraction(b) => {
            lemma_eval_errors(b.0);
            lemma_eval_errors(b.1);
        },
        ExpressionType::Multiplication(b) => {
            lemma_eval_errors(b.0);
            lemma_eval_errors(b.1);
        },
        ExpressionType::Division(b) => {
            lemma_eval_errors(b.0);
            lemma_eval_errors(b.1);
        },
        _ => {},
    }
}

/// Folding never reports a missing variable: its only failures are a
/// division by zero and an out-of-range constant.
pub proof fn lemma_fold_errors(e: ExpressionType)
    ensures
        spec_fold(e) matches Err(er) ==> er == SolveError::DivisionByZero || er
            == SolveError::Overflow,
{
    if !contains_var(e) {
        lemma_eval_errors(e);
    }
}

/// Evaluates a variable-free, well-formed tree to its exact rational value,
/// per [`spec_eval`].
fn eval_expr(e: &ExpressionType) -> (r: Result<Rational, SolveError>)
    requires
        wf_expr(*e),
    ensures
        match spec_eval(*e) {
            Ok(v) => r matches Ok(c) && c.num as int == v.0 && c.den as int == v.1 && rat_wf(c),
            Err(er) => r == Err::<Rational, _>(er),
        },
    decreases *e,
{
    let children: (&ExpressionType, &ExpressionType) = match e {
        ExpressionType::Constant(c) => {
            return Ok(*c);
        },
        ExpressionType::Variable(_) => {
            return Err(SolveError::NoVariablePath);
        },
        ExpressionType::Addition(b) => (&b.0, &b.1),
        ExpressionType::Subtraction(b) => (&b.0, &b.1),
        ExpressionType::Multiplication(b) => (&b.0, &b.1),
        ExpressionType::Division(b) => (&b.0, &b.1),
    };
    let x = match eval_expr(children.0) {
        Ok(c) => c,
        Err(er) => {
            return Err(er);
        },
    };
    let y = match eval_expr(children.1) {
        Ok(c) => c,
        Err(er) => {
            return Err(er);
        },
    };
    proof {
        lemma_mul_bound(x.num as int, y.den as int, RAT_BOUND as int);
        lemma_mul_bound(y.num as int, x.den as int, RAT_BOUND as int);
        lemma_mul_bound(x.num as int, y.num as int, RAT_BOUND as int);
        lemma_mul_bound(x.den as int, y.den as int, RAT_BOUND as int);
        lemma_mul_bound(x.den as int, y.num as int, RAT_BOUND as int);
        lemma_mul_nonzero(x.den as int, y.den as int);
    }
    let (n, d): (i128, i128) = match e {
        ExpressionType::Addition(_) => (
            (x.num as i128) * (y.den as i128) + (y.num as i128) * (x.den as i128),
            (x.den as i128) * (y.den as i128),
        ),
        ExpressionType::Subtraction(_) => (
            (x.num as i128) * (y.den as i128) - (y.num as i128) * (x.den as i128),
            (x.den as i128) * (y.den as i128),
        ),
        ExpressionType::Multiplication(_) => (
            (x.num as i128) * (y.num as i128),
            (x.den as i128) * (y.den as i128),
        ),
        ExpressionType::Division(_) => {
            if y.num == 0 {
                return Err(SolveError::DivisionByZero);
            }
            proof {
                lemma_mul_nonzero(x.den as int, y.num as int);
            }
            ((x.num as i128) * (y.den as i128), (x.den as i128) * (y.num as i128))
        },
        _ => {
            proof {
                assert(false);
            }
            (0, 1)
        },
    };
    if n < -RAT_BOUND as i128 || n > RAT_BOUND as i128 || d < -RAT_BOUND as i128 || d
        > RAT_BOUND as i128 {
        return Err(SolveError::Overflow);
    }
    Ok(Rational { num: n as i64, den: d as i64 })
}

/// Folds the tree: a tree that holds the variable is returned untouched,
/// and a variable-free tree collapses into the single constant it evaluates
/// to, per [`spec_fold`].
pub fn simplify_side(expression: ExpressionType) -> (r: Result<ExpressionType, SolveError>)
    requires
        wf_expr(expression),
    ensures
        r == spec_fold(expression),
        r matches Ok(f) ==> wf_expr(f),
{
    if expression.has_var() {
        Ok(expression)
    } else {
        match eval_expr(&expression) {
            Ok(c) => Ok(ExpressionType::Constant(c)),
            Err(er) => Err(er),
        }
    }
}

/// Folding is idempotent: folding what a successful fold returned gives it
/// back unchanged.  In particular an already-fully-folded constant tree is
/// returned as it is.
pub proof fn lemma_fold_idempotent(e: ExpressionType)
    requires
        wf_expr(e),
    ensures
        spec_fold(e) matches Ok(f) ==> spec_fold(f) == Ok::<_, SolveError>(f),
{
    if !contains_var(e) {
        lemma_eval_range(e);
        match spec_eval(e) {
            Ok(v) => {
                let f = ExpressionType::Constant(
                    Rational { num: v.0 as i64, den: v.1 as i64 },
                );
                assert(!contains_var(f));
                assert(spec_eval(f) == Ok::<_, SolveError>((v.0, v.1)));
            },
            Err(_) => {},
        }
    }
}

} // verus!
