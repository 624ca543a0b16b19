//! Rendering the solved equation: an exact rational prints as a plain
//! integer when the division is exact and as `numerator/denominator`
//! otherwise, and a solved state prints as `<variable> = <value>`.  A state
//! that is not a clean `(variable, constant)` pair yields a diagnostic
//! rendering of both sides instead.

use vstd::prelude::*;

verus! {

use crate::equation_solver::EquationSolver;
use crate::expression::{rat_wf, wf_expr, ExpressionType, Rational};

/// The magnitude of an integer.
pub open spec fn abs_val(v: int) -> nat {
    if v < 0 {
        (-v) as nat
    } else {
        v as nat
    }
}

/// The decimal digit character for a value below ten.
pub open spec fn spec_digit_char(d: int) -> char {
    if d == 0 {
        '0'
    } else if d == 1 {
        '1'
    } else if d == 2 {
        '2'
    } else if d == 3 {
        '3'
    } else if d == 4 {
        '4'
    } else if d == 5 {
        '5'
    } else if d == 6 {
        '6'
    } else if d == 7 {
        '7'
    } else if d == 8 {
        '8'
    } else {
        '9'
    }
}

/// The decimal digits of a natural number, most significant first.
pub open spec fn spec_dec_nat(n: nat) -> Seq<char>
    decreases n,
{
    if n < 10 {
        seq![spec_digit_char(n as int)]
    } else {
        spec_dec_nat(n / 10) + seq![spec_digit_char((n % 10) as int)]
    }
}

/// The decimal rendering of an integer: a minus sign before the digits of
/// its magnitude when negative.
pub open spec fn spec_dec_int(v: int) -> Seq<char> {
    if v < 0 {
        seq!['-'] + spec_dec_nat((-v) as nat)
    } else {
        spec_dec_nat(v as nat)
    }
}

/// The rendering of an exact rational: when the denominator divides the
/// numerator, the integer quotient (signed by the two components' signs);
/// otherwise the textual `numerator/denominator` fallback.
pub open spec fn spec_rat_str(c: Rational) -> Seq<char> {
    let nm = abs_val(c.num as int);
    let dm = abs_val(c.den as int);
    let neg = (((c.num as int) < 0) != ((c.den as int) < 0)) && nm != 0;
    if nm % dm == 0 {
        (if neg {
            seq!['-']
        } else {
            Seq::empty()
        }) + spec_dec_nat(nm / dm)
    } else {
        spec_dec_int(c.num as int) + seq!['/'] + spec_dec_int(c.den as int)
    }
}

/// The parenthesised infix rendering of an expression tree.
pub open spec fn spec_expr_str(e: ExpressionType) -> Seq<char>
    decreases e,
{
    match e {
        ExpressionType::Addition(b) => "("@ + spec_expr_str(b.0) + " + "@ + spec_expr_str(b.1)
            + ")"@,
        ExpressionType::Subtraction(b) => "("@ + spec_expr_str(b.0) + " - "@ + spec_expr_str(b.1)
            + ")"@,
        ExpressionType::Multiplication(b) => "("@ + spec_expr_str(b.0) + " * "@ + spec_expr_str(
            b.1,
        ) + ")"@,
        ExpressionType::Division(b) => "("@ + spec_expr_str(b.0) + " / "@ + spec_expr_str(b.1)
            + ")"@,
        ExpressionType::Variable(c) => seq![c],
        ExpressionType::Constant(c) => spec_rat_str(c),
    }
}

/// The rendering of a final solver state: `<variable> = <value>` for a
/// solved state, and a diagnostic rendering of both sides otherwise.
pub open spec fn spec_solver_str(l: ExpressionType, r: ExpressionType) -> Seq<char> {
    match (l, r) {
        (ExpressionType::Variable(c), ExpressionType::Constant(v)) => seq![c] + " = "@
            + spec_rat_str(v),
        _ => "Unable to create a string from "@ + spec_expr_str(l) + " = "@ + spec_expr_str(r),
    }
}

/// Relies on `String::push`: appends one character at the end of the
/// string.
#[verifier::external_body]
fn push_char(s: &mut String, c: char)
    ensures
        final(s)@ == old(s)@.push(c),
{
    s.push(c);
}

/// The decimal digit character for a value below ten.
fn digit_char(d: u128) -> (c: char)
    requires
        d < 10,
    ensures
        c == spec_digit_char(d as int),
{
    if d == 0 {
        '0'
    } else if d == 1 {
        '1'
    } else if d == 2 {
        '2'
    } else if d == 3 {
        '3'
    } else if d == 4 {
        '4'
    } else if d == 5 {
        '5'
    } else if d == 6 {
        '6'
    } else if d == 7 {
        '7'
    } else if d == 8 {
        '8'
    } else {
        '9'
    }
}

/// The decimal digits of a natural number, most significant first.
fn dec_string(n: u128) -> (s: String)
    ensures
        s@ == spec_dec_nat(n as nat),
    decreases n,
{
    let d = n % 10;
    let c = digit_char(d);
    if n < 10 {
        let mut s = String::new();
        push_char(&mut s, c);
        proof {
            assert(s@ =~= spec_dec_nat(n as nat));
        }
        s
    } else {
        let mut s = dec_string(n / 10);
        push_char(&mut s, c);
        proof {
            assert(s@ =~= spec_dec_nat(n as nat));
        }
        s
    }
}

/// Renders an exact rational per [`spec_rat_str`].
pub fn format_rational(c: Rational) -> (s: String)
    requires
        rat_wf(c),
    ensures
        s@ == spec_rat_str(c),
{
    let neg_num = c.num < 0;
    let neg_den = c.den < 0;
    let nm: u128 = if neg_num {
        (-(c.num as i128)) as u128
    } else {
        c.num as u128
    };
    let dm: u128 = if neg_den {
        (-(c.den as i128)) as u128
    } else {
        c.den as u128
    };
    proof {
        assert(nm as nat == abs_val(c.num as int));
        assert(dm as nat == abs_val(c.den as int));
        assert(dm != 0);
    }
    if nm % dm == 0 {
        let q = nm / dm;
        let mut s = String::new();
        if (neg_num != neg_den) && nm != 0 {
            push_char(&mut s, '-');
        }
        let digits = dec_string(q);
        s.append(digits.as_str());
        proof {
            assert(s@ =~= spec_rat_str(c));
        }
        s
    } else {
        let mut s = String::new();
        if neg_num {
            push_char(&mut s, '-');
        }
        let digits = dec_string(nm);
        s.append(digits.as_str());
        push_char(&mut s, '/');
        if neg_den {
            push_char(&mut s, '-');
        }
        let den_digits = dec_string(dm);
        s.append(den_digits.as_str());
        proof {
            assert(s@ =~= spec_rat_str(c));
        }
        s
    }
}

/// Renders an expression tree per [`spec_expr_str`].
pub fn expr_to_string(e: &ExpressionType) -> (s: String)
    requires
        wf_expr(*e),
    ensures
        s@ == spec_expr_str(*e),
    decreases *e,
{
    let (children, op): ((&ExpressionType, &ExpressionType), &'static str) = match e {
        ExpressionType::Addition(b) => ((&b.0, &b.1), " + "),
        ExpressionType::Subtraction(b) => ((&b.0, &b.1), " - "),
        ExpressionType::Multiplication(b) => ((&b.0, &b.1), " * "),
        ExpressionType::Division(b) => ((&b.0, &b.1), " / "),
        ExpressionType::Variable(ch) => {
            let mut s = String::new();
            push_char(&mut s, *ch);
            proof {
                assert(s@ =~= seq![*ch]);
            }
            return s;
        },
        ExpressionType::Constant(c) => {
            return format_rational(*c);
        },
    };
    let mut s = String::from_str("(");
    let left_str = expr_to_string(children.0);
    s.append(left_str.as_str());
    s.append(op);
    let right_str = expr_to_string(children.1);
    s.append(right_str.as_str());
    s.append(")");
    proof {
        assert(s@ =~= spec_expr_str(*e));
    }
    s
}

/// Renders a final solver state per [`spec_solver_str`]: the solved
/// `<variable> = <value>` line, or a diagnostic rendering of both sides.
pub fn eqsolver_to_string(solver: EquationSolver) -> (s: String)
    requires
        wf_expr(solver.left_side),
        wf_expr(solver.right_side),
    ensures
        s@ == spec_solver_str(solver.left_side, solver.right_side),
{
    let solved: Option<(char, Rational)> = match (&solver.left_side, &solver.right_side) {
        (ExpressionType::Variable(ch), ExpressionType::Constant(v)) => Some((*ch, *v)),
        _ => None,
    };
    match solved {
        Some((ch, v)) => {
            let mut s = String::new();
            push_char(&mut s, ch);
            s.append(" = ");
            let value_str = format_rational(v);
            s.append(value_str.as_str());
            proof {
                assert(s@ =~= spec_solver_str(solver.left_side, solver.right_side));
            }
            s
        },
        None => {
            let mut s = String::from_str("Unable to create a string from ");
            let left_str = expr_to_string(&solver.left_side);
            s.append(left_str.as_str());
            s.append(" = ");
            let right_str = expr_to_string(&solver.right_side);
            s.append(right_str.as_str());
            proof {
                assert(s@ =~= spec_solver_str(solver.left_side, solver.right_side));
            }
            s
        },
    }
}

} // verus!
