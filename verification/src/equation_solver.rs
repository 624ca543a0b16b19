//! The equation solver: a state machine over a pair of expression trees
//! `(left, right)`.  Each step finds the variable in the left tree and
//! applies the inverse of the root operation to the right tree, until the
//! left side is the bare variable.

use crate::SolveError;
use vstd::prelude::*;

verus! {

use crate::expression::{
    contains_var, var_name, var_path, wf_expr, ExpressionSide, ExpressionType, Rational,
};

/// One solver transition on the state `(l, r)`: the child of `l`'s root that
/// holds the variable becomes the new left side, and the inverse of the root
/// operation, applied with the other (known) child, becomes the new right
/// side.  Isolating the denominator of a division additionally swaps the
/// sides.  Fails with [`SolveError::NoVariablePath`] when `l` holds no
/// variable.
pub open spec fn spec_solve_step(l: ExpressionType, r: ExpressionType) -> Result<
    (ExpressionType, ExpressionType),
    SolveError,
> {
    if !contains_var(l) {
        Err(SolveError::NoVariablePath)
    } else {
        match l {
            ExpressionType::Addition(b) => if contains_var(b.0) {
                Ok((b.0, ExpressionType::Subtraction(Box::new((r, b.1)))))
            } else {
                Ok((b.1, ExpressionType::Subtraction(Box::new((r, b.0)))))
            },
            ExpressionType::Multiplication(b) => if contains_var(b.0) {
                Ok((b.0, ExpressionType::Division(Box::new((r, b.1)))))
            } else {
                Ok((b.1, ExpressionType::Division(Box::new((r, b.0)))))
            },
            ExpressionType::Subtraction(b) => if contains_var(b.0) {
                Ok((b.0, ExpressionType::Addition(Box::new((r, b.1)))))
            } else {
                Ok(
                    (
                        b.1,
                        ExpressionType::Multiplication(
                            Box::new(
                                (
                                    ExpressionType::Constant(Rational { num: -1i64, den: 1i64 }),
                                    ExpressionType::Subtraction(Box::new((r, b.0))),
                                ),
                            ),
                        ),
                    ),
                )
            },
            ExpressionType::Division(b) => if contains_var(b.0) {
                Ok((b.0, ExpressionType::Multiplication(Box::new((b.1, r)))))
            } else {
                Ok((ExpressionType::Multiplication(Box::new((b.1, r))), b.0))
            },
            ExpressionType::Variable(_) => Err(SolveError::NoVariablePath),
            ExpressionType::Constant(_) => Err(SolveError::NoVariablePath),
        }
    }
}

/// An upper bound on the number of solver steps left for a tree: two per
/// branch on the variable path, and one more for each division whose
/// denominator holds the variable (such a division costs an extra
/// side-swapping step).
pub open spec fn solve_measure(e: ExpressionType) -> nat
    decreases e,
{
    match e {
        ExpressionType::Addition(b) => if contains_var(b.0) {
            2 + solve_measure(b.0)
        } else if contains_var(b.1) {
            2 + solve_measure(b.1)
        } else {
            0
        },
        ExpressionType::Subtraction(b) => if contains_var(b.0) {
            2 + solve_measure(b.0)
        } else if contains_var(b.1) {
            2 + solve_measure(b.1)
        } else {
            0
        },
        ExpressionType::Multiplication(b) => if contains_var(b.0) {
            2 + solve_measure(b.0)
        } else if contains_var(b.1) {
            2 + solve_measure(b.1)
        } else {
            0
        },
        ExpressionType::Division(b) => if contains_var(b.0) {
            2 + solve_measure(b.0)
        } else if contains_var(b.1) {
            3 + solve_measure(b.1)
        } else {
            0
        },
        ExpressionType::Variable(_) => 0,
        ExpressionType::Constant(_) => 0,
    }
}

/// Along the variable path, the variable never sits in the denominator of a
/// division.  On such trees each solver step shortens the variable path by
/// exactly one.
pub open spec fn no_divisor_variable(e: ExpressionType) -> bool
    decreases e,
{
    match e {
        ExpressionType::Addition(b) => if contains_var(b.0) {
            no_divisor_variable(b.0)
        } else {
            no_divisor_variable(b.1)
        },
        ExpressionType::Subtraction(b) => if contains_var(b.0) {
            no_divisor_variable(b.0)
        } else {
            no_divisor_variable(b.1)
        },
        ExpressionType::Multiplication(b) => if contains_var(b.0) {
            no_divisor_variable(b.0)
        } else {
            no_divisor_variable(b.1)
        },
        ExpressionType::Division(b) => if contains_var(b.0) {
            no_divisor_variable(b.0)
        } else if contains_var(b.1) {
            false
        } else {
            true
        },
        ExpressionType::Variable(_) => true,
        ExpressionType::Constant(_) => true,
    }
}

/// A step on a left side that holds the variable and is not yet the bare
/// variable always succeeds, keeps the variable and its name on the left,
/// strictly shrinks the measure, and preserves well-formedness.  When the
/// variable is never a divisor's denominator, the variable path shortens by
/// exactly one and that property is kept.
pub proof fn lemma_step_progress(l: ExpressionType, r: ExpressionType)
    requires
        contains_var(l),
        !(l is Variable),
    ensures
        spec_solve_step(l, r) matches Ok(st) && {
            &&& contains_var(st.0)
            &&& var_name(st.0) == var_name(l)
            &&& solve_measure(st.0) < solve_measure(l)
            &&& (no_divisor_variable(l) ==> no_divisor_variable(st.0) && var_path(st.0).len()
                == var_path(l).len() - 1)
            &&& (wf_expr(l) && wf_expr(r) ==> wf_expr(st.0) && wf_expr(st.1))
        },
{
    match l {
        ExpressionType::Division(b) => {
            if !contains_var(b.0) {
                let m = ExpressionType::Multiplication(Box::new((b.1, r)));
                assert(contains_var(b.1));
                assert(contains_var(m));
                assert(var_name(m) == var_name(b.1));
                assert(solve_measure(m) == 2 + solve_measure(b.1));
                assert(solve_measure(l) == 3 + solve_measure(b.1));
            }
        },
        _ => {},
    }
    if wf_expr(l) && wf_expr(r) {
        match l {
            ExpressionType::Addition(b) => {
                assert(wf_expr(b.0) && wf_expr(b.1));
                assert(wf_expr(ExpressionType::Subtraction(Box::new((r, b.1)))));
                assert(wf_expr(ExpressionType::Subtraction(Box::new((r, b.0)))));
            },
            ExpressionType::Multiplication(b) => {
                assert(wf_expr(b.0) && wf_expr(b.1));
                assert(wf_expr(ExpressionType::Division(Box::new((r, b.1)))));
                assert(wf_expr(ExpressionType::Division(Box::new((r, b.0)))));
            },
            ExpressionType::Subtraction(b) => {
                assert(wf_expr(b.0) && wf_expr(b.1));
                assert(wf_expr(ExpressionType::Addition(Box::new((r, b.1)))));
                let inner = ExpressionType::Subtraction(Box::new((r, b.0)));
                assert(wf_expr(inner));
                let neg = ExpressionType::Constant(Rational { num: -1i64, den: 1i64 });
                assert(wf_expr(neg));
                assert(wf_expr(ExpressionType::Multiplication(Box::new((neg, inner)))));
            },
            ExpressionType::Division(b) => {
                assert(wf_expr(b.0) && wf_expr(b.1));
                assert(wf_expr(ExpressionType::Multiplication(Box::new((b.1, r)))));
            },
            _ => {},
        }
    }
    if no_divisor_variable(l) {
        match l {
            ExpressionType::Addition(b) => {
                if contains_var(b.0) {
                    assert(var_path(l) == seq![ExpressionSide::Left] + var_path(b.0));
                } else {
                    assert(var_path(l) == seq![ExpressionSide::Right] + var_path(b.1));
                }
            },
            ExpressionType::Subtraction(b) => {
                if contains_var(b.0) {
                    assert(var_path(l) == seq![ExpressionSide::Left] + var_path(b.0));
                } else {
                    assert(var_path(l) == seq![ExpressionSide::Right] + var_path(b.1));
                }
            },
            ExpressionType::Multiplication(b) => {
                if contains_var(b.0) {
                    assert(var_path(l) == seq![ExpressionSide::Left] + var_path(b.0));
                } else {
                    assert(var_path(l) == seq![ExpressionSide::Right] + var_path(b.1));
                }
            },
            ExpressionType::Division(b) => {
                assert(contains_var(b.0));
                assert(var_path(l) == seq![ExpressionSide::Left] + var_path(b.0));
            },
            _ => {},
        }
    }
}

/// The state after at most `n` solver steps: stepping stops early at a bare
/// variable on the left, and a failing step fails the run.
pub open spec fn spec_run(st: (ExpressionType, ExpressionType), n: nat) -> Result<
    (ExpressionType, ExpressionType),
    SolveError,
>
    decreases n,
{
    if st.0 is Variable || n == 0 {
        Ok(st)
    } else {
        match spec_solve_step(st.0, st.1) {
            Ok(next) => spec_run(next, (n - 1) as nat),
            Err(e) => Err(e),
        }
    }
}

/// Extending a partial run by one step: the run of length `n + 1` continues
/// from the state the run of length `n` reached.
pub proof fn lemma_run_extend(init: (ExpressionType, ExpressionType), n: nat, cur: (
    ExpressionType,
    ExpressionType,
))
    requires
        spec_run(init, n) == Ok::<_, SolveError>(cur),
        !(cur.0 is Variable),
    ensures
        spec_run(init, n + 1) == match spec_solve_step(cur.0, cur.1) {
            Ok(next) => Ok::<_, SolveError>(next),
            Err(e) => Err::<(ExpressionType, ExpressionType), _>(e),
        },
    decreases n,
{
    if init.0 is Variable {
        assert(cur == init);
    } else if n == 0 {
        assert(cur == init);
        match spec_solve_step(init.0, init.1) {
            Ok(next) => {
                assert(spec_run(init, 1) == spec_run(next, 0));
                assert(spec_run(next, 0) == Ok::<_, SolveError>(next));
            },
            Err(e) => {
                assert(spec_run(init, 1) == Err::<(ExpressionType, ExpressionType), _>(e));
            },
        }
    } else {
        match spec_solve_step(init.0, init.1) {
            Ok(next) => {
                assert(spec_run(init, n) == spec_run(next, (n - 1) as nat));
                lemma_run_extend(next, (n - 1) as nat, cur);
                assert(spec_run(init, n + 1) == spec_run(next, n));
            },
            Err(e) => {
                assert(spec_run(init, n) == Err::<(ExpressionType, ExpressionType), _>(e));
            },
        }
    }
}

/// For every well-formed single-variable equation whose left side holds the
/// variable and never as the denominator of a division, the run of exactly
/// `var_path(l).len()` solver steps reaches a terminal state whose left side
/// is exactly the variable leaf, with the original variable's name; no
/// shorter run is terminal.
pub proof fn lemma_solver_terminates(l: ExpressionType, r: ExpressionType)
    requires
        contains_var(l),
        no_divisor_variable(l),
    ensures
        spec_run((l, r), var_path(l).len()) matches Ok(st) && st.0 == ExpressionType::Variable(
            var_name(l),
        ),
        forall|m: nat|
            m < var_path(l).len() ==> ((#[trigger] spec_run((l, r), m)) matches Ok(mid) && !(mid.0
                is Variable)),
    decreases var_path(l).len(),
{
    if l is Variable {
        assert(var_path(l).len() == 0);
    } else {
        lemma_step_progress(l, r);
        let st1 = spec_solve_step(l, r)->Ok_0;
        assert(var_path(l).len() >= 1);
        lemma_solver_terminates(st1.0, st1.1);
        assert forall|m: nat| m < var_path(l).len() implies (#[trigger] spec_run(
            (l, r),
            m,
        )) matches Ok(mid) && !(mid.0 is Variable) by {
            if m > 0 {
                assert(spec_run((l, r), m) == spec_run(st1, (m - 1) as nat));
            }
        }
    }
}

/// A run that has reached a terminal state (a bare variable on the left)
/// stays there: any longer run gives the same state.
pub proof fn lemma_run_stable(
    init: (ExpressionType, ExpressionType),
    m: nat,
    n: nat,
    st: (ExpressionType, ExpressionType),
)
    requires
        m <= n,
        spec_run(init, m) == Ok::<_, SolveError>(st),
        st.0 is Variable,
    ensures
        spec_run(init, n) == Ok::<_, SolveError>(st),
    decreases m,
{
    if init.0 is Variable {
        assert(st == init);
    } else {
        assert(m > 0);
        match spec_solve_step(init.0, init.1) {
            Ok(next) => {
                lemma_run_stable(next, (m - 1) as nat, (n - 1) as nat, st);
            },
            Err(_) => {},
        }
    }
}

/// The evolving equation state: the left and right expression trees.
#[derive(Debug)]
pub struct EquationSolver {
    pub left_side: ExpressionType,
    pub right_side: ExpressionType,
}

impl EquationSolver {
    /// Packs the two sides into a solver state.
    pub fn from(left_side: ExpressionType, right_side: ExpressionType) -> (s: EquationSolver)
        ensures
            s.left_side == left_side,
            s.right_side == right_side,
    {
        EquationSolver { left_side, right_side }
    }

    /// The branch path to the variable in the left side, or
    /// [`SolveError::NoVariablePath`] when the left side holds none.
    fn get_variable_path(&self) -> (r: Result<Vec<ExpressionSide>, SolveError>)
        ensures
            r matches Ok(p) ==> contains_var(self.left_side) && p@ == var_path(self.left_side),
            r is Err ==> !contains_var(self.left_side) && r == Err::<Vec<ExpressionSide>, _>(
                SolveError::NoVariablePath,
            ),
    {
        match self.left_side.find_variable() {
            Some(p) => Ok(p),
            None => Err(SolveError::NoVariablePath),
        }
    }

    /// One solver transition: the variable-holding child of the left root
    /// becomes the new left side and the inverse of the root operation is
    /// applied to the right side, per [`spec_solve_step`].
    pub fn solve_step(&self) -> (r: Result<EquationSolver, SolveError>)
        requires
            !(self.left_side is Variable),
        ensures
            match spec_solve_step(self.left_side, self.right_side) {
                Ok(st) => r matches Ok(s) && s.left_side == st.0 && s.right_side == st.1,
                Err(e) => r == Err::<EquationSolver, _>(e),
            },
    {
        let path = match self.get_variable_path() {
            Ok(p) => p,
            Err(e) => {
                return Err(e);
            },
        };
        match &self.left_side {
            ExpressionType::Addition(b) => {
                proof {
                    assert(path@.len() >= 1);
                }
                match path[0] {
                    ExpressionSide::Left => Ok(
                        EquationSolver::from(
                            b.0.dup(),
                            ExpressionType::Subtraction(
                                Box::new((self.right_side.dup(), b.1.dup())),
                            ),
                        ),
                    ),
                    ExpressionSide::Right => Ok(
                        EquationSolver::from(
                            b.1.dup(),
                            ExpressionType::Subtraction(
                                Box::new((self.right_side.dup(), b.0.dup())),
                            ),
                        ),
                    ),
                }
            },
            ExpressionType::Multiplication(b) => {
                proof {
                    assert(path@.len() >= 1);
                }
                match path[0] {
                    ExpressionSide::Left => Ok(
                        EquationSolver::from(
                            b.0.dup(),
                            ExpressionType::Division(Box::new((self.right_side.dup(), b.1.dup()))),
                        ),
                    ),
                    ExpressionSide::Right => Ok(
                        EquationSolver::from(
                            b.1.dup(),
                            ExpressionType::Division(Box::new((self.right_side.dup(), b.0.dup()))),
                        ),
                    ),
                }
            },
            ExpressionType::Subtraction(b) => {
                proof {
                    assert(path@.len() >= 1);
                }
                match path[0] {
                    ExpressionSide::Left => Ok(
                        EquationSolver::from(
                            b.0.dup(),
                            ExpressionType::Addition(Box::new((self.right_side.dup(), b.1.dup()))),
                        ),
                    ),
                    ExpressionSide::Right => Ok(
                        EquationSolver::from(
                            b.1.dup(),
                            ExpressionType::Multiplication(
                                Box::new(
                                    (
                                        ExpressionType::Constant(Rational { num: -1i64, den: 1i64 }),
                                        ExpressionType::Subtraction(
                                            Box::new((self.right_side.dup(), b.0.dup())),
                                        ),
                                    ),
                                ),
                            ),
                        ),
                    ),
                }
            },
            ExpressionType::Division(b) => {
                proof {
                    assert(path@.len() >= 1);
                }
                match path[0] {
                    ExpressionSide::Left => Ok(
                        EquationSolver::from(
                            b.0.dup(),
                            ExpressionType::Multiplication(
                                Box::new((b.1.dup(), self.right_side.dup())),
                            ),
                        ),
                    ),
                    ExpressionSide::Right => Ok(
                        EquationSolver::from(
                            ExpressionType::Multiplication(
                                Box::new((b.1.dup(), self.right_side.dup())),
                            ),
                            b.0.dup(),
                        ),
                    ),
                }
            },
            ExpressionType::Variable(_) => {
                proof {
                    assert(false);
                }
                Err(SolveError::NoVariablePath)
            },
            ExpressionType::Constant(_) => {
                proof {
                    assert(false);
                }
                Err(SolveError::NoVariablePath)
            },
        }
    }
}

/// Repeats [`EquationSolver::solve_step`] until the left side is the bare
/// variable.  On a left side whose variable never sits in a divisor's
/// denominator the loop always reaches that terminal state; any run is a
/// prefix of the deterministic step sequence [`spec_run`].
pub fn recursive_solve(solver: EquationSolver) -> (r: Result<EquationSolver, SolveError>)
    ensures
        r matches Ok(s) ==> s.left_side is Variable,
        r matches Ok(s) ==> exists|n: nat|
            spec_run((solver.left_side, solver.right_side), n) == Ok::<_, SolveError>(
                (s.left_side, s.right_side),
            ),
        r matches Err(e) ==> e == SolveError::NoVariablePath && exists|n: nat|
            spec_run((solver.left_side, solver.right_side), n) == Err::<
                (ExpressionType, ExpressionType),
                _,
            >(e),
        !contains_var(solver.left_side) ==> r == Err::<EquationSolver, _>(
            SolveError::NoVariablePath,
        ),
        contains_var(solver.left_side) ==> r is Ok,
        contains_var(solver.left_side) && no_divisor_variable(solver.left_side) ==> (r matches Ok(
            s,
        ) && s.left_side == ExpressionType::Variable(var_name(solver.left_side))),
        wf_expr(solver.left_side) && wf_expr(solver.right_side) ==> (r matches Ok(s) ==> wf_expr(
            s.left_side,
        ) && wf_expr(s.right_side)),
{
    let ghost init = (solver.left_side, solver.right_side);
    let mut cur = solver;
    let ghost mut steps: nat = 0;
    #[verifier::loop_isolation(false)]
    loop
        invariant
            spec_run(init, steps) == Ok::<_, SolveError>((cur.left_side, cur.right_side)),
            contains_var(init.0) && no_divisor_variable(init.0) ==> contains_var(cur.left_side)
                && no_divisor_variable(cur.left_side) && var_name(cur.left_side) == var_name(
                init.0,
            ),
            wf_expr(init.0) && wf_expr(init.1) ==> wf_expr(cur.left_side) && wf_expr(
                cur.right_side,
            ),
            !contains_var(init.0) ==> !contains_var(cur.left_side),
            contains_var(init.0) ==> contains_var(cur.left_side),
        decreases solve_measure(cur.left_side),
    {
        if matches!(cur.left_side, ExpressionType::Variable(_)) {
            return Ok(cur);
        }
        match cur.solve_step() {
            Ok(next) => {
                proof {
                    lemma_step_progress(cur.left_side, cur.right_side);
                    lemma_run_extend(init, steps, (cur.left_side, cur.right_side));
                    steps = steps + 1;
                }
                cur = next;
            },
            Err(e) => {
                proof {
                    lemma_run_extend(init, steps, (cur.left_side, cur.right_side));
                    if contains_var(init.0) {
                        lemma_step_progress(cur.left_side, cur.right_side);
                        assert(false);
                    }
                }
                return Err(e);
            },
        }
    }
}

} // verus!
