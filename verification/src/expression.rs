//! The expression tree: constants, a variable, and the four binary
//! arithmetic operations, together with the specification functions that the
//! other modules' contracts are stated over.

use crate::tokenizer::{is_alpha_char, is_digit_char, is_number, is_number_token, token_views};
use crate::SolveError;
use vstd::prelude::*;

verus! {

/// Constants are exact rationals.  Both components are bounded by
/// [`RAT_BOUND`] so that constant folding can combine two constants in
/// 128-bit arithmetic without overflow; the denominator is never zero.
#[derive(Clone, Copy, Debug, PartialEq, Eq, Structural)]
pub struct Rational {
    pub num: i64,
    pub den: i64,
}

/// Bound on the magnitude of a well-formed rational's components (`2^62`).
pub const RAT_BOUND: i64 = 0x4000_0000_0000_0000;

/// A well-formed rational: nonzero denominator, both components within
/// [`RAT_BOUND`].
pub open spec fn rat_wf(c: Rational) -> bool {
    &&& c.den != 0
    &&& -(RAT_BOUND as int) <= c.num <= RAT_BOUND as int
    &&& -(RAT_BOUND as int) <= c.den <= RAT_BOUND as int
}

/// A binary expression tree over one variable.
#[derive(Debug)]
pub enum ExpressionType {
    Addition(Box<(ExpressionType, ExpressionType)>),
    Subtraction(Box<(ExpressionType, ExpressionType)>),
    Multiplication(Box<(ExpressionType, ExpressionType)>),
    Division(Box<(ExpressionType, ExpressionType)>),
    Variable(char),
    Constant(Rational),
}

/// A branch choice on the walk from the root of a tree to its variable leaf.
#[derive(Clone, Copy, Debug, PartialEq, Eq, Structural)]
pub enum ExpressionSide {
    Left,
    Right,
}

/// Every constant in the tree is a well-formed rational.
pub open spec fn wf_expr(e: ExpressionType) -> bool
    decreases e,
{
    match e {
        ExpressionType::Addition(b) => wf_expr(b.0) && wf_expr(b.1),
        ExpressionType::Subtraction(b) => wf_expr(b.0) && wf_expr(b.1),
        ExpressionType::Multiplication(b) => wf_expr(b.0) && wf_expr(b.1),
        ExpressionType::Division(b) => wf_expr(b.0) && wf_expr(b.1),
        ExpressionType::Variable(_) => true,
        ExpressionType::Constant(c) => rat_wf(c),
    }
}

/// Whether the tree holds a variable leaf anywhere.
pub open spec fn contains_var(e: ExpressionType) -> bool
    decreases e,
{
    match e {
        ExpressionType::Addition(b) => contains_var(b.0) || contains_var(b.1),
        ExpressionType::Subtraction(b) => contains_var(b.0) || contains_var(b.1),
        ExpressionType::Multiplication(b) => contains_var(b.0) || contains_var(b.1),
        ExpressionType::Division(b) => contains_var(b.0) || contains_var(b.1),
        ExpressionType::Variable(_) => true,
        ExpressionType::Constant(_) => false,
    }
}

/// The left-biased branch path from the root to a variable leaf: the left
/// child is searched before the right one.  Meaningful only when
/// [`contains_var`] holds; on a variable leaf the path is empty.
pub open spec fn var_path(e: ExpressionType) -> Seq<ExpressionSide>
    decreases e,
{
    match e {
        ExpressionType::Addition(b) => if contains_var(b.0) {
            seq![ExpressionSide::Left] + var_path(b.0)
        } else {
            seq![ExpressionSide::Right] + var_path(b.1)
        },
        ExpressionType::Subtraction(b) => if contains_var(b.0) {
            seq![ExpressionSide::Left] + var_path(b.0)
        } else {
            seq![ExpressionSide::Right] + var_path(b.1)
        },
        ExpressionType::Multiplication(b) => if contains_var(b.0) {
            seq![ExpressionSide::Left] + var_path(b.0)
        } else {
            seq![ExpressionSide::Right] + var_path(b.1)
        },
        ExpressionType::Division(b) => if contains_var(b.0) {
            seq![ExpressionSide::Left] + var_path(b.0)
        } else {
            seq![ExpressionSide::Right] + var_path(b.1)
        },
        ExpressionType::Variable(_) => Seq::empty(),
        ExpressionType::Constant(_) => Seq::empty(),
    }
}

/// The name of the variable leaf that the left-biased path reaches.
/// Meaningful only when [`contains_var`] holds.
pub open spec fn var_name(e: ExpressionType) -> char
    decreases e,
{
    match e {
        ExpressionType::Addition(b) => if contains_var(b.0) {
            var_name(b.0)
        } else {
            var_name(b.1)
        },
        ExpressionType::Subtraction(b) => if contains_var(b.0) {
            var_name(b.0)
        } else {
            var_name(b.1)
        },
        ExpressionType::Multiplication(b) => if contains_var(b.0) {
            var_name(b.0)
        } else {
            var_name(b.1)
        },
        ExpressionType::Division(b) => if contains_var(b.0) {
            var_name(b.0)
        } else {
            var_name(b.1)
        },
        ExpressionType::Variable(c) => c,
        ExpressionType::Constant(_) => ' ',
    }
}

/// The numeric value of a decimal digit character.
pub open spec fn digit_val(c: char) -> int {
    c as u32 - 48
}

/// The value of a token read as a decimal numeral.
pub open spec fn numeral_val(t: Seq<char>) -> int
    decreases t.len(),
{
    if t.len() == 0 {
        0
    } else {
        numeral_val(t.drop_last()) * 10 + digit_val(t.last())
    }
}

/// A numeral's value is nonnegative.
pub proof fn lemma_numeral_nonneg(t: Seq<char>)
    requires
        forall|i: int| 0 <= i < t.len() ==> is_digit_char(#[trigger] t[i]),
    ensures
        numeral_val(t) >= 0,
    decreases t.len(),
{
    if t.len() > 0 {
        assert(forall|i: int|
            0 <= i < t.drop_last().len() ==> is_digit_char(#[trigger] t.drop_last()[i]));
        lemma_numeral_nonneg(t.drop_last());
    }
}

/// A numeral's value only grows as digits are appended: the whole token is
/// worth at least any of its prefixes.
pub proof fn lemma_numeral_prefix_le(t: Seq<char>, i: int)
    requires
        forall|k: int| 0 <= k < t.len() ==> is_digit_char(#[trigger] t[k]),
        0 <= i <= t.len(),
    ensures
        numeral_val(t) >= numeral_val(t.take(i)),
    decreases t.len() - i,
{
    if i < t.len() {
        lemma_numeral_prefix_le(t, i + 1);
        assert(t.take(i + 1).drop_last() =~= t.take(i));
        assert(t.take(i + 1).last() == t[i]);
        assert(forall|k: int|
            0 <= k < t.take(i).len() ==> is_digit_char(#[trigger] t.take(i)[k]));
        lemma_numeral_nonneg(t.take(i));
    } else {
        assert(t.take(i) =~= t);
    }
}

/// The index of the first token equal to the one-character token `c`, from
/// position `i` on; `-1` when there is none.
pub open spec fn find_tok_from(ts: Seq<Seq<char>>, c: char, i: int) -> int
    decreases ts.len() - i,
{
    if i < 0 || i >= ts.len() {
        -1
    } else if ts[i] == seq![c] {
        i
    } else {
        find_tok_from(ts, c, i + 1)
    }
}

/// The index of the first token equal to the one-character token `c`, or
/// `-1` when there is none.
pub open spec fn find_tok(ts: Seq<Seq<char>>, c: char) -> int {
    find_tok_from(ts, c, 0)
}

/// A found index lies within the sequence, at or after the start position.
pub proof fn lemma_find_tok_range(ts: Seq<Seq<char>>, c: char, i: int)
    ensures
        find_tok_from(ts, c, i) == -1 || i <= find_tok_from(ts, c, i) < ts.len(),
    decreases ts.len() - i,
{
    if 0 <= i < ts.len() && ts[i] != seq![c] {
        lemma_find_tok_range(ts, c, i + 1);
    }
}

/// While no match has been seen, searching from the start and searching from
/// the current position agree.
pub proof fn lemma_find_tok_prefix(ts: Seq<Seq<char>>, c: char, i: int)
    requires
        0 <= i <= ts.len(),
        forall|k: int| 0 <= k < i ==> ts[k] != seq![c],
    ensures
        find_tok(ts, c) == find_tok_from(ts, c, i),
    decreases i,
{
    if i > 0 {
        lemma_find_tok_prefix(ts, c, i - 1);
    }
}

/// What parsing a token sequence yields, per the fixed search order over
/// operator symbols: a single token becomes a constant (a numeral, bounded
/// by [`RAT_BOUND`]: a machine limit of the exact arithmetic) or a
/// single-letter variable; otherwise the sequence is split at the first
/// occurrence of `+`, failing that `-`, then `*`, then `/`, and the halves
/// are parsed recursively.  `None` is a parse failure.
pub open spec fn spec_parse(ts: Seq<Seq<char>>) -> Option<ExpressionType>
    decreases ts.len(),
    via spec_parse_decreases
{
    if ts.len() == 1 {
        let t = ts[0];
        if is_number_token(t) {
            if numeral_val(t) <= RAT_BOUND as int {
                Some(ExpressionType::Constant(Rational { num: numeral_val(t) as i64, den: 1 }))
            } else {
                None
            }
        } else if t.len() == 1 && is_alpha_char(t[0]) {
            Some(ExpressionType::Variable(t[0]))
        } else {
            None
        }
    } else if ts.len() == 0 {
        None
    } else {
        let p_add = find_tok(ts, '+');
        let p_sub = find_tok(ts, '-');
        let p_mul = find_tok(ts, '*');
        let p_div = find_tok(ts, '/');
        if p_add >= 0 {
            match (spec_parse(ts.take(p_add)), spec_parse(ts.skip(p_add + 1))) {
                (Some(l), Some(r)) => Some(ExpressionType::Addition(Box::new((l, r)))),
                _ => None,
            }
        } else if p_sub >= 0 {
            match (spec_parse(ts.take(p_sub)), spec_parse(ts.skip(p_sub + 1))) {
                (Some(l), Some(r)) => Some(ExpressionType::Subtraction(Box::new((l, r)))),
                _ => None,
            }
        } else if p_mul >= 0 {
            match (spec_parse(ts.take(p_mul)), spec_parse(ts.skip(p_mul + 1))) {
                (Some(l), Some(r)) => Some(ExpressionType::Multiplication(Box::new((l, r)))),
                _ => None,
            }
        } else if p_div >= 0 {
            match (spec_parse(ts.take(p_div)), spec_parse(ts.skip(p_div + 1))) {
                (Some(l), Some(r)) => Some(ExpressionType::Division(Box::new((l, r)))),
                _ => None,
            }
        } else {
            None
        }
    }
}

#[via_fn]
proof fn spec_parse_decreases(ts: Seq<Seq<char>>) {
    lemma_find_tok_range(ts, '+', 0);
    lemma_find_tok_range(ts, '-', 0);
    lemma_find_tok_range(ts, '*', 0);
    lemma_find_tok_range(ts, '/', 0);
}

/// Whether the token is exactly the one-character token `c`.
fn token_is_char(t: &String, c: char) -> (r: bool)
    ensures
        r == (t@ == seq![c]),
{
    let n = t.as_str().unicode_len();
    if n != 1 {
        proof {
            assert(t@ != seq![c]) by {
                assert(seq![c].len() == 1);
            }
        }
        false
    } else {
        let c0 = t.as_str().get_char(0);
        proof {
            if c0 == c {
                assert(t@ =~= seq![c]);
            } else {
                assert(t@ != seq![c]) by {
                    assert(seq![c][0] == c);
                }
            }
        }
        c0 == c
    }
}

/// The index of the first token equal to the one-character token `c`.
fn find_token(tokens: &Vec<String>, c: char) -> (r: Option<usize>)
    ensures
        r matches Some(i) ==> i < tokens@.len() && find_tok(token_views(tokens@), c) == i as int,
        r is None ==> find_tok(token_views(tokens@), c) == -1,
{
    let n = tokens.len();
    let mut i: usize = 0;
    while i < n
        invariant
            0 <= i <= n,
            n == tokens@.len(),
            forall|k: int| 0 <= k < i ==> token_views(tokens@)[k] != seq![c],
        decreases n - i,
    {
        if token_is_char(&tokens[i], c) {
            proof {
                lemma_find_tok_prefix(token_views(tokens@), c, i as int);
            }
            return Some(i);
        }
        i = i + 1;
    }
    proof {
        lemma_find_tok_prefix(token_views(tokens@), c, n as int);
    }
    None
}

/// The value of a digits-only token, when it stays within [`RAT_BOUND`].
fn parse_number(t: &String) -> (r: Option<i64>)
    requires
        is_number_token(t@),
    ensures
        r matches Some(v) ==> v as int == numeral_val(t@) && 0 <= v <= RAT_BOUND,
        r is None ==> numeral_val(t@) > RAT_BOUND as int,
{
    let n = t.as_str().unicode_len();
    let mut acc: i64 = 0;
    let mut i: usize = 0;
    while i < n
        invariant
            0 <= i <= n,
            n == t@.len(),
            is_number_token(t@),
            0 <= acc <= RAT_BOUND,
            acc as int == numeral_val(t@.take(i as int)),
        decreases n - i,
    {
        let c = t.as_str().get_char(i);
        let d = (c as u32) - 48;
        let wide: i128 = (acc as i128) * 10 + (d as i128);
        proof {
            assert(t@.take(i as int + 1).drop_last() =~= t@.take(i as int));
            assert(t@.take(i as int + 1).last() == t@[i as int]);
        }
        if wide > RAT_BOUND as i128 {
            proof {
                lemma_numeral_prefix_le(t@, i as int + 1);
            }
            return None;
        }
        acc = wide as i64;
        i = i + 1;
    }
    proof {
        assert(t@.take(n as int) =~= t@);
    }
    Some(acc)
}

impl ExpressionType {
    /// Structural copy of the tree.
    pub fn dup(&self) -> (r: ExpressionType)
        ensures
            r == *self,
        decreases *self,
    {
        match self {
            ExpressionType::Addition(b) => ExpressionType::Addition(
                Box::new((b.0.dup(), b.1.dup())),
            ),
            ExpressionType::Subtraction(b) => ExpressionType::Subtraction(
                Box::new((b.0.dup(), b.1.dup())),
            ),
            ExpressionType::Multiplication(b) => ExpressionType::Multiplication(
                Box::new((b.0.dup(), b.1.dup())),
            ),
            ExpressionType::Division(b) => ExpressionType::Division(
                Box::new((b.0.dup(), b.1.dup())),
            ),
            ExpressionType::Variable(c) => ExpressionType::Variable(*c),
            ExpressionType::Constant(c) => ExpressionType::Constant(*c),
        }
    }

    /// Whether the tree holds a variable leaf anywhere.
    pub fn has_var(&self) -> (r: bool)
        ensures
            r == contains_var(*self),
        decreases *self,
    {
        match self {
            ExpressionType::Addition(b) => b.0.has_var() || b.1.has_var(),
            ExpressionType::Subtraction(b) => b.0.has_var() || b.1.has_var(),
            ExpressionType::Multiplication(b) => b.0.has_var() || b.1.has_var(),
            ExpressionType::Division(b) => b.0.has_var() || b.1.has_var(),
            ExpressionType::Variable(_) => true,
            ExpressionType::Constant(_) => false,
        }
    }

    /// The left-biased branch path from the root to the variable leaf, or
    /// `None` when the tree holds no variable.
    pub fn find_variable(&self) -> (r: Option<Vec<ExpressionSide>>)
        ensures
            r is Some <==> contains_var(*self),
            r matches Some(p) ==> p@ == var_path(*self),
        decreases *self,
    {
        let children: (&ExpressionType, &ExpressionType) = match self {
            ExpressionType::Addition(b) => (&b.0, &b.1),
            ExpressionType::Subtraction(b) => (&b.0, &b.1),
            ExpressionType::Multiplication(b) => (&b.0, &b.1),
            ExpressionType::Division(b) => (&b.0, &b.1),
            ExpressionType::Variable(_) => {
                return Some(Vec::new());
            },
            ExpressionType::Constant(_) => {
                return None;
            },
        };
        if let Some(mut rest) = children.0.find_variable() {
            let mut path = vec![ExpressionSide::Left];
            path.append(&mut rest);
            Some(path)
        } else if let Some(mut rest) = children.1.find_variable() {
            let mut path = vec![ExpressionSide::Right];
            path.append(&mut rest);
            Some(path)
        } else {
            None
        }
    }

    /// The two halves of the token sequence around the token at `index`,
    /// which is excluded from both.
    fn split_tokens(tokens: &Vec<String>, index: usize) -> (r: (Vec<String>, Vec<String>))
        requires
            index < tokens@.len(),
        ensures
            token_views(r.0@) == token_views(tokens@).take(index as int),
            token_views(r.1@) == token_views(tokens@).skip(index as int + 1),
            r.0@.len() == index,
            r.1@.len() == tokens@.len() - index - 1,
    {
        let n = tokens.len();
        let mut left: Vec<String> = Vec::new();
        let mut i: usize = 0;
        while i < index
            invariant
                0 <= i <= index < n,
                n == tokens@.len(),
                left@.len() == i,
                forall|k: int| 0 <= k < i ==> #[trigger] left@[k]@ == tokens@[k]@,
            decreases index - i,
        {
            left.push(tokens[i].clone());
            i = i + 1;
        }
        let mut right: Vec<String> = Vec::new();
        let mut j: usize = index + 1;
        while j < n
            invariant
                index + 1 <= j <= n,
                n == tokens@.len(),
                right@.len() == j - index - 1,
                forall|k: int|
                    0 <= k < right@.len() ==> #[trigger] right@[k]@ == tokens@[index + 1 + k]@,
            decreases n - j,
        {
            right.push(tokens[j].clone());
            j = j + 1;
        }
        proof {
            assert(token_views(left@) =~= token_views(tokens@).take(index as int));
            assert(token_views(right@) =~= token_views(tokens@).skip(index as int + 1));
        }
        (left, right)
    }

    /// Parses the two halves of the token sequence around the operator at
    /// `index`; either half failing fails the whole.
    fn parse_operation(tokens: &Vec<String>, index: usize) -> (r: Result<
        (ExpressionType, ExpressionType),
        SolveError,
    >)
        requires
            index < tokens@.len(),
        ensures
            ({
                let lp = spec_parse(token_views(tokens@).take(index as int));
                let rp = spec_parse(token_views(tokens@).skip(index as int + 1));
                match (lp, rp) {
                    (Some(l), Some(rr)) => r == Ok::<_, SolveError>((l, rr)),
                    _ => r == Err::<(ExpressionType, ExpressionType), _>(SolveError::ParseFailure),
                }
            }),
            r matches Ok(p) ==> wf_expr(p.0) && wf_expr(p.1),
        decreases tokens@.len(), 0int,
    {
        let (left, right) = Self::split_tokens(tokens, index);
        let l = match Self::parse_tokens(left) {
            Ok(e) => e,
            Err(_) => {
                return Err(SolveError::ParseFailure);
            },
        };
        let r = match Self::parse_tokens(right) {
            Ok(e) => e,
            Err(_) => {
                return Err(SolveError::ParseFailure);
            },
        };
        Ok((l, r))
    }

    /// Parses one side of the equation into an expression tree.  A single
    /// token becomes a constant (a bounded numeral) or a single-letter
    /// variable; a longer sequence is split at the first occurrence of `+`,
    /// failing that `-`, then `*`, then `/`, and the halves are parsed
    /// recursively.  Everything else is a [`SolveError::ParseFailure`].
    pub fn parse_tokens(tokens: Vec<String>) -> (r: Result<ExpressionType, SolveError>)
        ensures
            match spec_parse(token_views(tokens@)) {
                Some(e) => r == Ok::<_, SolveError>(e),
                None => r == Err::<ExpressionType, _>(SolveError::ParseFailure),
            },
            r matches Ok(e) ==> wf_expr(e),
        decreases tokens@.len(), 1int,
    {
        if tokens.len() == 1 {
            let t = &tokens[0];
            if is_number(t) {
                match parse_number(t) {
                    Some(v) => Ok(ExpressionType::Constant(Rational { num: v, den: 1 })),
                    None => Err(SolveError::ParseFailure),
                }
            } else {
                let n = t.as_str().unicode_len();
                if n == 1 {
                    let c = t.as_str().get_char(0);
                    let v = c as u32;
                    if (65 <= v && v <= 90) || (97 <= v && v <= 122) {
                        Ok(ExpressionType::Variable(c))
                    } else {
                        Err(SolveError::ParseFailure)
                    }
                } else {
                    Err(SolveError::ParseFailure)
                }
            }
        } else if tokens.len() == 0 {
            Err(SolveError::ParseFailure)
        } else {
            proof {
                lemma_find_tok_range(token_views(tokens@), '+', 0);
                lemma_find_tok_range(token_views(tokens@), '-', 0);
                lemma_find_tok_range(token_views(tokens@), '*', 0);
                lemma_find_tok_range(token_views(tokens@), '/', 0);
            }
            if let Some(i) = find_token(&tokens, '+') {
                match Self::parse_operation(&tokens, i) {
                    Ok((l, r)) => Ok(ExpressionType::Addition(Box::new((l, r)))),
                    Err(e) => Err(e),
                }
            } else if let Some(i) = find_token(&tokens, '-') {
                match Self::parse_operation(&tokens, i) {
                    Ok((l, r)) => Ok(ExpressionType::Subtraction(Box::new((l, r)))),
                    Err(e) => Err(e),
                }
            } else if let Some(i) = find_token(&tokens, '*') {
                match Self::parse_operation(&tokens, i) {
                    Ok((l, r)) => Ok(ExpressionType::Multiplication(Box::new((l, r)))),
                    Err(e) => Err(e),
                }
            } else if let Some(i) = find_token(&tokens, '/') {
                match Self::parse_operation(&tokens, i) {
                    Ok((l, r)) => Ok(ExpressionType::Division(Box::new((l, r)))),
                    Err(e) => Err(e),
                }
            } else {
                Err(SolveError::ParseFailure)
            }
        }
    }
}

} // verus!
