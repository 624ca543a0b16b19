//! The equation splitter: a token sequence is cut at its first `=` token
//! into the left-side and right-side token sequences.

use crate::tokenizer::token_views;
use crate::SolveError;
use vstd::prelude::*;

verus! {

use crate::expression::{find_tok, lemma_find_tok_prefix, ExpressionType};

/// What splitting a token sequence yields: the tokens before and after the
/// first `=` token, the `=` itself excluded from both, or `None` when there
/// is no `=` token.
pub open spec fn spec_split(ts: Seq<Seq<char>>) -> Option<(Seq<Seq<char>>, Seq<Seq<char>>)> {
    let p = find_tok(ts, '=');
    if p >= 0 {
        Some((ts.take(p), ts.skip(p + 1)))
    } else {
        None
    }
}

/// A tokenized equation, not yet split at its equals sign.
pub struct Equation {
    pub tokens: Vec<String>,
    pub right_side: Option<ExpressionType>,
    pub left_side: Option<ExpressionType>,
}

impl View for Equation {
    type V = Seq<Seq<char>>;

    /// The views of the held tokens.
    open spec fn view(&self) -> Seq<Seq<char>> {
        token_views(self.tokens@)
    }
}

impl Equation {
    /// Wraps a token sequence; the two sides are not parsed yet.
    pub fn from_tokens(tokens: Vec<String>) -> (eq: Equation)
        ensures
            eq@ == token_views(tokens@),
            eq.left_side is None,
            eq.right_side is None,
    {
        Equation { tokens, left_side: None, right_side: None }
    }

    /// Splits the held tokens at the first `=` token, which is excluded from
    /// both halves.  Fails with [`SolveError::NoEqualsSign`] when there is no
    /// `=` token.
    pub fn parse(&self) -> (r: Result<(Vec<String>, Vec<String>), SolveError>)
        ensures
            match spec_split(self@) {
                Some(lr) => r matches Ok(p) && token_views(p.0@) == lr.0 && token_views(p.1@)
                    == lr.1,
                None => r matches Err(e) && e == SolveError::NoEqualsSign,
            },
    {
        let n = self.tokens.len();
        let mut i: usize = 0;
        while i < n
            invariant
                0 <= i <= n,
                n == self.tokens@.len(),
                forall|k: int| 0 <= k < i ==> token_views(self.tokens@)[k] != seq!['='],
            decreases n - i,
        {
            let t = &self.tokens[i];
            let is_eq = t.as_str().unicode_len() == 1 && t.as_str().get_char(0) == '=';
            proof {
                if is_eq {
                    assert(t@ =~= seq!['=']);
                } else if t@.len() == 1 {
                    assert(t@ != seq!['=']) by {
                        assert(seq!['='][0] == '=');
                    }
                } else {
                    assert(t@ != seq!['=']) by {
                        assert(seq!['='].len() == 1);
                    }
                }
            }
            if is_eq {
                proof {
                    lemma_find_tok_prefix(token_views(self.tokens@), '=', i as int);
                }
                return Ok(self.split_tokens(i));
            }
            i = i + 1;
        }
        proof {
            lemma_find_tok_prefix(token_views(self.tokens@), '=', n as int);
        }
        Err(SolveError::NoEqualsSign)
    }

    /// The two halves of the held tokens around position `i`, the token
    /// there excluded from both.
    fn split_tokens(&self, i: usize) -> (r: (Vec<String>, Vec<String>))
        requires
            i < self@.len(),
        ensures
            token_views(r.0@) == self@.take(i as int),
            token_views(r.1@) == self@.skip(i as int + 1),
    {
        let n = self.tokens.len();
        let mut left: Vec<String> = Vec::new();
        let mut k: usize = 0;
        while k < i
            invariant
                0 <= k <= i < n,
                n == self.tokens@.len(),
                left@.len() == k,
                forall|m: int| 0 <= m < k ==> #[trigger] left@[m]@ == self.tokens@[m]@,
            decreases i - k,
        {
            left.push(self.tokens[k].clone());
            k = k + 1;
        }
        let mut right: Vec<String> = Vec::new();
        let mut j: usize = i + 1;
        while j < n
            invariant
                i + 1 <= j <= n,
                n == self.tokens@.len(),
                right@.len() == j - i - 1,
                forall|m: int|
                    0 <= m < right@.len() ==> #[trigger] right@[m]@ == self.tokens@[i + 1 + m]@,
            decreases n - j,
        {
            right.push(self.tokens[j].clone());
            j = j + 1;
        }
        proof {
            assert(token_views(left@) =~= self@.take(i as int));
            assert(token_views(right@) =~= self@.skip(i as int + 1));
        }
        (left, right)
    }
}

} // verus!
