//! The tokenizer: a raw character string becomes an ordered sequence of
//! lexical tokens.  The scanner recognises maximal runs of decimal digits,
//! and single occurrences of `+ - * / =` or an ASCII letter; every other
//! character is skipped.  A post-pass inserts an implicit `*` token between a
//! numeric token and a following alphanumeric token, so that `2x` reads as
//! `2*x`.

use vstd::prelude::*;

verus! {

/// A decimal digit `0`..`9`.
pub open spec fn is_digit_char(c: char) -> bool {
    48 <= c as u32 <= 57
}

/// An ASCII letter.
pub open spec fn is_alpha_char(c: char) -> bool {
    (65 <= c as u32 <= 90) || (97 <= c as u32 <= 122)
}

/// One of the four operator characters.
pub open spec fn is_op_char(c: char) -> bool {
    c == '+' || c == '-' || c == '*' || c == '/'
}

/// A token of one or more digits: the only kind of token that reads as a
/// number.
pub open spec fn is_number_token(t: Seq<char>) -> bool {
    t.len() > 0 && forall|i: int| 0 <= i < t.len() ==> is_digit_char(#[trigger] t[i])
}

/// A token made of digits and letters only (a number or a variable name):
/// what the implicit-multiplication pass accepts on the right of a number.
pub open spec fn is_alnum_token(t: Seq<char>) -> bool {
    t.len() > 0 && forall|i: int|
        0 <= i < t.len() ==> is_digit_char(#[trigger] t[i]) || is_alpha_char(t[i])
}

/// The length of the run of digits in `s` that starts at `i`.
pub open spec fn run_len_from(s: Seq<char>, i: int) -> nat
    decreases s.len() - i,
{
    if i < 0 || i >= s.len() || !is_digit_char(s[i]) {
        0
    } else {
        1 + run_len_from(s, i + 1)
    }
}

/// The digit run starting at `i` ends at or before the end of `s`.
pub proof fn lemma_run_len_bound(s: Seq<char>, i: int)
    requires
        0 <= i <= s.len(),
    ensures
        i + run_len_from(s, i) <= s.len(),
    decreases s.len() - i,
{
    if i < s.len() && is_digit_char(s[i]) {
        lemma_run_len_bound(s, i + 1);
    }
}

/// The raw token scan of `s` from position `i` on: digit runs, operators,
/// the equals sign and single letters, in text order.
pub open spec fn scan_from(s: Seq<char>, i: int) -> Seq<Seq<char>>
    decreases s.len() - i,
    via scan_from_decreases
{
    if i < 0 || i >= s.len() {
        Seq::empty()
    } else if is_digit_char(s[i]) {
        seq![s.subrange(i, i + run_len_from(s, i))] + scan_from(s, i + run_len_from(s, i))
    } else if is_op_char(s[i]) || s[i] == '=' || is_alpha_char(s[i]) {
        seq![seq![s[i]]] + scan_from(s, i + 1)
    } else {
        scan_from(s, i + 1)
    }
}

#[via_fn]
proof fn scan_from_decreases(s: Seq<char>, i: int) {
    if 0 <= i < s.len() {
        lemma_run_len_bound(s, i);
    }
}

/// The token sequence after the implicit-multiplication pass, considering
/// the pairs of raw tokens from position `i` on: a `*` token is placed
/// between a number token and a following alphanumeric token.
pub open spec fn insert_mults_from(ts: Seq<Seq<char>>, i: int) -> Seq<Seq<char>>
    decreases ts.len() - i,
{
    if i < 0 || i >= ts.len() {
        Seq::empty()
    } else if i + 1 < ts.len() && is_number_token(ts[i]) && is_alnum_token(ts[i + 1]) {
        seq![ts[i], seq!['*']] + insert_mults_from(ts, i + 1)
    } else {
        seq![ts[i]] + insert_mults_from(ts, i + 1)
    }
}

/// What tokenizing a string yields: the raw scan followed by the
/// implicit-multiplication pass.
pub open spec fn spec_tokenize(s: Seq<char>) -> Seq<Seq<char>> {
    insert_mults_from(scan_from(s, 0), 0)
}

/// The views of a sequence of exec tokens.
pub open spec fn token_views(ts: Seq<String>) -> Seq<Seq<char>> {
    ts.map(|i: int, t: String| t@)
}

/// Whether the character at `i` is a decimal digit.
fn digit_at(s: &str, i: usize) -> (r: bool)
    requires
        i < s@.len(),
    ensures
        r == is_digit_char(s@[i as int]),
{
    let c = s.get_char(i);
    let v = c as u32;
    48 <= v && v <= 57
}

/// Whether the token consists of digits only (and is nonempty).
pub fn is_number(t: &String) -> (r: bool)
    ensures
        r == is_number_token(t@),
{
    let n = t.as_str().unicode_len();
    if n == 0 {
        return false;
    }
    let mut i: usize = 0;
    while i < n
        invariant
            0 <= i <= n,
            n == t@.len(),
            forall|k: int| 0 <= k < i ==> is_digit_char(#[trigger] t@[k]),
        decreases n - i,
    {
        if !digit_at(t.as_str(), i) {
            return false;
        }
        i = i + 1;
    }
    true
}

/// Whether the token consists of digits and letters only (and is nonempty).
pub fn is_alnum(t: &String) -> (r: bool)
    ensures
        r == is_alnum_token(t@),
{
    let n = t.as_str().unicode_len();
    if n == 0 {
        return false;
    }
    let mut i: usize = 0;
    while i < n
        invariant
            0 <= i <= n,
            n == t@.len(),
            forall|k: int|
                0 <= k < i ==> is_digit_char(#[trigger] t@[k]) || is_alpha_char(t@[k]),
        decreases n - i,
    {
        let c = t.as_str().get_char(i);
        let v = c as u32;
        if !((48 <= v && v <= 57) || (65 <= v && v <= 90) || (97 <= v && v <= 122)) {
            return false;
        }
        i = i + 1;
    }
    true
}

/// The raw scan: maximal digit runs, and single `+ - * / =` or letter
/// characters, in text order.
fn scan(argument: &str) -> (r: Vec<String>)
    ensures
        token_views(r@) == scan_from(argument@, 0),
{
    let n = argument.unicode_len();
    let mut out: Vec<String> = Vec::new();
    let mut i: usize = 0;
    while i < n
        invariant
            0 <= i <= n,
            n == argument@.len(),
            token_views(out@) + scan_from(argument@, i as int) =~= scan_from(argument@, 0),
        decreases n - i,
    {
        let ghost prev = token_views(out@);
        if digit_at(argument, i) {
            let mut j: usize = i + 1;
            while j < n && digit_at(argument, j)
                invariant
                    i < j <= n,
                    n == argument@.len(),
                    run_len_from(argument@, i as int) == (j - i)
                        + run_len_from(argument@, j as int),
                decreases n - j,
            {
                j = j + 1;
            }
            proof {
                assert(run_len_from(argument@, j as int) == 0);
            }
            let tok = String::from_str(argument.substring_char(i, j));
            out.push(tok);
            proof {
                assert(token_views(out@) =~= prev + seq![argument@.subrange(
                    i as int,
                    i + run_len_from(argument@, i as int),
                )]);
            }
            i = j;
        } else {
            let c = argument.get_char(i);
            let v = c as u32;
            if v == 43 || v == 45 || v == 42 || v == 47 || v == 61 || (65 <= v && v <= 90) || (
            97 <= v && v <= 122) {
                let tok = String::from_str(argument.substring_char(i, i + 1));
                out.push(tok);
                proof {
                    assert(argument@.subrange(i as int, i + 1) =~= seq![argument@[i as int]]);
                    assert(token_views(out@) =~= prev + seq![seq![argument@[i as int]]]);
                }
            }
            i = i + 1;
        }
    }
    proof {
        assert(token_views(out@) + scan_from(argument@, n as int) =~= token_views(out@));
    }
    out
}

/// Turns a raw equation string into its token sequence: digit runs, the
/// characters `+ - * / =`, and single letters, with an implicit `*` token
/// inserted between each number token and a following alphanumeric token.
/// Unrecognised characters are skipped; no input fails.
pub fn tokenize(argument: &str) -> (r: Vec<String>)
    ensures
        token_views(r@) == spec_tokenize(argument@),
{
    let raw = scan(argument);
    let n = raw.len();
    let mut out: Vec<String> = Vec::new();
    let mut i: usize = 0;
    while i < n
        invariant
            0 <= i <= n,
            n == raw@.len(),
            token_views(out@) + insert_mults_from(token_views(raw@), i as int)
                =~= insert_mults_from(token_views(raw@), 0),
        decreases n - i,
    {
        let ghost prev = token_views(out@);
        out.push(raw[i].clone());
        if i + 1 < n && is_number(&raw[i]) && is_alnum(&raw[i + 1]) {
            let star = String::from_str("*");
            proof {
                reveal_strlit("*");
                assert(star@ =~= seq!['*']);
            }
            out.push(star);
            proof {
                assert(token_views(out@) =~= prev + seq![raw@[i as int]@, seq!['*']]);
            }
        } else {
            proof {
                assert(token_views(out@) =~= prev + seq![raw@[i as int]@]);
            }
        }
        i = i + 1;
    }
    proof {
        assert(token_views(out@) + insert_mults_from(token_views(raw@), n as int)
            =~= token_views(out@));
    }
    out
}

} // verus!
