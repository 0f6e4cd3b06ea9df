//! The grammar, written as plain recursive functions on a sequence of
//! characters. Nothing here is cached: each rule is recomputed from the input
//! every time it is asked for.
//!
//! ```text
//! additive  <- multitive ('+' additive / '-' additive)?
//! multitive <- primary   ('*' multitive / '/' multitive)?
//! primary   <- '(' additive ')' / number
//! number    <- [0-9]+
//! ```
//!
//! A rule takes the input and the offset at which it starts. It yields the
//! value it matched together with the offset just past the match, or `None`
//! where the input does not match. Once a rule has taken an opening
//! parenthesis or an operator it is committed: if what must follow is missing,
//! the whole rule fails. Chains of operators therefore lean to the right:
//! `a-b-c` is `a-(b-c)`.

use vstd::prelude::*;
use crate::expr::Tree;

verus! {

/// The value of a decimal digit; `None` for every other character.
pub open spec fn digit_value(c: char) -> Option<nat> {
    if '0' <= c && c <= '9' {
        Some((c as int - '0' as int) as nat)
    } else {
        None
    }
}

/// Whether the character at offset `i` exists and is `c`.
pub open spec fn next_is(s: Seq<char>, i: int, c: char) -> bool {
    0 <= i < s.len() && s[i] == c
}

/// Any one character.
pub open spec fn character(s: Seq<char>, i: int) -> Option<(char, int)> {
    if 0 <= i < s.len() {
        Some((s[i], i + 1))
    } else {
        None
    }
}

/// One decimal digit.
pub open spec fn digit(s: Seq<char>, i: int) -> Option<(nat, int)> {
    match character(s, i) {
        Some((c, j)) => match digit_value(c) {
            Some(d) => Some((d, j)),
            None => None,
        },
        None => None,
    }
}

/// The digits from offset `i` on, as many as there are, appended to a
/// numeral whose value so far is `accum`.
pub open spec fn digits(s: Seq<char>, i: int, accum: nat) -> (nat, int)
    decreases s.len() - i,
{
    match digit(s, i) {
        Some((d, j)) => digits(s, j, accum * 10 + d),
        None => (accum, i),
    }
}

/// A numeral: one digit or more, taken greedily.
pub open spec fn number_literal(s: Seq<char>, i: int) -> Option<(nat, int)> {
    match digit(s, i) {
        Some((d, j)) => Some(digits(s, j, d)),
        None => None,
    }
}

/// A parenthesized expression or a numeral. The choice is made on the first
/// character alone.
pub open spec fn primary(s: Seq<char>, i: int) -> Option<(Tree, int)>
    decreases s.len() - i, 0int,
{
    if next_is(s, i, '(') {
        match additive(s, i + 1) {
            Some((inner, j)) => if next_is(s, j, ')') {
                Some((inner, j + 1))
            } else {
                None
            },
            None => None,
        }
    } else {
        match number_literal(s, i) {
            Some((n, j)) => Some((Tree::Number(n), j)),
            None => None,
        }
    }
}

/// A primary, then optionally `*` or `/` and another multitive.
///
/// The test `i <= j` is there for the recursion to be well-founded on the
/// face of it; it always holds (`lemma_primary_advances`).
pub open spec fn multitive(s: Seq<char>, i: int) -> Option<(Tree, int)>
    decreases s.len() - i, 1int,
{
    match primary(s, i) {
        Some((lhs, j)) => if i <= j && next_is(s, j, '*') {
            match multitive(s, j + 1) {
                Some((rhs, k)) => Some((Tree::Multiply(Box::new(lhs), Box::new(rhs)), k)),
                None => None,
            }
        } else if i <= j && next_is(s, j, '/') {
            match multitive(s, j + 1) {
                Some((rhs, k)) => Some((Tree::Divide(Box::new(lhs), Box::new(rhs)), k)),
                None => None,
            }
        } else {
            Some((lhs, j))
        },
        None => None,
    }
}

/// A multitive, then optionally `+` or `-` and another additive. This is the
/// rule for a whole expression.
///
/// The test `i <= j` is there for the recursion to be well-founded on the
/// face of it; it always holds (`lemma_multitive_advances`).
pub open spec fn additive(s: Seq<char>, i: int) -> Option<(Tree, int)>
    decreases s.len() - i, 2int,
{
    match multitive(s, i) {
        Some((lhs, j)) => if i <= j && next_is(s, j, '+') {
            match additive(s, j + 1) {
                Some((rhs, k)) => Some((Tree::Add(Box::new(lhs), Box::new(rhs)), k)),
                None => None,
            }
        } else if i <= j && next_is(s, j, '-') {
            match additive(s, j + 1) {
                Some((rhs, k)) => Some((Tree::Subtract(Box::new(lhs), Box::new(rhs)), k)),
                None => None,
            }
        } else {
            Some((lhs, j))
        },
        None => None,
    }
}

/// Appending digits never lowers a numeral's value nor moves backwards, and
/// stops within the input.
pub proof fn lemma_digits_bounds(s: Seq<char>, i: int, accum: nat)
    requires
        0 <= i <= s.len(),
    ensures
        accum <= digits(s, i, accum).0,
        i <= digits(s, i, accum).1 <= s.len(),
    decreases s.len() - i,
{
    match digit(s, i) {
        Some((d, j)) => lemma_digits_bounds(s, j, accum * 10 + d),
        None => {},
    }
}

/// A numeral that starts from a larger value ends on a larger value, at the
/// same offset.
pub proof fn lemma_digits_monotone(s: Seq<char>, i: int, a: nat, b: nat)
    requires
        a <= b,
    ensures
        digits(s, i, a).0 <= digits(s, i, b).0,
        digits(s, i, a).1 == digits(s, i, b).1,
    decreases s.len() - i,
{
    match digit(s, i) {
        Some((d, j)) => lemma_digits_monotone(s, j, a * 10 + d, b * 10 + d),
        None => {},
    }
}

/// A numeral consumes at least one character and ends within the input.
pub proof fn lemma_number_literal_advances(s: Seq<char>, i: int)
    ensures
        number_literal(s, i) matches Some((_, j)) ==> 0 <= i < j <= s.len(),
{
    match digit(s, i) {
        Some((d, j)) => lemma_digits_bounds(s, j, d),
        None => {},
    }
}

/// A primary consumes at least one character and ends within the input.
pub proof fn lemma_primary_advances(s: Seq<char>, i: int)
    ensures
        primary(s, i) matches Some((_, j)) ==> 0 <= i < j <= s.len(),
    decreases s.len() - i, 0int,
{
    if next_is(s, i, '(') {
        lemma_additive_advances(s, i + 1);
    } else {
        lemma_number_literal_advances(s, i);
    }
}

/// A multitive consumes at least one character and ends within the input.
pub proof fn lemma_multitive_advances(s: Seq<char>, i: int)
    ensures
        multitive(s, i) matches Some((_, j)) ==> 0 <= i < j <= s.len(),
    decreases s.len() - i, 1int,
{
    lemma_primary_advances(s, i);
    match primary(s, i) {
        Some((_, j)) => {
            if next_is(s, j, '*') || next_is(s, j, '/') {
                lemma_multitive_advances(s, j + 1);
            }
        },
        None => {},
    }
}

/// An additive consumes at least one character and ends within the input.
pub proof fn lemma_additive_advances(s: Seq<char>, i: int)
    ensures
        additive(s, i) matches Some((_, j)) ==> 0 <= i < j <= s.len(),
    decreases s.len() - i, 2int,
{
    lemma_multitive_advances(s, i);
    match multitive(s, i) {
        Some((_, j)) => {
            if next_is(s, j, '+') || next_is(s, j, '-') {
                lemma_additive_advances(s, j + 1);
            }
        },
        None => {},
    }
}

/// A single digit is a whole expression: it is its own value, and nothing of
/// it is left over.
pub proof fn lemma_single_digit(c: char, d: nat)
    requires
        digit_value(c) == Some(d),
    ensures
        additive(seq![c], 0) == Some((Tree::Number(d), 1int)),
{
    let s = seq![c];
    assert(primary(s, 0) == Some((Tree::Number(d), 1int)));
    assert(multitive(s, 0) == Some((Tree::Number(d), 1int)));
}

} // verus!
