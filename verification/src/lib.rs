//! A memoizing (packrat) recursive-descent parser for arithmetic expressions
//! over unsigned integer literals, parentheses and the operators `+ - * /`.
//!
//! [`grammar`] says what each rule matches, as plain recursive functions on
//! the input. [`memoized`] says how a rule runs against a memo table, on the
//! level of the model, and proves that the table cannot be told from outside.
//! [`rules`] holds the rules as they run. [`parse`] makes a fresh table and
//! runs the rule for a whole expression from offset 0.

use vstd::prelude::*;

pub mod expr;
pub mod grammar;
pub mod limits;
pub mod memo;
pub mod memoized;
pub mod parser;
pub mod rules;

use crate::expr::{lemma_view_injective, Expr};
use crate::limits::additive_fits;
use crate::memo::{empty_table, Memo};
use crate::parser::{ParseResult, Parser};
use crate::rules::tree_outcome;

verus! {

/// Parses the longest expression that `input` starts with.
///
/// On a match, it yields the tree together with the cursor just past the
/// match; whether input is left beyond the cursor is for the caller to judge.
/// The outcome is that of the plain grammar: the table that is used on the way
/// is made here, empty, and dropped on return.
pub fn parse<'a>(input: &'a [char]) -> (r: ParseResult<'a, Expr>)
    requires
        input@.len() < usize::MAX,
        additive_fits(input@, 0),
    ensures
        tree_outcome(r) == grammar::additive(input@, 0),
        r matches Ok((_, p)) ==> p.source() == input@,
        tree_outcome(r) == memoized::additive(empty_table(input@.len()), input@, 0).0,
{
    let count = input.len();
    let mut v: Vec<Memo> = Vec::new();
    v.resize(count + 1, Memo::default());
    proof {
        assert(v.deep_view() =~= empty_table(input@.len()));
    }
    Parser::new(input).dvadditive(&mut v)
}

/// Parsing is a function of the input alone: whatever two runs on the same
/// input hand back, it is the same tree and the same offset, or a failure
/// both times.
pub proof fn lemma_parse_deterministic(input: Seq<char>, r1: ParseResult<Expr>, r2: ParseResult<Expr>)
    requires
        tree_outcome(r1) == grammar::additive(input, 0),
        tree_outcome(r2) == grammar::additive(input, 0),
    ensures
        r1 is Ok <==> r2 is Ok,
        r1 matches Ok((e1, p1)) ==> (r2 matches Ok((e2, p2)) ==> e1 == e2 && p1.position()
            == p2.position()),
{
    if let Ok((e1, p1)) = r1 {
        if let Ok((e2, p2)) = r2 {
            lemma_view_injective(e1, e2);
        }
    }
}

} // verus!
