//! The rules as they run against a memo table, on the level of the model.
//!
//! Each function here takes a table, the input and a start offset, and
//! yields what the rule hands back together with the table as the rule
//! leaves it. A rule first looks at its own entry for the offset: if there is
//! one, that is the answer and the table stays as it is. Otherwise the rule
//! does its work through the other rules, which look at their entries in
//! turn, and after a match it records the answer at the offset where it
//! started. A failure is not recorded.
//!
//! On a table that is consistent with the input, a rule yields exactly what
//! the plain grammar yields, and leaves a consistent table that has lost
//! nothing: that is `lemma_additive_transparent` and its siblings.

use vstd::prelude::*;
use crate::expr::Tree;
use crate::grammar;
use crate::memo::{lemma_table_extends_transitive, table_consistent, table_extends, MemoView, Table};

verus! {

/// Whether a match that began at `i` may end at `j`: further on, and within
/// the input. Every match of the grammar does; an entry of a table that is
/// not consistent with the input may not, and is then not followed.
pub open spec fn ahead(s: Seq<char>, i: int, j: int) -> bool {
    i < j <= s.len()
}

/// The table `m` with `found` recorded for the character rule at `i`.
pub open spec fn record_char(m: Table, i: int, found: (char, int)) -> Table {
    m.update(i, MemoView { mchar: Some(found), ..m[i] })
}

/// The table `m` with `found` recorded for the numeral rule at `i`.
pub open spec fn record_num(m: Table, i: int, found: (nat, int)) -> Table {
    m.update(i, MemoView { mnum: Some(found), ..m[i] })
}

/// The table `m` with `found` recorded for the primary rule at `i`.
pub open spec fn record_prim(m: Table, i: int, found: (Tree, int)) -> Table {
    m.update(i, MemoView { mprim: Some(found), ..m[i] })
}

/// The table `m` with `found` recorded for the multitive rule at `i`.
pub open spec fn record_mult(m: Table, i: int, found: (Tree, int)) -> Table {
    m.update(i, MemoView { mmult: Some(found), ..m[i] })
}

/// The table `m` with `found` recorded for the additive rule at `i`.
pub open spec fn record_add(m: Table, i: int, found: (Tree, int)) -> Table {
    m.update(i, MemoView { madd: Some(found), ..m[i] })
}

/// Any one character.
pub open spec fn character(m: Table, s: Seq<char>, i: int) -> (Option<(char, int)>, Table) {
    if m[i].mchar is Some {
        (m[i].mchar, m)
    } else {
        match grammar::character(s, i) {
            Some(found) => (Some(found), record_char(m, i, found)),
            None => (None, m),
        }
    }
}

/// One decimal digit. It has no entry of its own: what it leaves in the
/// table is what the character rule leaves.
pub open spec fn digit(m: Table, s: Seq<char>, i: int) -> (Option<(nat, int)>, Table) {
    let (found, m1) = character(m, s, i);
    match found {
        Some((c, j)) => match grammar::digit_value(c) {
            Some(d) => (Some((d, j)), m1),
            None => (None, m1),
        },
        None => (None, m1),
    }
}

/// The digits from offset `i` on, appended to a numeral whose value so far
/// is `accum`. It has no entry of its own either.
pub open spec fn digits(m: Table, s: Seq<char>, i: int, accum: nat) -> ((nat, int), Table)
    decreases s.len() - i,
{
    let (found, m1) = digit(m, s, i);
    match found {
        Some((d, j)) => if ahead(s, i, j) {
            digits(m1, s, j, accum * 10 + d)
        } else {
            ((accum, i), m1)
        },
        None => ((accum, i), m1),
    }
}

/// A numeral.
pub open spec fn number_literal(m: Table, s: Seq<char>, i: int) -> (Option<(nat, int)>, Table) {
    if m[i].mnum is Some {
        (m[i].mnum, m)
    } else {
        let (first, m1) = digit(m, s, i);
        match first {
            Some((d, j)) => {
                let (found, m2) = digits(m1, s, j, d);
                (Some(found), record_num(m2, i, found))
            },
            None => (None, m1),
        }
    }
}

/// A numeral as a primary, for an offset at which no parenthesis opens.
pub open spec fn numeral_primary(m: Table, s: Seq<char>, i: int) -> (Option<(Tree, int)>, Table) {
    let (found, m1) = number_literal(m, s, i);
    match found {
        Some((n, j)) => (Some((Tree::Number(n), j)), record_prim(m1, i, (Tree::Number(n), j))),
        None => (None, m1),
    }
}

/// A parenthesized expression or a numeral.
pub open spec fn primary(m: Table, s: Seq<char>, i: int) -> (Option<(Tree, int)>, Table)
    decreases s.len() - i, 0int,
{
    if m[i].mprim is Some {
        (m[i].mprim, m)
    } else {
        let (first, m1) = character(m, s, i);
        match first {
            Some((c, j)) => if c == '(' && ahead(s, i, j) {
                let (inner, m2) = additive(m1, s, j);
                match inner {
                    Some((e, k)) => {
                        let (last, m3) = character(m2, s, k);
                        match last {
                            Some((c, l)) => if c == ')' {
                                (Some((e, l)), record_prim(m3, i, (e, l)))
                            } else {
                                (None, m3)
                            },
                            None => (None, m3),
                        }
                    },
                    None => (None, m2),
                }
            } else {
                numeral_primary(m1, s, i)
            },
            None => numeral_primary(m1, s, i),
        }
    }
}

/// A primary, then optionally `*` or `/` and another multitive.
pub open spec fn multitive(m: Table, s: Seq<char>, i: int) -> (Option<(Tree, int)>, Table)
    decreases s.len() - i, 1int,
{
    if m[i].mmult is Some {
        (m[i].mmult, m)
    } else {
        let (left, m1) = primary(m, s, i);
        match left {
            Some((lhs, j)) => {
                let (op, m2) = character(m1, s, j);
                match op {
                    Some((c, k)) => if c == '*' && ahead(s, i, k) {
                        let (right, m3) = multitive(m2, s, k);
                        match right {
                            Some((rhs, l)) => {
                                let found = (Tree::Multiply(Box::new(lhs), Box::new(rhs)), l);
                                (Some(found), record_mult(m3, i, found))
                            },
                            None => (None, m3),
                        }
                    } else if c == '/' && ahead(s, i, k) {
                        let (right, m3) = multitive(m2, s, k);
                        match right {
                            Some((rhs, l)) => {
                                let found = (Tree::Divide(Box::new(lhs), Box::new(rhs)), l);
                                (Some(found), record_mult(m3, i, found))
                            },
                            None => (None, m3),
                        }
                    } else {
                        (Some((lhs, j)), record_mult(m2, i, (lhs, j)))
                    },
                    None => (Some((lhs, j)), record_mult(m2, i, (lhs, j))),
                }
            },
            None => (None, m1),
        }
    }
}

/// A multitive, then optionally `+` or `-` and another additive.
pub open spec fn additive(m: Table, s: Seq<char>, i: int) -> (Option<(Tree, int)>, Table)
    decreases s.len() - i, 2int,
{
    if m[i].madd is Some {
        (m[i].madd, m)
    } else {
        let (left, m1) = multitive(m, s, i);
        match left {
            Some((lhs, j)) => {
                let (op, m2) = character(m1, s, j);
                match op {
                    Some((c, k)) => if c == '+' && ahead(s, i, k) {
                        let (right, m3) = additive(m2, s, k);
                        match right {
                            Some((rhs, l)) => {
                                let found = (Tree::Add(Box::new(lhs), Box::new(rhs)), l);
                                (Some(found), record_add(m3, i, found))
                            },
                            None => (None, m3),
                        }
                    } else if c == '-' && ahead(s, i, k) {
                        let (right, m3) = additive(m2, s, k);
                        match right {
                            Some((rhs, l)) => {
                                let found = (Tree::Subtract(Box::new(lhs), Box::new(rhs)), l);
                                (Some(found), record_add(m3, i, found))
                            },
                            None => (None, m3),
                        }
                    } else {
                        (Some((lhs, j)), record_add(m2, i, (lhs, j)))
                    },
                    None => (Some((lhs, j)), record_add(m2, i, (lhs, j))),
                }
            },
            None => (None, m1),
        }
    }
}

/// What it means for a run against the table `m` to be invisible: it yields
/// what the plain grammar yields, and leaves a table that is consistent with
/// the input and holds every entry of `m` unchanged.
pub open spec fn transparent<T>(
    run: (Option<(T, int)>, Table),
    plain: Option<(T, int)>,
    m: Table,
    s: Seq<char>,
) -> bool {
    &&& run.0 == plain
    &&& table_consistent(run.1, s)
    &&& table_extends(run.1, m)
}

/// The character rule is invisible. After it has run, its entry at `i` is
/// what it handed back: the character after a match, nothing at the end of
/// the input.
pub proof fn lemma_character_transparent(m: Table, s: Seq<char>, i: int)
    requires
        table_consistent(m, s),
        0 <= i <= s.len(),
    ensures
        transparent(character(m, s, i), grammar::character(s, i), m, s),
        character(m, s, i).1[i].mchar == character(m, s, i).0,
{
}

/// The digit rule is invisible.
pub proof fn lemma_digit_transparent(m: Table, s: Seq<char>, i: int)
    requires
        table_consistent(m, s),
        0 <= i <= s.len(),
    ensures
        transparent(digit(m, s, i), grammar::digit(s, i), m, s),
{
    lemma_character_transparent(m, s, i);
}

/// Appending digits is invisible.
pub proof fn lemma_digits_transparent(m: Table, s: Seq<char>, i: int, accum: nat)
    requires
        table_consistent(m, s),
        0 <= i <= s.len(),
    ensures
        digits(m, s, i, accum).0 == grammar::digits(s, i, accum),
        table_consistent(digits(m, s, i, accum).1, s),
        table_extends(digits(m, s, i, accum).1, m),
    decreases s.len() - i,
{
    lemma_digit_transparent(m, s, i);
    let (found, m1) = digit(m, s, i);
    if let Some((d, j)) = found {
        lemma_digits_transparent(m1, s, j, accum * 10 + d);
        lemma_table_extends_transitive(digits(m1, s, j, accum * 10 + d).1, m1, m);
    }
}

/// The numeral rule is invisible. After it has run, its entry at `i` is what
/// it handed back: the numeral after a match, nothing after a failure.
pub proof fn lemma_number_literal_transparent(m: Table, s: Seq<char>, i: int)
    requires
        table_consistent(m, s),
        0 <= i <= s.len(),
    ensures
        transparent(number_literal(m, s, i), grammar::number_literal(s, i), m, s),
        number_literal(m, s, i).1[i].mnum == number_literal(m, s, i).0,
{
    if m[i].mnum is None {
        lemma_digit_transparent(m, s, i);
        let (first, m1) = digit(m, s, i);
        if let Some((d, j)) = first {
            lemma_digits_transparent(m1, s, j, d);
            lemma_table_extends_transitive(digits(m1, s, j, d).1, m1, m);
        }
    }
}

/// The primary rule is invisible. After it has run, its entry at `i` is what
/// it handed back: the tree after a match, nothing after a failure.
pub proof fn lemma_primary_transparent(m: Table, s: Seq<char>, i: int)
    requires
        table_consistent(m, s),
        0 <= i <= s.len(),
    ensures
        transparent(primary(m, s, i), grammar::primary(s, i), m, s),
        primary(m, s, i).1[i].mprim == primary(m, s, i).0,
    decreases s.len() - i, 0int,
{
    if m[i].mprim is None {
        lemma_character_transparent(m, s, i);
        let m1 = character(m, s, i).1;
        if grammar::next_is(s, i, '(') {
            lemma_additive_transparent(m1, s, i + 1);
            grammar::lemma_additive_advances(s, i + 1);
            let (inner, m2) = additive(m1, s, i + 1);
            lemma_table_extends_transitive(m2, m1, m);
            if let Some((_, k)) = inner {
                lemma_character_transparent(m2, s, k);
                lemma_table_extends_transitive(character(m2, s, k).1, m2, m);
            }
        } else {
            lemma_number_literal_transparent(m1, s, i);
            lemma_table_extends_transitive(number_literal(m1, s, i).1, m1, m);
        }
    }
}

/// The multitive rule is invisible. After it has run, its entry at `i` is what
/// it handed back: the tree after a match, nothing after a failure.
pub proof fn lemma_multitive_transparent(m: Table, s: Seq<char>, i: int)
    requires
        table_consistent(m, s),
        0 <= i <= s.len(),
    ensures
        transparent(multitive(m, s, i), grammar::multitive(s, i), m, s),
        multitive(m, s, i).1[i].mmult == multitive(m, s, i).0,
    decreases s.len() - i, 1int,
{
    if m[i].mmult is None {
        lemma_primary_transparent(m, s, i);
        grammar::lemma_primary_advances(s, i);
        let (left, m1) = primary(m, s, i);
        if let Some((_, j)) = left {
            lemma_character_transparent(m1, s, j);
            let m2 = character(m1, s, j).1;
            lemma_table_extends_transitive(m2, m1, m);
            if grammar::next_is(s, j, '*') || grammar::next_is(s, j, '/') {
                lemma_multitive_transparent(m2, s, j + 1);
                lemma_table_extends_transitive(multitive(m2, s, j + 1).1, m2, m);
            }
        }
    }
}

/// The additive rule is invisible. After it has run, its entry at `i` is what
/// it handed back: the tree after a match, nothing after a failure.
pub proof fn lemma_additive_transparent(m: Table, s: Seq<char>, i: int)
    requires
        table_consistent(m, s),
        0 <= i <= s.len(),
    ensures
        transparent(additive(m, s, i), grammar::additive(s, i), m, s),
        additive(m, s, i).1[i].madd == additive(m, s, i).0,
    decreases s.len() - i, 2int,
{
    if m[i].madd is None {
        lemma_multitive_transparent(m, s, i);
        grammar::lemma_multitive_advances(s, i);
        let (left, m1) = multitive(m, s, i);
        if let Some((_, j)) = left {
            lemma_character_transparent(m1, s, j);
            let m2 = character(m1, s, j).1;
            lemma_table_extends_transitive(m2, m1, m);
            if grammar::next_is(s, j, '+') || grammar::next_is(s, j, '-') {
                lemma_additive_transparent(m2, s, j + 1);
                lemma_table_extends_transitive(additive(m2, s, j + 1).1, m2, m);
            }
        }
    }
}

/// What a rule has matched once it does not work out again: run a second
/// time at the same offset, on the table that the first run left, it hands
/// back the same answer and leaves the table as it is.
pub proof fn lemma_rerun_is_hit(m: Table, s: Seq<char>, i: int)
    requires
        table_consistent(m, s),
        0 <= i <= s.len(),
    ensures
        character(m, s, i).0 is Some ==> character(character(m, s, i).1, s, i) == character(
            m,
            s,
            i,
        ),
        number_literal(m, s, i).0 is Some ==> number_literal(number_literal(m, s, i).1, s, i)
            == number_literal(m, s, i),
        primary(m, s, i).0 is Some ==> primary(primary(m, s, i).1, s, i) == primary(m, s, i),
        multitive(m, s, i).0 is Some ==> multitive(multitive(m, s, i).1, s, i) == multitive(
            m,
            s,
            i,
        ),
        additive(m, s, i).0 is Some ==> additive(additive(m, s, i).1, s, i) == additive(m, s, i),
{
    lemma_character_transparent(m, s, i);
    lemma_number_literal_transparent(m, s, i);
    lemma_primary_transparent(m, s, i);
    lemma_multitive_transparent(m, s, i);
    lemma_additive_transparent(m, s, i);
}

} // verus!
