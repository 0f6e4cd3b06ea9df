//! The grammar rules, each behind its cache.
//!
//! Every rule takes the cursor by value and the memo table by mutable
//! reference. What it hands back is what the plain grammar yields at the
//! cursor; what it does to the table is what its namesake in [`memoized`]
//! does to the model of the table.

use vstd::prelude::*;
use crate::expr::{Expr, Tree};
use crate::grammar;
use crate::limits::{additive_fits, multitive_fits, number_literal_fits, primary_fits};
use crate::memo::{table_consistent, table_extends, Memo};
use crate::memoized;
use crate::parser::{NoParse, ParseResult, Parser};

verus! {

/// What a rule handed back, written as the grammar writes it: the character
/// and the offset just past it.
pub open spec fn char_outcome(r: ParseResult<char>) -> Option<(char, int)> {
    match r {
        Ok((c, p)) => Some((c, p.position())),
        Err(_) => None,
    }
}

/// What a rule handed back, written as the grammar writes it: the number and
/// the offset just past the match.
pub open spec fn number_outcome(r: ParseResult<u32>) -> Option<(nat, int)> {
    match r {
        Ok((n, p)) => Some((n as nat, p.position())),
        Err(_) => None,
    }
}

/// What a rule handed back, written as the grammar writes it: the tree and
/// the offset just past the match.
pub open spec fn tree_outcome(r: ParseResult<Expr>) -> Option<(Tree, int)> {
    match r {
        Ok((e, p)) => Some((e@, p.position())),
        Err(_) => None,
    }
}

impl<'a> Parser<'a> {
    /// The value of a decimal digit; any other character is no match.
    pub fn ctoi(c: char) -> (r: Result<u32, NoParse>)
        ensures
            match r {
                Ok(d) => grammar::digit_value(c) == Some(d as nat),
                Err(_) => grammar::digit_value(c) is None,
            },
    {
        match c {
            '0' => Ok(0),
            '1' => Ok(1),
            '2' => Ok(2),
            '3' => Ok(3),
            '4' => Ok(4),
            '5' => Ok(5),
            '6' => Ok(6),
            '7' => Ok(7),
            '8' => Ok(8),
            '9' => Ok(9),
            _ => Err(NoParse),
        }
    }

    /// Any one character. At the end of the input there is none.
    pub fn dvchar(self, memo: &mut Vec<Memo>) -> (r: ParseResult<'a, char>)
        requires
            table_consistent(old(memo).deep_view(), self.source()),
        ensures
            char_outcome(r) == grammar::character(self.source(), self.position()),
            r matches Ok((_, p)) ==> p.source() == self.source(),
            (char_outcome(r), final(memo).deep_view()) == memoized::character(
                old(memo).deep_view(),
                self.source(),
                self.position(),
            ),
            table_consistent(final(memo).deep_view(), self.source()),
            table_extends(final(memo).deep_view(), old(memo).deep_view()),
    {
        let start = self.offset();
        let ghost m0 = memo.deep_view();
        proof {
            assert(m0[start as int].consistent(self.source(), start as int));
        }
        if let Some((i, c)) = memo[start].mchar {
            Ok((c, self.seek(i)))
        } else {
            if let Some((c, deriv)) = self.advance() {
                memo[start].mchar = Some((deriv.offset(), c));
                proof {
                    assert(memo.deep_view() =~= memoized::record_char(
                        m0,
                        start as int,
                        (c, deriv.position()),
                    ));
                }
                Ok((c, deriv))
            } else {
                Err(NoParse)
            }
        }
    }

    /// One decimal digit.
    pub fn dvnumber(self, memo: &mut Vec<Memo>) -> (r: ParseResult<'a, u32>)
        requires
            table_consistent(old(memo).deep_view(), self.source()),
        ensures
            number_outcome(r) == grammar::digit(self.source(), self.position()),
            r matches Ok((_, p)) ==> p.source() == self.source(),
            (number_outcome(r), final(memo).deep_view()) == memoized::digit(
                old(memo).deep_view(),
                self.source(),
                self.position(),
            ),
            table_consistent(final(memo).deep_view(), self.source()),
            table_extends(final(memo).deep_view(), old(memo).deep_view()),
    {
        match self.dvchar(memo) {
            Ok((c, deriv)) => match Self::ctoi(c) {
                Ok(i) => Ok((i, deriv)),
                Err(e) => Err(e),
            },
            Err(e) => Err(e),
        }
    }

    /// The digits from the cursor on, as many as there are, appended to a
    /// numeral whose value so far is `accum`. It never fails: where no digit
    /// follows, it hands back `accum` and the cursor as they came.
    pub fn dvnumber_literal_impl(self, accum: u32, memo: &mut Vec<Memo>) -> (r: (u32, Parser<'a>))
        requires
            table_consistent(old(memo).deep_view(), self.source()),
            grammar::digits(self.source(), self.position(), accum as nat).0 <= u32::MAX,
        ensures
            (r.0 as nat, r.1.position()) == grammar::digits(
                self.source(),
                self.position(),
                accum as nat,
            ),
            r.1.source() == self.source(),
            ((r.0 as nat, r.1.position()), final(memo).deep_view()) == memoized::digits(
                old(memo).deep_view(),
                self.source(),
                self.position(),
                accum as nat,
            ),
            table_consistent(final(memo).deep_view(), self.source()),
            table_extends(final(memo).deep_view(), old(memo).deep_view()),
        decreases self.source().len() - self.position(),
    {
        match self.dvnumber(memo) {
            Ok((i, deriv)) => {
                proof {
                    grammar::lemma_digits_bounds(
                        self.source(),
                        deriv.position(),
                        (accum as nat) * 10 + (i as nat),
                    );
                }
                deriv.dvnumber_literal_impl(accum * 10 + i, memo)
            },
            Err(_) => (accum, self),
        }
    }

    /// A numeral: one digit or more, taken greedily.
    pub fn dvnumber_literal(self, memo: &mut Vec<Memo>) -> (r: ParseResult<'a, u32>)
        requires
            table_consistent(old(memo).deep_view(), self.source()),
            number_literal_fits(self.source(), self.position()),
        ensures
            number_outcome(r) == grammar::number_literal(self.source(), self.position()),
            r matches Ok((_, p)) ==> p.source() == self.source(),
            (number_outcome(r), final(memo).deep_view()) == memoized::number_literal(
                old(memo).deep_view(),
                self.source(),
                self.position(),
            ),
            table_consistent(final(memo).deep_view(), self.source()),
            table_extends(final(memo).deep_view(), old(memo).deep_view()),
    {
        let start = self.offset();
        let ghost m0 = memo.deep_view();
        proof {
            assert(m0[start as int].consistent(self.source(), start as int));
        }
        if let Some((i, num)) = memo[start].mnum {
            proof {
                grammar::lemma_number_literal_advances(self.source(), self.position());
            }
            Ok((num, self.seek(i)))
        } else {
            match self.dvnumber(memo) {
                Ok((i, deriv)) => {
                    let ret = deriv.dvnumber_literal_impl(i, memo);
                    let ghost m2 = memo.deep_view();
                    memo[start].mnum = Some((ret.1.offset(), ret.0));
                    proof {
                        assert(memo.deep_view() =~= memoized::record_num(
                            m2,
                            start as int,
                            (ret.0 as nat, ret.1.position()),
                        ));
                    }
                    Ok(ret)
                },
                Err(e) => Err(e),
            }
        }
    }

    /// A parenthesized expression or a numeral. An opening parenthesis
    /// commits the rule: once it is taken, a missing inner expression or a
    /// missing closing parenthesis fails the rule, and no numeral is tried.
    pub fn dvprimary(self, memo: &mut Vec<Memo>) -> (r: ParseResult<'a, Expr>)
        requires
            table_consistent(old(memo).deep_view(), self.source()),
            primary_fits(self.source(), self.position()),
        ensures
            tree_outcome(r) == grammar::primary(self.source(), self.position()),
            r matches Ok((_, p)) ==> p.source() == self.source(),
            (tree_outcome(r), final(memo).deep_view()) == memoized::primary(
                old(memo).deep_view(),
                self.source(),
                self.position(),
            ),
            table_consistent(final(memo).deep_view(), self.source()),
            table_extends(final(memo).deep_view(), old(memo).deep_view()),
        decreases self.source().len() - self.position(), 0int,
    {
        let start = self.offset();
        let ghost m0 = memo.deep_view();
        proof {
            assert(m0[start as int].consistent(self.source(), start as int));
        }
        if let Some((i, expr)) = &memo[start].mprim {
            proof {
                grammar::lemma_primary_advances(self.source(), self.position());
            }
            Ok((expr.clone(), self.seek(*i)))
        } else {
            match self.dvchar(memo) {
                Ok(('(', deriv)) => {
                    match deriv.dvadditive(memo) {
                        Ok((expr, deriv)) => {
                            match deriv.dvchar(memo) {
                                Ok((')', deriv)) => {
                                    let ghost m3 = memo.deep_view();
                                    memo[start].mprim = Some((deriv.offset(), expr.clone()));
                                    proof {
                                        assert(memo.deep_view() =~= memoized::record_prim(
                                            m3,
                                            start as int,
                                            (expr@, deriv.position()),
                                        ));
                                    }
                                    Ok((expr, deriv))
                                },
                                _ => Err(NoParse),
                            }
                        },
                        _ => Err(NoParse),
                    }
                },
                _ => {
                    match self.dvnumber_literal(memo) {
                        Ok((i, deriv)) => {
                            let ghost m2 = memo.deep_view();
                            memo[start].mprim = Some((deriv.offset(), Expr::Number(i)));
                            proof {
                                assert(memo.deep_view() =~= memoized::record_prim(
                                    m2,
                                    start as int,
                                    (Tree::Number(i as nat), deriv.position()),
                                ));
                            }
                            Ok((Expr::Number(i), deriv))
                        },
                        Err(e) => Err(e),
                    }
                },
            }
        }
    }

    /// A primary, then optionally `*` or `/` and another multitive, so that
    /// chains lean to the right. An operator commits the rule: once it is
    /// taken, a missing right operand fails the rule.
    pub fn dvmultitive(self, memo: &mut Vec<Memo>) -> (r: ParseResult<'a, Expr>)
        requires
            table_consistent(old(memo).deep_view(), self.source()),
            multitive_fits(self.source(), self.position()),
        ensures
            tree_outcome(r) == grammar::multitive(self.source(), self.position()),
            r matches Ok((_, p)) ==> p.source() == self.source(),
            (tree_outcome(r), final(memo).deep_view()) == memoized::multitive(
                old(memo).deep_view(),
                self.source(),
                self.position(),
            ),
            table_consistent(final(memo).deep_view(), self.source()),
            table_extends(final(memo).deep_view(), old(memo).deep_view()),
        decreases self.source().len() - self.position(), 1int,
    {
        let start = self.offset();
        let ghost m0 = memo.deep_view();
        proof {
            assert(m0[start as int].consistent(self.source(), start as int));
        }
        if let Some((i, expr)) = &memo[start].mmult {
            proof {
                grammar::lemma_multitive_advances(self.source(), self.position());
            }
            Ok((expr.clone(), self.seek(*i)))
        } else {
            match self.dvprimary(memo) {
                Ok((lhs, deriv)) => {
                    proof {
                        grammar::lemma_primary_advances(self.source(), self.position());
                    }
                    match deriv.dvchar(memo) {
                        Ok(('*', deriv)) => {
                            match deriv.dvmultitive(memo) {
                                Ok((rhs, deriv)) => {
                                    let ghost m3 = memo.deep_view();
                                    let expr = Expr::Multiply(Box::new(lhs), Box::new(rhs));
                                    memo[start].mmult = Some((deriv.offset(), expr.clone()));
                                    proof {
                                        assert(memo.deep_view() =~= memoized::record_mult(
                                            m3,
                                            start as int,
                                            (expr@, deriv.position()),
                                        ));
                                    }
                                    Ok((expr, deriv))
                                },
                                Err(e) => Err(e),
                            }
                        },
                        Ok(('/', deriv)) => {
                            match deriv.dvmultitive(memo) {
                                Ok((rhs, deriv)) => {
                                    let ghost m3 = memo.deep_view();
                                    let expr = Expr::Divide(Box::new(lhs), Box::new(rhs));
                                    memo[start].mmult = Some((deriv.offset(), expr.clone()));
                                    proof {
                                        assert(memo.deep_view() =~= memoized::record_mult(
                                            m3,
                                            start as int,
                                            (expr@, deriv.position()),
                                        ));
                                    }
                                    Ok((expr, deriv))
                                },
                                Err(e) => Err(e),
                            }
                        },
                        _ => {
                            let ghost m2 = memo.deep_view();
                            memo[start].mmult = Some((deriv.offset(), lhs.clone()));
                            proof {
                                assert(memo.deep_view() =~= memoized::record_mult(
                                    m2,
                                    start as int,
                                    (lhs@, deriv.position()),
                                ));
                            }
                            Ok((lhs, deriv))
                        },
                    }
                },
                Err(e) => Err(e),
            }
        }
    }

    /// A multitive, then optionally `+` or `-` and another additive, so that
    /// chains lean to the right. An operator commits the rule: once it is
    /// taken, a missing right operand fails the rule. This is the rule for a
    /// whole expression.
    pub fn dvadditive(self, memo: &mut Vec<Memo>) -> (r: ParseResult<'a, Expr>)
        requires
            table_consistent(old(memo).deep_view(), self.source()),
            additive_fits(self.source(), self.position()),
        ensures
            tree_outcome(r) == grammar::additive(self.source(), self.position()),
            r matches Ok((_, p)) ==> p.source() == self.source(),
            (tree_outcome(r), final(memo).deep_view()) == memoized::additive(
                old(memo).deep_view(),
                self.source(),
                self.position(),
            ),
            table_consistent(final(memo).deep_view(), self.source()),
            table_extends(final(memo).deep_view(), old(memo).deep_view()),
        decreases self.source().len() - self.position(), 2int,
    {
        let start = self.offset();
        let ghost m0 = memo.deep_view();
        proof {
            assert(m0[start as int].consistent(self.source(), start as int));
        }
        if let Some((i, expr)) = &memo[start].madd {
            proof {
                grammar::lemma_additive_advances(self.source(), self.position());
            }
            Ok((expr.clone(), self.seek(*i)))
        } else {
            match self.dvmultitive(memo) {
                Ok((lhs, deriv)) => {
                    proof {
                        grammar::lemma_multitive_advances(self.source(), self.position());
                    }
                    match deriv.dvchar(memo) {
                        Ok(('+', deriv)) => {
                            match deriv.dvadditive(memo) {
                                Ok((rhs, deriv)) => {
                                    let ghost m3 = memo.deep_view();
                                    let expr = Expr::Add(Box::new(lhs), Box::new(rhs));
                                    memo[start].madd = Some((deriv.offset(), expr.clone()));
                                    proof {
                                        assert(memo.deep_view() =~= memoized::record_add(
                                            m3,
                                            start as int,
                                            (expr@, deriv.position()),
                                        ));
                                    }
                                    Ok((expr, deriv))
                                },
                                Err(e) => Err(e),
                            }
                        },
                        Ok(('-', deriv)) => {
                            match deriv.dvadditive(memo) {
                                Ok((rhs, deriv)) => {
                                    let ghost m3 = memo.deep_view();
                                    let expr = Expr::Subtract(Box::new(lhs), Box::new(rhs));
                                    memo[start].madd = Some((deriv.offset(), expr.clone()));
                                    proof {
                                        assert(memo.deep_view() =~= memoized::record_add(
                                            m3,
                                            start as int,
                                            (expr@, deriv.position()),
                                        ));
                                    }
                                    Ok((expr, deriv))
                                },
                                Err(e) => Err(e),
                            }
                        },
                        _ => {
                            let ghost m2 = memo.deep_view();
                            memo[start].madd = Some((deriv.offset(), lhs.clone()));
                            proof {
                                assert(memo.deep_view() =~= memoized::record_add(
                                    m2,
                                    start as int,
                                    (lhs@, deriv.position()),
                                ));
                            }
                            Ok((lhs, deriv))
                        },
                    }
                },
                Err(e) => Err(e),
            }
        }
    }
}

} // verus!
