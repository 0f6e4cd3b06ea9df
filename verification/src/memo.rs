//! The memo table: for each offset of the input, what each rule is already
//! known to match there.

use vstd::prelude::*;
use crate::expr::{Expr, Tree};
use crate::grammar;

verus! {

/// The cache record of one offset. Each field belongs to one rule and holds,
/// once that rule has matched at this offset, the offset just past the match
/// and the value matched. Failures are not recorded.
#[derive(Debug)]
pub struct Memo {
    pub mchar: Option<(usize, char)>,
    pub mnum: Option<(usize, u32)>,
    pub mprim: Option<(usize, Expr)>,
    pub mmult: Option<(usize, Expr)>,
    pub madd: Option<(usize, Expr)>,
}

/// The mathematical model of a cache record. An entry is written the way the
/// grammar writes what a rule yields: the value, then the offset just past
/// the match.
pub struct MemoView {
    pub mchar: Option<(char, int)>,
    pub mnum: Option<(nat, int)>,
    pub mprim: Option<(Tree, int)>,
    pub mmult: Option<(Tree, int)>,
    pub madd: Option<(Tree, int)>,
}

/// The mathematical model of a memo table: one record for each offset.
pub type Table = Seq<MemoView>;

impl DeepView for Memo {
    type V = MemoView;

    open spec fn deep_view(&self) -> MemoView {
        MemoView {
            mchar: match self.mchar {
                Some((j, c)) => Some((c, j as int)),
                None => None,
            },
            mnum: match self.mnum {
                Some((j, n)) => Some((n as nat, j as int)),
                None => None,
            },
            mprim: match self.mprim {
                Some((j, e)) => Some((e@, j as int)),
                None => None,
            },
            mmult: match self.mmult {
                Some((j, e)) => Some((e@, j as int)),
                None => None,
            },
            madd: match self.madd {
                Some((j, e)) => Some((e@, j as int)),
                None => None,
            },
        }
    }
}

impl MemoView {
    /// The record in which nothing is known yet.
    pub open spec fn empty() -> MemoView {
        MemoView { mchar: None, mnum: None, mprim: None, mmult: None, madd: None }
    }

    /// Every entry of this record is what the grammar yields on `s` at
    /// offset `i`.
    pub open spec fn consistent(self, s: Seq<char>, i: int) -> bool {
        &&& self.mchar is Some ==> self.mchar == grammar::character(s, i)
        &&& self.mnum is Some ==> self.mnum == grammar::number_literal(s, i)
        &&& self.mprim is Some ==> self.mprim == grammar::primary(s, i)
        &&& self.mmult is Some ==> self.mmult == grammar::multitive(s, i)
        &&& self.madd is Some ==> self.madd == grammar::additive(s, i)
    }

    /// Every entry that `older` holds is still there, unchanged.
    pub open spec fn extends(self, older: MemoView) -> bool {
        &&& older.mchar is Some ==> self.mchar == older.mchar
        &&& older.mnum is Some ==> self.mnum == older.mnum
        &&& older.mprim is Some ==> self.mprim == older.mprim
        &&& older.mmult is Some ==> self.mmult == older.mmult
        &&& older.madd is Some ==> self.madd == older.madd
    }
}

impl Clone for Memo {
    /// A deep copy: the clone holds the same entries.
    fn clone(&self) -> (res: Self)
        ensures
            res == *self,
    {
        Memo {
            mchar: self.mchar,
            mnum: self.mnum,
            mprim: match &self.mprim {
                Some((j, e)) => Some((*j, e.clone())),
                None => None,
            },
            mmult: match &self.mmult {
                Some((j, e)) => Some((*j, e.clone())),
                None => None,
            },
            madd: match &self.madd {
                Some((j, e)) => Some((*j, e.clone())),
                None => None,
            },
        }
    }
}

impl Default for Memo {
    /// The record in which nothing is known yet.
    fn default() -> (m: Self)
        ensures
            m.deep_view() == MemoView::empty(),
            m == (Memo { mchar: None, mnum: None, mprim: None, mmult: None, madd: None }),
    {
        Memo { mchar: None, mnum: None, mprim: None, mmult: None, madd: None }
    }
}

/// The table for an input of `n` characters in which nothing is known yet.
pub open spec fn empty_table(n: nat) -> Table {
    Seq::new(n + 1, |i: int| MemoView::empty())
}

/// A table for the input `s`: one record for each offset from 0 to the
/// length of `s`, each consistent with the grammar.
pub open spec fn table_consistent(m: Table, s: Seq<char>) -> bool {
    &&& m.len() == s.len() + 1
    &&& forall|i: int| 0 <= i < m.len() ==> (#[trigger] m[i]).consistent(s, i)
}

/// Entries are written once: `newer` has every entry of `older`, unchanged.
pub open spec fn table_extends(newer: Table, older: Table) -> bool {
    &&& newer.len() == older.len()
    &&& forall|i: int| 0 <= i < older.len() ==> (#[trigger] newer[i]).extends(older[i])
}

/// What extends a table that extends a third one extends the third.
pub proof fn lemma_table_extends_transitive(c: Table, b: Table, a: Table)
    requires
        table_extends(c, b),
        table_extends(b, a),
    ensures
        table_extends(c, a),
{
    assert forall|i: int| 0 <= i < a.len() implies (#[trigger] c[i]).extends(a[i]) by {
        assert(b[i].extends(a[i]));
    }
}

} // verus!
