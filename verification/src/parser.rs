//! The cursor: a position in a shared, read-only input.

use vstd::prelude::*;
use crate::grammar::character;

verus! {

/// The one failure signal of the parser. It carries no position and no reason:
/// an unexpected character and an unexpected end of input look the same.
#[derive(Debug, Clone, Copy, PartialEq, Eq)]
pub struct NoParse;

/// What a rule hands back: the value it matched and the cursor just past the
/// match, or the failure signal.
pub type ParseResult<'a, T> = Result<(T, Parser<'a>), NoParse>;

/// A cursor into the input: a shared reference to the whole input and an
/// offset into it. Copying a cursor copies the offset, never the input, so a
/// rule can try a continuation on a copy and fall back to the one it kept.
///
/// The offset never exceeds the length of the input; at the length, the
/// cursor is at the end of the input.
#[derive(Debug, Clone, Copy)]
pub struct Parser<'a> {
    input: &'a [char],
    offset: usize,
}

impl<'a> Parser<'a> {
    #[verifier::type_invariant]
    spec fn in_bounds(self) -> bool {
        self.offset <= self.input@.len()
    }

    /// The whole input that this cursor reads.
    pub closed spec fn source(self) -> Seq<char> {
        self.input@
    }

    /// The offset of the next character to be read.
    pub closed spec fn position(self) -> int {
        self.offset as int
    }

    /// A cursor at the start of `input`.
    pub fn new(input: &'a [char]) -> (p: Self)
        ensures
            p.source() == input@,
            p.position() == 0,
    {
        Parser { input, offset: 0 }
    }

    /// The current offset, which lies between 0 and the length of the input.
    pub fn offset(&self) -> (o: usize)
        ensures
            o == self.position(),
            o <= self.source().len(),
    {
        proof {
            use_type_invariant(self);
        }
        self.offset
    }

    /// Consumes one character: yields it with a cursor one further on, or
    /// `None` at the end of the input. The cursor itself is not changed.
    pub fn advance(self) -> (r: Option<(char, Parser<'a>)>)
        ensures
            match r {
                Some((c, p)) => character(self.source(), self.position()) == Some(
                    (c, p.position()),
                ) && p.source() == self.source(),
                None => character(self.source(), self.position()) is None,
            },
    {
        proof {
            use_type_invariant(self);
        }
        if self.offset < self.input.len() {
            let c = self.input[self.offset];
            Some((c, Parser { input: self.input, offset: self.offset + 1 }))
        } else {
            None
        }
    }

    /// Moves straight to `offset`, in one step whatever the distance.
    pub fn seek(self, offset: usize) -> (p: Self)
        requires
            offset <= self.source().len(),
        ensures
            p.source() == self.source(),
            p.position() == offset,
    {
        Parser { input: self.input, offset }
    }
}

} // verus!
