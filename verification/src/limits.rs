//! The one machine limit of the parser: a numeral has to fit in 32 bits.
//!
//! A rule can work only where every numeral that it reads fits. Which
//! numerals a rule reads follows from the grammar: `additive_fits` and its
//! siblings say so, rule by rule. Where every numeral of the input fits,
//! each rule can work at each offset, and that is a condition that can be
//! tested beforehand with [`check_numerals_fit`].

use vstd::prelude::*;
use crate::grammar::{
    digit, digits, lemma_digits_bounds, lemma_digits_monotone, lemma_multitive_advances,
    lemma_primary_advances, multitive, next_is, number_literal, primary,
};
use crate::parser::Parser;

verus! {

/// The numeral that the numeral rule matches at `i`, if it matches one, fits
/// in 32 bits.
pub open spec fn number_literal_fits(s: Seq<char>, i: int) -> bool {
    number_literal(s, i) matches Some((n, _)) ==> n <= u32::MAX
}

/// Every numeral that the primary rule reads from `i` fits in 32 bits.
pub open spec fn primary_fits(s: Seq<char>, i: int) -> bool
    decreases s.len() - i, 0int,
{
    if next_is(s, i, '(') {
        additive_fits(s, i + 1)
    } else {
        number_literal_fits(s, i)
    }
}

/// Every numeral that the multitive rule reads from `i` fits in 32 bits:
/// those of its left operand and, where an operator follows, those of its
/// right operand.
pub open spec fn multitive_fits(s: Seq<char>, i: int) -> bool
    decreases s.len() - i, 1int,
{
    &&& primary_fits(s, i)
    &&& match primary(s, i) {
        Some((_, j)) => i <= j && (next_is(s, j, '*') || next_is(s, j, '/')) ==> multitive_fits(
            s,
            j + 1,
        ),
        None => true,
    }
}

/// Every numeral that the additive rule reads from `i` fits in 32 bits:
/// those of its left operand and, where an operator follows, those of its
/// right operand.
pub open spec fn additive_fits(s: Seq<char>, i: int) -> bool
    decreases s.len() - i, 2int,
{
    &&& multitive_fits(s, i)
    &&& match multitive(s, i) {
        Some((_, j)) => i <= j && (next_is(s, j, '+') || next_is(s, j, '-')) ==> additive_fits(
            s,
            j + 1,
        ),
        None => true,
    }
}

/// Every numeral in the input denotes a value that fits in 32 bits.
///
/// The digits that follow offset `i` form a suffix of the numeral that `i`
/// lies in, so it is enough to ask this of each offset.
pub open spec fn numerals_fit(s: Seq<char>) -> bool {
    forall|i: int| 0 <= i < s.len() ==> (#[trigger] digits(s, i, 0)).0 <= u32::MAX
}

/// Where every numeral of the input fits in 32 bits, so does the one that
/// the numeral rule matches at `i`.
pub proof fn lemma_number_literal_fits(s: Seq<char>, i: int)
    requires
        numerals_fit(s),
    ensures
        number_literal_fits(s, i),
{
    if let Some((d, j)) = digit(s, i) {
        assert(digits(s, i, 0) == digits(s, j, d));
    }
}

/// Where every numeral of the input fits in 32 bits, every rule reads only
/// numerals that fit, wherever it starts.
pub proof fn lemma_numerals_fit_suffices(s: Seq<char>, i: int)
    requires
        numerals_fit(s),
    ensures
        primary_fits(s, i),
        multitive_fits(s, i),
        additive_fits(s, i),
    decreases s.len() - i,
{
    lemma_number_literal_fits(s, i);
    lemma_primary_advances(s, i);
    lemma_multitive_advances(s, i);
    if next_is(s, i, '(') {
        lemma_numerals_fit_suffices(s, i + 1);
    }
    assert(primary_fits(s, i));
    if let Some((_, j)) = primary(s, i) {
        if next_is(s, j, '*') || next_is(s, j, '/') {
            lemma_numerals_fit_suffices(s, j + 1);
        }
    }
    assert(multitive_fits(s, i));
    if let Some((_, j)) = multitive(s, i) {
        if next_is(s, j, '+') || next_is(s, j, '-') {
            lemma_numerals_fit_suffices(s, j + 1);
        }
    }
}

/// Tells whether every numeral in `input` fits in 32 bits. Where they do,
/// the input can be parsed.
pub fn check_numerals_fit(input: &[char]) -> (fit: bool)
    ensures
        fit == numerals_fit(input@),
        fit ==> additive_fits(input@, 0),
{
    let ghost s = input@;
    proof {
        if numerals_fit(s) {
            lemma_numerals_fit_suffices(s, 0);
        }
    }
    let mut accum: u64 = 0;
    let ghost mut run_start: int = 0;
    let mut i: usize = 0;
    while i < input.len()
        invariant
            s == input@,
            0 <= run_start <= i <= s.len(),
            accum <= u32::MAX,
            digits(s, run_start, 0) == digits(s, i as int, accum as nat),
            forall|k: int|
                0 <= k < i ==> (#[trigger] digits(s, k, 0)).0 <= u32::MAX || digits(s, k, 0).0
                    <= digits(s, i as int, accum as nat).0,
        decreases s.len() - i,
    {
        match Parser::ctoi(input[i]) {
            Ok(d) => {
                proof {
                    lemma_digits_monotone(s, i as int, 0, accum as nat);
                    lemma_digits_bounds(s, i + 1, (accum * 10 + d) as nat);
                }
                accum = accum * 10 + d as u64;
                if accum > u32::MAX as u64 {
                    assert(digits(s, run_start, 0).0 > u32::MAX);
                    return false;
                }
            },
            Err(_) => {
                accum = 0;
                proof {
                    run_start = i + 1;
                }
            },
        }
        i += 1;
    }
    true
}

} // verus!
