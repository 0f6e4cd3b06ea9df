use packrat::expr::Expr;
use packrat::limits::check_numerals_fit;
use packrat::memo::Memo;
use packrat::parser::{NoParse, Parser};

fn chars(text: &str) -> Vec<char> {
    text.chars().collect()
}

fn table(input: &[char]) -> Vec<Memo> {
    vec![Memo::default(); input.len() + 1]
}

fn num(n: u32) -> Box<Expr> {
    Box::new(Expr::Number(n))
}

#[test]
fn ctoi_maps_digits_and_nothing_else() {
    let digits = ['0', '1', '2', '3', '4', '5', '6', '7', '8', '9'];
    for (value, d) in digits.iter().enumerate() {
        assert_eq!(Parser::ctoi(*d), Ok(value as u32));
    }
    for c in ['/', ':', 'a', ' ', '(', '+', '\u{0661}', '\u{ff11}'] {
        assert_eq!(Parser::ctoi(c), Err(NoParse));
    }
}

#[test]
fn cursor_advances_one_character_at_a_time() {
    let input = chars("ab");
    let start = Parser::new(&input);
    assert_eq!(start.offset(), 0);
    let (a, one) = start.advance().expect("first character");
    assert_eq!((a, one.offset()), ('a', 1));
    let (b, two) = one.advance().expect("second character");
    assert_eq!((b, two.offset()), ('b', 2));
    assert!(two.advance().is_none());
    assert_eq!(start.offset(), 0);
    assert_eq!(one.offset(), 1);
}

#[test]
fn cursor_at_end_of_empty_input() {
    let input = chars("");
    let start = Parser::new(&input);
    assert_eq!(start.offset(), 0);
    assert!(start.advance().is_none());
}

#[test]
fn cursor_seeks_in_one_step() {
    let input = chars("abcdef");
    let there = Parser::new(&input).seek(4);
    assert_eq!(there.offset(), 4);
    let (c, _) = there.advance().expect("a character at offset 4");
    assert_eq!(c, 'e');
    let end = there.seek(6);
    assert_eq!(end.offset(), 6);
    assert!(end.advance().is_none());
    assert_eq!(end.seek(0).offset(), 0);
}

#[test]
fn dvchar_reads_and_records() {
    let input = chars("x1");
    let mut memo = table(&input);
    let (c, next) = Parser::new(&input).dvchar(&mut memo).expect("a character");
    assert_eq!((c, next.offset()), ('x', 1));
    assert_eq!(memo[0].mchar, Some((1, 'x')));
    assert_eq!(memo[1].mchar, None);
    let (c, next) = Parser::new(&input).dvchar(&mut memo).expect("a character");
    assert_eq!((c, next.offset()), ('x', 1));
    let end = Parser::new(&input).seek(2);
    assert_eq!(end.dvchar(&mut memo).map(|(c, p)| (c, p.offset())), Err(NoParse));
    assert_eq!(memo[2].mchar, None);
}

#[test]
fn dvnumber_takes_one_digit() {
    let input = chars("42x");
    let mut memo = table(&input);
    let start = Parser::new(&input);
    assert_eq!(start.dvnumber(&mut memo).map(|(d, p)| (d, p.offset())), Ok((4, 1)));
    assert_eq!(start.seek(1).dvnumber(&mut memo).map(|(d, p)| (d, p.offset())), Ok((2, 2)));
    assert_eq!(start.seek(2).dvnumber(&mut memo).map(|(d, p)| (d, p.offset())), Err(NoParse));
    assert_eq!(start.seek(3).dvnumber(&mut memo).map(|(d, p)| (d, p.offset())), Err(NoParse));
}

#[test]
fn dvnumber_literal_impl_appends_digits() {
    let input = chars("345+");
    let mut memo = table(&input);
    let start = Parser::new(&input);
    let (value, rest) = start.dvnumber_literal_impl(12, &mut memo);
    assert_eq!((value, rest.offset()), (12345, 3));
    let (value, rest) = start.seek(3).dvnumber_literal_impl(12, &mut memo);
    assert_eq!((value, rest.offset()), (12, 3));
    let (value, rest) = start.seek(4).dvnumber_literal_impl(7, &mut memo);
    assert_eq!((value, rest.offset()), (7, 4));
    let (value, rest) = start.seek(1).dvnumber_literal_impl(0, &mut memo);
    assert_eq!((value, rest.offset()), (45, 3));
}

#[test]
fn dvnumber_literal_needs_one_digit() {
    let input = chars("90+x");
    let mut memo = table(&input);
    let start = Parser::new(&input);
    assert_eq!(start.dvnumber_literal(&mut memo).map(|(n, p)| (n, p.offset())), Ok((90, 2)));
    assert_eq!(memo[0].mnum, Some((2, 90)));
    assert_eq!(
        start.seek(2).dvnumber_literal(&mut memo).map(|(n, p)| (n, p.offset())),
        Err(NoParse)
    );
    assert_eq!(memo[2].mnum, None);
    assert_eq!(
        start.seek(4).dvnumber_literal(&mut memo).map(|(n, p)| (n, p.offset())),
        Err(NoParse)
    );
}

#[test]
fn cached_numeral_is_the_whole_numeral() {
    let input = chars("123");
    let mut memo = table(&input);
    let start = Parser::new(&input);
    let first = start.dvnumber_literal(&mut memo).map(|(n, p)| (n, p.offset()));
    let again = start.dvnumber_literal(&mut memo).map(|(n, p)| (n, p.offset()));
    assert_eq!(first, Ok((123, 3)));
    assert_eq!(again, first);
}

#[test]
fn rules_record_their_matches() {
    let input = chars("2*3");
    let mut memo = table(&input);
    let (expr, rest) = Parser::new(&input).dvadditive(&mut memo).expect("an expression");
    let product = Expr::Multiply(num(2), num(3));
    assert_eq!(expr, product);
    assert_eq!(rest.offset(), 3);
    assert_eq!(memo[0].madd, Some((3, Expr::Multiply(num(2), num(3)))));
    assert_eq!(memo[0].mmult, Some((3, Expr::Multiply(num(2), num(3)))));
    assert_eq!(memo[0].mprim, Some((1, Expr::Number(2))));
    assert_eq!(memo[0].mnum, Some((1, 2)));
    assert_eq!(memo[0].mchar, Some((1, '2')));
    assert_eq!(memo[1].mchar, Some((2, '*')));
    assert_eq!(memo[1].mprim, None);
    assert_eq!(memo[2].mmult, Some((3, Expr::Number(3))));
    assert_eq!(memo[2].mprim, Some((3, Expr::Number(3))));
    assert_eq!(memo[2].madd, None);
    assert_eq!(memo[3].mchar, None);
}

#[test]
fn failures_are_not_recorded() {
    let input = chars("(1+");
    let mut memo = table(&input);
    let outcome = Parser::new(&input).dvadditive(&mut memo).map(|(e, p)| (e, p.offset()));
    assert_eq!(outcome, Err(NoParse));
    assert_eq!(memo[0].madd, None);
    assert_eq!(memo[0].mmult, None);
    assert_eq!(memo[0].mprim, None);
    assert_eq!(memo[1].madd, None);
    assert_eq!(memo[1].mmult, Some((2, Expr::Number(1))));
    assert_eq!(memo[1].mprim, Some((2, Expr::Number(1))));
    assert_eq!(memo[3].mprim, None);
    let again = Parser::new(&input).dvadditive(&mut memo).map(|(e, p)| (e, p.offset()));
    assert_eq!(again, Err(NoParse));
}

#[test]
fn entries_are_written_once() {
    let input = chars("(1+2)*3");
    let mut memo = table(&input);
    let start = Parser::new(&input);
    start.seek(1).dvadditive(&mut memo).expect("the inner sum");
    let before: Vec<Memo> = memo.clone();
    start.dvadditive(&mut memo).expect("the whole expression");
    for (old, new) in before.iter().zip(memo.iter()) {
        if old.mchar.is_some() {
            assert_eq!(new.mchar, old.mchar);
        }
        if old.mnum.is_some() {
            assert_eq!(new.mnum, old.mnum);
        }
        if old.mprim.is_some() {
            assert_eq!(new.mprim, old.mprim);
        }
        if old.mmult.is_some() {
            assert_eq!(new.mmult, old.mmult);
        }
        if old.madd.is_some() {
            assert_eq!(new.madd, old.madd);
        }
    }
    assert_eq!(memo.len(), input.len() + 1);
}

#[test]
fn warm_table_gives_what_a_fresh_table_gives() {
    for text in ["(12+34)*56-78", "1+2*3-4", "12*34+56/78", "((1+2))*3", "(1+2", "1*", "7"] {
        let input = chars(text);
        let start = Parser::new(&input);
        let mut fresh = table(&input);
        let cold = start.dvadditive(&mut fresh).map(|(e, p)| (e, p.offset()));
        let warm = start.dvadditive(&mut fresh).map(|(e, p)| (e, p.offset()));
        assert_eq!(warm, cold);
        for at in 0..=input.len() {
            let mut one = table(&input);
            let mut other = fresh.clone();
            let here = start.seek(at);
            assert_eq!(
                here.dvprimary(&mut other).map(|(e, p)| (e, p.offset())),
                here.dvprimary(&mut one).map(|(e, p)| (e, p.offset()))
            );
            assert_eq!(
                here.dvmultitive(&mut other).map(|(e, p)| (e, p.offset())),
                here.dvmultitive(&mut one).map(|(e, p)| (e, p.offset()))
            );
            assert_eq!(
                here.dvadditive(&mut other).map(|(e, p)| (e, p.offset())),
                here.dvadditive(&mut one).map(|(e, p)| (e, p.offset()))
            );
        }
    }
}

#[test]
fn cache_hit_returns_the_entry_without_reading_the_input() {
    let input = chars("1+2");
    let mut memo = table(&input);
    let start = Parser::new(&input);
    start.dvadditive(&mut memo).expect("an expression");
    let snapshot: Vec<Memo> = memo.clone();
    let (expr, rest) = start.dvadditive(&mut memo).expect("an expression");
    assert_eq!(expr, Expr::Add(num(1), num(2)));
    assert_eq!(rest.offset(), 3);
    for (old, new) in snapshot.iter().zip(memo.iter()) {
        assert_eq!(old.mchar, new.mchar);
        assert_eq!(old.mnum, new.mnum);
        assert_eq!(old.mprim, new.mprim);
        assert_eq!(old.mmult, new.mmult);
        assert_eq!(old.madd, new.madd);
    }
}

#[test]
fn primary_multitive_and_additive_differ_in_reach() {
    let input = chars("1*2+3");
    let start = Parser::new(&input);
    let mut memo = table(&input);
    assert_eq!(
        start.dvprimary(&mut memo).map(|(e, p)| (e, p.offset())),
        Ok((Expr::Number(1), 1))
    );
    assert_eq!(
        start.dvmultitive(&mut memo).map(|(e, p)| (e, p.offset())),
        Ok((Expr::Multiply(num(1), num(2)), 3))
    );
    assert_eq!(
        start.dvadditive(&mut memo).map(|(e, p)| (e, p.offset())),
        Ok((Expr::Add(Box::new(Expr::Multiply(num(1), num(2))), num(3)), 5))
    );
}

#[test]
fn expressions_and_records_clone_deeply() {
    let expr = Expr::Add(num(1), Box::new(Expr::Divide(num(2), num(3))));
    assert_eq!(expr.clone(), expr);
    let memo = Memo {
        mchar: Some((1, '(')),
        mnum: None,
        mprim: Some((5, expr.clone())),
        mmult: None,
        madd: Some((5, expr.clone())),
    };
    let copy = memo.clone();
    assert_eq!(copy.mchar, memo.mchar);
    assert_eq!(copy.mnum, memo.mnum);
    assert_eq!(copy.mprim, memo.mprim);
    assert_eq!(copy.mmult, memo.mmult);
    assert_eq!(copy.madd, memo.madd);
}

#[test]
fn default_record_is_empty() {
    let memo = Memo::default();
    assert_eq!(memo.mchar, None);
    assert_eq!(memo.mnum, None);
    assert_eq!(memo.mprim, None);
    assert_eq!(memo.mmult, None);
    assert_eq!(memo.madd, None);
}

#[test]
fn numerals_up_to_32_bits_fit() {
    assert!(check_numerals_fit(&chars("")));
    assert!(check_numerals_fit(&chars("(12+34)*56-78")));
    assert!(check_numerals_fit(&chars("4294967295")));
    assert!(check_numerals_fit(&chars("4294967295+4294967295")));
    assert!(check_numerals_fit(&chars("00000000004294967295")));
    assert!(check_numerals_fit(&chars("abc")));
}

#[test]
fn numerals_beyond_32_bits_do_not_fit() {
    assert!(!check_numerals_fit(&chars("4294967296")));
    assert!(!check_numerals_fit(&chars("1+4294967296")));
    assert!(!check_numerals_fit(&chars("(99999999999999999999999999)")));
    assert!(!check_numerals_fit(&chars("1)10000000000")));
    assert!(!check_numerals_fit(&chars("42949672950")));
}
