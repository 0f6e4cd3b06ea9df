use packrat::expr::Expr;
use packrat::limits::check_numerals_fit;
use packrat::parse;

/// The grammar without any table, written out once more for comparison.
fn plain_number(input: &[char], at: usize) -> Option<(u32, usize)> {
    let mut end = at;
    let mut value: u32 = 0;
    while end < input.len() && input[end].is_ascii_digit() {
        value = value * 10 + (input[end] as u32 - '0' as u32);
        end += 1;
    }
    if end == at {
        None
    } else {
        Some((value, end))
    }
}

fn plain_primary(input: &[char], at: usize) -> Option<(Expr, usize)> {
    if at < input.len() && input[at] == '(' {
        let (inner, end) = plain_additive(input, at + 1)?;
        if end < input.len() && input[end] == ')' {
            Some((inner, end + 1))
        } else {
            None
        }
    } else {
        let (value, end) = plain_number(input, at)?;
        Some((Expr::Number(value), end))
    }
}

fn plain_multitive(input: &[char], at: usize) -> Option<(Expr, usize)> {
    let (lhs, end) = plain_primary(input, at)?;
    if end < input.len() && input[end] == '*' {
        let (rhs, end) = plain_multitive(input, end + 1)?;
        Some((Expr::Multiply(Box::new(lhs), Box::new(rhs)), end))
    } else if end < input.len() && input[end] == '/' {
        let (rhs, end) = plain_multitive(input, end + 1)?;
        Some((Expr::Divide(Box::new(lhs), Box::new(rhs)), end))
    } else {
        Some((lhs, end))
    }
}

fn plain_additive(input: &[char], at: usize) -> Option<(Expr, usize)> {
    let (lhs, end) = plain_multitive(input, at)?;
    if end < input.len() && input[end] == '+' {
        let (rhs, end) = plain_additive(input, end + 1)?;
        Some((Expr::Add(Box::new(lhs), Box::new(rhs)), end))
    } else if end < input.len() && input[end] == '-' {
        let (rhs, end) = plain_additive(input, end + 1)?;
        Some((Expr::Subtract(Box::new(lhs), Box::new(rhs)), end))
    } else {
        Some((lhs, end))
    }
}

fn memoized(input: &[char]) -> Option<(Expr, usize)> {
    assert!(check_numerals_fit(input));
    match parse(input) {
        Ok((expr, rest)) => Some((expr, rest.offset())),
        Err(_) => None,
    }
}

#[test]
fn memoized_parse_equals_plain_parse_on_all_short_inputs() {
    let alphabet = ['1', '0', '(', ')', '+', '-', '*', '/', 'x'];
    let mut inputs: Vec<Vec<char>> = vec![Vec::new()];
    let mut checked = 0;
    for _ in 0..=5 {
        let mut longer = Vec::new();
        for input in &inputs {
            assert_eq!(memoized(input), plain_additive(input, 0));
            checked += 1;
            for c in alphabet {
                let mut next = input.clone();
                next.push(c);
                longer.push(next);
            }
        }
        inputs = longer;
    }
    assert_eq!(checked, 1 + 9 + 81 + 729 + 6561 + 59049);
}

#[test]
fn memoized_parse_equals_plain_parse_on_longer_inputs() {
    for text in [
        "(12+34)*56-78",
        "1+2*3-4",
        "12*34+56/78",
        "((((((1+2)*3)-4)/5)+6)*7)",
        "1+(2*(3-(4/(5+(6*(7-8))))))",
        "(1+2)*(3+4)*(5+6)-(7-8)/(9/10)",
        "(1+2)*(3+4",
        "1+2*3-",
        "4294967295+0",
    ] {
        let input: Vec<char> = text.chars().collect();
        assert_eq!(memoized(&input), plain_additive(&input, 0));
    }
}
