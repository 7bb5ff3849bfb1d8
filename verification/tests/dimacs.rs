use dpll_sat::dimacs::{characters, is_whitespace};
use dpll_sat::{dpll, parse_clause, parse_cnf, parse_integer, ParseError};

fn chars(text: &str) -> Vec<char> {
    text.chars().collect()
}

#[test]
fn characters_lists_the_text() {
    assert_eq!(characters("p cnf"), vec!['p', ' ', 'c', 'n', 'f']);
    assert_eq!(characters(""), Vec::<char>::new());
    assert_eq!(characters("1\u{a0}é"), vec!['1', '\u{a0}', 'é']);
}

#[test]
fn is_whitespace_agrees_with_the_standard_on_every_character() {
    let mut code: u32 = 0;
    while code <= 0x10ffff {
        if let Some(c) = char::from_u32(code) {
            assert_eq!(is_whitespace(c), c.is_whitespace(), "U+{:04X}", code);
        }
        code += 1;
    }
}

#[test]
fn parse_integer_reads_signed_decimals() {
    assert_eq!(parse_integer(&chars("0")), Some(0));
    assert_eq!(parse_integer(&chars("7")), Some(7));
    assert_eq!(parse_integer(&chars("-12")), Some(-12));
    assert_eq!(parse_integer(&chars("+12")), Some(12));
    assert_eq!(parse_integer(&chars("007")), Some(7));
    assert_eq!(parse_integer(&chars("-0")), Some(0));
}

#[test]
fn parse_integer_reads_the_ends_of_the_range() {
    assert_eq!(parse_integer(&chars("2147483647")), Some(i32::MAX));
    assert_eq!(parse_integer(&chars("-2147483648")), Some(i32::MIN));
    assert_eq!(parse_integer(&chars("2147483648")), None);
    assert_eq!(parse_integer(&chars("-2147483649")), None);
    assert_eq!(parse_integer(&chars("99999999999999999999999")), None);
    assert_eq!(parse_integer(&chars("00000000000000000000001")), Some(1));
}

#[test]
fn parse_integer_rejects_what_is_no_integer() {
    assert_eq!(parse_integer(&chars("")), None);
    assert_eq!(parse_integer(&chars("-")), None);
    assert_eq!(parse_integer(&chars("+")), None);
    assert_eq!(parse_integer(&chars("1a")), None);
    assert_eq!(parse_integer(&chars("a1")), None);
    assert_eq!(parse_integer(&chars("--1")), None);
    assert_eq!(parse_integer(&chars("1-")), None);
    assert_eq!(parse_integer(&chars("1.5")), None);
    assert_eq!(parse_integer(&chars(" 1")), None);
    assert_eq!(parse_integer(&chars("٣")), None);
}

#[test]
fn parse_integer_agrees_with_the_standard() {
    let tokens = [
        "0", "1", "-1", "+1", "+-1", "-+1", "12x", "x", "2147483647", "2147483648", "-2147483648",
        "-2147483649", "4294967296", "+0", "-00", "0009", "9000000000", "", "+", "-", "1 ",
    ];
    for token in tokens {
        assert_eq!(parse_integer(&chars(token)), token.parse::<i32>().ok(), "{:?}", token);
    }
}

#[test]
fn parse_clause_stops_at_the_first_zero() {
    assert_eq!(parse_clause(&chars("1 -2 3 0")), Some(vec![1, -2, 3]));
    assert_eq!(parse_clause(&chars("1 -2 0 3 4")), Some(vec![1, -2]));
    assert_eq!(parse_clause(&chars("0")), Some(vec![]));
    assert_eq!(parse_clause(&chars("1 2")), Some(vec![1, 2]));
}

#[test]
fn parse_clause_takes_any_white_space() {
    assert_eq!(parse_clause(&chars("  1\t-2 \u{a0} 3  0  ")), Some(vec![1, -2, 3]));
    assert_eq!(parse_clause(&chars("")), Some(vec![]));
    assert_eq!(parse_clause(&chars("   ")), Some(vec![]));
    assert_eq!(parse_clause(&chars("5\r")), Some(vec![5]));
}

#[test]
fn parse_clause_fails_on_a_bad_token_before_the_zero() {
    assert_eq!(parse_clause(&chars("1 x 0")), None);
    assert_eq!(parse_clause(&chars("x")), None);
    assert_eq!(parse_clause(&chars("1 2147483648 0")), None);
}

#[test]
fn parse_clause_does_not_read_past_the_zero() {
    assert_eq!(parse_clause(&chars("1 0 x")), Some(vec![1]));
    assert_eq!(parse_clause(&chars("0 %")), Some(vec![]));
}

#[test]
fn parse_cnf_skips_the_header() {
    let text = "c a comment\np cnf 3 2\n1 -3 0\n2 3 -1 0\n";
    assert_eq!(parse_cnf(text), Ok(vec![vec![1, -3], vec![2, 3, -1]]));
}

#[test]
fn parse_cnf_skips_empty_lines_before_the_clauses() {
    let text = "\n\nc x\n\np cnf 1 1\n\n1 0\n";
    assert_eq!(parse_cnf(text), Ok(vec![vec![1]]));
}

#[test]
fn parse_cnf_reads_an_empty_text() {
    assert_eq!(parse_cnf(""), Ok(vec![]));
    assert_eq!(parse_cnf("c only a comment"), Ok(vec![]));
    assert_eq!(parse_cnf("\n"), Ok(vec![]));
}

#[test]
fn parse_cnf_reads_a_last_line_without_line_feed() {
    assert_eq!(parse_cnf("p cnf 2 2\n1 2 0\n-1 0"), Ok(vec![vec![1, 2], vec![-1]]));
}

#[test]
fn parse_cnf_reads_an_empty_line_after_the_header_as_an_empty_clause() {
    assert_eq!(parse_cnf("1 0\n\n2 0\n"), Ok(vec![vec![1], vec![], vec![2]]));
}

#[test]
fn parse_cnf_takes_carriage_returns() {
    assert_eq!(parse_cnf("c x\r\np cnf 1 1\r\n\r\n1 -2 0\r\n3 0"), Ok(vec![vec![1, -2], vec![3]]));
}

#[test]
fn parse_cnf_names_the_line_of_a_bad_token() {
    assert_eq!(parse_cnf("p cnf 1 1\n1 0\nc late comment\n2 0\n"), Err(ParseError { line: 3 }));
    assert_eq!(parse_cnf("1 0\n2 y 0\n3 z 0"), Err(ParseError { line: 2 }));
    assert_eq!(parse_cnf("x"), Err(ParseError { line: 1 }));
}

#[test]
fn parse_cnf_agrees_with_the_standard_line_and_token_split() {
    let texts = [
        "c h\np cnf 2 2\n1 2 0\n-1 -2 0\n",
        "\r\n1 0\r\n",
        "1 0\n\n",
        " c not a comment 0",
        "1\u{2003}2 0\n3\u{b}4\n",
        "7 0\r",
        "\r",
    ];
    for text in texts {
        let expected: Option<Vec<Vec<i32>>> = text
            .lines()
            .skip_while(|line| match line.chars().next() {
                Some(c) => c == 'c' || c == 'p',
                None => true,
            })
            .map(|line| {
                let mut clause = Vec::new();
                for token in line.split_whitespace() {
                    match token.parse::<i32>() {
                        Ok(0) => break,
                        Ok(v) => clause.push(v),
                        Err(_) => return None,
                    }
                }
                Some(clause)
            })
            .collect();
        assert_eq!(parse_cnf(text).ok(), expected, "{:?}", text);
    }
}

#[test]
fn parsed_formula_is_solved() {
    let clauses = parse_cnf("c sample\np cnf 3 2\n-1 -2 0\n-3 2 1 0\n").expect("well formed");
    assert_eq!(dpll(clauses), Some(vec![-1, -3]));
}
