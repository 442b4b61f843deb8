use lexer::bignum::BigNum;
use lexer::lexer::{next_token, tokenize, tokenize_with};
use lexer::rules::build_rules;
use lexer::token::{LexError, Token, TokenSource};

fn spans_are_contiguous(tokens: &[TokenSource], input_len: usize) {
    assert!(!tokens.is_empty());
    assert_eq!(tokens[0].start, 0);
    for w in tokens.windows(2) {
        assert_eq!(w[0].end, w[1].start);
    }
    for t in tokens {
        assert!(t.start < t.end);
    }
    assert_eq!(tokens.last().unwrap().end, input_len);
}

fn reconstruct(tokens: &[TokenSource], input: &str) -> String {
    let mut out = String::new();
    for t in tokens {
        out.push_str(&input[t.start..t.end]);
    }
    out
}

#[test]
fn integer_input_small() {
    let tokens = tokenize("123").unwrap();
    assert_eq!(tokens.len(), 1);
    assert_eq!(tokens[0].start, 0);
    assert_eq!(tokens[0].end, 3);
    match &tokens[0].token {
        Token::Int(b) => {
            assert!(!b.negative);
            assert_eq!(b.digits, vec![1, 2, 3]);
        },
        other => panic!("expected an integer token, got {:?}", other),
    }
}

#[test]
fn integer_input_signed() {
    let tokens = tokenize("-42").unwrap();
    assert_eq!(tokens.len(), 1);
    match &tokens[0].token {
        Token::Int(b) => {
            assert!(b.negative);
            assert_eq!(b.digits, vec![4, 2]);
        },
        other => panic!("expected an integer token, got {:?}", other),
    }
    let tokens = tokenize("+7").unwrap();
    assert_eq!(tokens.len(), 1);
    match &tokens[0].token {
        Token::Int(b) => {
            assert!(!b.negative);
            assert_eq!(b.digits, vec![7]);
        },
        other => panic!("expected an integer token, got {:?}", other),
    }
}

#[test]
fn integer_input_beyond_machine_range() {
    let text = "123456789012345678901234567890123456789";
    let tokens = tokenize(text).unwrap();
    assert_eq!(tokens.len(), 1);
    assert_eq!(tokens[0].end, text.len());
    match &tokens[0].token {
        Token::Int(b) => {
            assert!(!b.negative);
            let expect: Vec<u8> = text.bytes().map(|c| c - b'0').collect();
            assert_eq!(b.digits, expect);
        },
        other => panic!("expected an integer token, got {:?}", other),
    }
}

#[test]
fn bignum_parse_validates() {
    assert!(BigNum::parse("").is_none());
    assert!(BigNum::parse("+").is_none());
    assert!(BigNum::parse("-").is_none());
    assert!(BigNum::parse("12a").is_none());
    assert!(BigNum::parse("a12").is_none());
    assert!(BigNum::parse(" 12").is_none());
    let b = BigNum::parse("007").unwrap();
    assert!(!b.negative);
    assert_eq!(b.digits, vec![0, 0, 7]);
    let b = BigNum::parse("-0").unwrap();
    assert!(b.negative);
    assert_eq!(b.digits, vec![0]);
}

#[test]
fn float_input_simple() {
    let tokens = tokenize("3.5").unwrap();
    assert_eq!(tokens.len(), 1);
    match &tokens[0].token {
        Token::Float(text) => {
            assert_eq!(text, "3.5");
            let value: f64 = text.parse().unwrap();
            assert_eq!(value, 3.5);
        },
        other => panic!("expected a float token, got {:?}", other),
    }
}

#[test]
fn float_input_forms() {
    for (text, expect) in [
        ("0.25", 0.25),
        (".5", 0.5),
        ("2.", 2.0),
        ("2.5e3", 2500.0),
        ("1.5E-2", 0.015),
        ("3e4", 30000.0),
        ("1.e2", 100.0),
    ] {
        let tokens = tokenize(text).unwrap();
        assert_eq!(tokens.len(), 1, "input {:?}", text);
        match &tokens[0].token {
            Token::Float(t) => {
                assert_eq!(t, text);
                let value: f64 = t.parse().unwrap();
                assert!((value - expect).abs() <= 1e-12 * expect.abs());
            },
            other => panic!("expected a float token for {:?}, got {:?}", text, other),
        }
    }
}

#[test]
fn float_rule_before_integer_rule() {
    // "3.5" must come out as one float, never integer 3 and a remainder
    let tokens = tokenize("3.5").unwrap();
    assert_eq!(tokens.len(), 1);
    assert!(matches!(&tokens[0].token, Token::Float(t) if t == "3.5"));
    // a digit run with no dot or exponent is still an integer
    let tokens = tokenize("35").unwrap();
    assert_eq!(tokens.len(), 1);
    assert!(matches!(&tokens[0].token, Token::Int(_)));
}

#[test]
fn keyword_versus_identifier() {
    let tokens = tokenize("if").unwrap();
    assert_eq!(tokens.len(), 1);
    assert!(matches!(&tokens[0].token, Token::Keyword(t) if t == "if"));
    let tokens = tokenize("ifx").unwrap();
    assert_eq!(tokens.len(), 1);
    assert!(matches!(&tokens[0].token, Token::Identifier(t) if t == "ifx"));
    let tokens = tokenize("fn").unwrap();
    assert_eq!(tokens.len(), 1);
    assert!(matches!(&tokens[0].token, Token::Keyword(t) if t == "fn"));
}

#[test]
fn scenario_mixed_input() {
    let input = "123(  \t\n \"test\" ){ x = 1 }";
    let tokens = tokenize(input).unwrap();
    assert_eq!(tokens.len(), 15);
    assert!(matches!(&tokens[0].token, Token::Int(b) if b.digits == vec![1, 2, 3] && !b.negative));
    assert!(matches!(&tokens[1].token, Token::OpenParen));
    assert!(matches!(&tokens[2].token, Token::Whitespace(t) if t == "  \t\n "));
    assert!(matches!(&tokens[3].token, Token::Str(t) if t == "\"test\""));
    assert!(matches!(&tokens[4].token, Token::Whitespace(t) if t == " "));
    assert!(matches!(&tokens[5].token, Token::CloseParen));
    assert!(matches!(&tokens[6].token, Token::OpenBrace));
    assert!(matches!(&tokens[7].token, Token::Whitespace(t) if t == " "));
    assert!(matches!(&tokens[8].token, Token::Identifier(t) if t == "x"));
    assert!(matches!(&tokens[9].token, Token::Whitespace(t) if t == " "));
    assert!(matches!(&tokens[10].token, Token::Operator(t) if t == "="));
    assert!(matches!(&tokens[11].token, Token::Whitespace(t) if t == " "));
    assert!(matches!(&tokens[12].token, Token::Int(b) if b.digits == vec![1] && !b.negative));
    assert!(matches!(&tokens[13].token, Token::Whitespace(t) if t == " "));
    assert!(matches!(&tokens[14].token, Token::CloseBrace));
    spans_are_contiguous(&tokens, input.len());
    assert_eq!(reconstruct(&tokens, input), input);
}

#[test]
fn round_trip_reconstructs_input() {
    for input in [
        "123(  \t\n \"test\" ){ x = 1 } 0.3 0.5 3.5",
        "if fn ifx [ ] = \"\"",
        "  \t ",
        "-12+34",
        "a1b2c3",
    ] {
        let tokens = tokenize(input).unwrap();
        spans_are_contiguous(&tokens, input.len());
        assert_eq!(reconstruct(&tokens, input), input);
    }
}

#[test]
fn brackets_and_operator() {
    let tokens = tokenize("[x]=[y]").unwrap();
    assert_eq!(tokens.len(), 7);
    assert!(matches!(&tokens[0].token, Token::OpenBracket));
    assert!(matches!(&tokens[1].token, Token::Identifier(t) if t == "x"));
    assert!(matches!(&tokens[2].token, Token::CloseBracket));
    assert!(matches!(&tokens[3].token, Token::Operator(t) if t == "="));
    assert!(matches!(&tokens[4].token, Token::OpenBracket));
    assert!(matches!(&tokens[5].token, Token::Identifier(t) if t == "y"));
    assert!(matches!(&tokens[6].token, Token::CloseBracket));
}

#[test]
fn string_literal_keeps_quotes_verbatim() {
    let tokens = tokenize("\"a b\\c\"").unwrap();
    assert_eq!(tokens.len(), 1);
    // raw text, quotes retained, no escape processing
    assert!(matches!(&tokens[0].token, Token::Str(t) if t == "\"a b\\c\""));
}

#[test]
fn whitespace_covers_all_ascii_whitespace() {
    // space, tab, line feed, vertical tab, form feed, carriage return
    let input = "a \t\n\u{000B}\u{000C}\rb";
    let tokens = tokenize(input).unwrap();
    assert_eq!(tokens.len(), 3);
    assert!(matches!(&tokens[0].token, Token::Identifier(t) if t == "a"));
    assert!(matches!(&tokens[1].token, Token::Whitespace(t) if t == " \t\n\u{000B}\u{000C}\r"));
    assert!(matches!(&tokens[2].token, Token::Identifier(t) if t == "b"));
    spans_are_contiguous(&tokens, input.len());
    assert_eq!(reconstruct(&tokens, input), input);
}

#[test]
fn empty_input_is_success() {
    let tokens = tokenize("").unwrap();
    assert!(tokens.is_empty());
}

#[test]
fn unrecognized_input_is_reported_with_position() {
    assert_eq!(
        tokenize("@").unwrap_err(),
        LexError::UnrecognizedInput { position: 0 }
    );
    assert_eq!(
        tokenize("ab@cd").unwrap_err(),
        LexError::UnrecognizedInput { position: 2 }
    );
    assert_eq!(
        tokenize("123 ?").unwrap_err(),
        LexError::UnrecognizedInput { position: 4 }
    );
    // an unterminated string literal matches no rule at the quote
    assert_eq!(
        tokenize("\"abc").unwrap_err(),
        LexError::UnrecognizedInput { position: 0 }
    );
    // a lone dot is no float: the fraction needs a digit
    assert_eq!(
        tokenize(".").unwrap_err(),
        LexError::UnrecognizedInput { position: 0 }
    );
    // "3." is a float, the second dot matches nothing
    assert_eq!(
        tokenize("3..").unwrap_err(),
        LexError::UnrecognizedInput { position: 2 }
    );
}

#[test]
fn leading_zero_fraction_is_one_float() {
    let tokens = tokenize("0.3").unwrap();
    assert_eq!(tokens.len(), 1);
    assert!(matches!(&tokens[0].token, Token::Float(t) if t == "0.3"));
}

#[test]
fn exponent_needs_digits() {
    // "3e" is no float: integer 3, then identifier e
    let tokens = tokenize("3e").unwrap();
    assert_eq!(tokens.len(), 2);
    assert!(matches!(&tokens[0].token, Token::Int(b) if b.digits == vec![3]));
    assert!(matches!(&tokens[1].token, Token::Identifier(t) if t == "e"));
    // a bare word starting with e is an identifier, not a float fragment
    let tokens = tokenize("e5").unwrap();
    assert_eq!(tokens.len(), 1);
    assert!(matches!(&tokens[0].token, Token::Identifier(t) if t == "e5"));
}

#[test]
fn next_token_takes_first_matching_rule() {
    let table = build_rules();
    let (token, len) = next_token(&table, "3.5)", 0).unwrap();
    assert_eq!(len, 3);
    assert!(matches!(&token, Token::Float(t) if t == "3.5"));
    let (token, len) = next_token(&table, "3.5)", 3).unwrap();
    assert_eq!(len, 1);
    assert!(matches!(&token, Token::CloseParen));
    assert!(next_token(&table, "3.5)", 4).is_none());
}

#[test]
fn tokenize_with_uses_the_given_table() {
    let table = build_rules();
    let tokens = tokenize_with(&table, "if x").unwrap();
    assert_eq!(tokens.len(), 3);
    assert!(matches!(&tokens[0].token, Token::Keyword(t) if t == "if"));
    assert!(matches!(&tokens[2].token, Token::Identifier(t) if t == "x"));
}

#[test]
fn build_rules_is_deterministic() {
    let a = build_rules();
    let b = build_rules();
    assert_eq!(a.rules, b.rules);
    assert_eq!(a.keywords, b.keywords);
}
