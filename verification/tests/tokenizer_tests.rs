use wkt::tokenizer::Token;
use wkt::tokenizer::Tokens;

fn collect_tokens(text: &str) -> Vec<Token> {
    let mut tokens = Tokens::from_str(text);
    let mut out = Vec::new();
    while let Some(t) = tokens.next() {
        out.push(t);
    }
    out
}

#[test]
fn test_tokenizer_empty() {
    let test_str = "";
    let tokens = collect_tokens(test_str);
    assert_eq!(tokens, vec![]);
}

#[test]
fn test_tokenizer_1word() {
    let test_str = "hello";
    let tokens = collect_tokens(test_str);
    assert_eq!(tokens, vec![Token::Word("hello".to_string())]);
}

#[test]
fn test_tokenizer_2words() {
    let test_str = "hello world";
    let tokens = collect_tokens(test_str);
    assert_eq!(
        tokens,
        vec![
            Token::Word("hello".to_string()),
            Token::Word("world".to_string()),
        ]
    );
}

#[test]
fn test_tokenizer_1number() {
    let test_str = "4.2";
    let tokens = collect_tokens(test_str);
    assert_eq!(tokens, vec![Token::Number("4.2".to_string())]);
    match &tokens[0] {
        Token::Number(lit) => assert_eq!(4.2_f64, lit.parse::<f64>().unwrap()),
        _ => unreachable!(),
    }
}

#[test]
fn test_tokenizer_1number_plus() {
    let test_str = "+4.2";
    let tokens = collect_tokens(test_str);
    assert_eq!(tokens, vec![Token::Number("4.2".to_string())]);
    match &tokens[0] {
        Token::Number(lit) => assert_eq!(4.2_f64, lit.parse::<f64>().unwrap()),
        _ => unreachable!(),
    }
}

#[test]
fn test_tokenizer_invalid_number() {
    let test_str = "4.2p";
    let tokens = collect_tokens(test_str);
    assert_eq!(tokens, vec![]);
}

#[test]
fn test_tokenizer_2numbers() {
    let test_str = ".4 -2";
    let tokens = collect_tokens(test_str);
    assert_eq!(
        tokens,
        vec![
            Token::Number(".4".to_string()),
            Token::Number("-2".to_string()),
        ]
    );
    match &tokens[0] {
        Token::Number(lit) => assert_eq!(0.4_f64, lit.parse::<f64>().unwrap()),
        _ => unreachable!(),
    }
    match &tokens[1] {
        Token::Number(lit) => assert_eq!(-2.0_f64, lit.parse::<f64>().unwrap()),
        _ => unreachable!(),
    }
}

#[test]
fn test_no_stack_overflow() {
    let check = |c: &str, count: usize, expected: usize| {
        let test_str = c.repeat(count);
        let tokens = collect_tokens(&test_str);
        assert_eq!(expected, tokens.len());
    };

    let count = 100_000;
    check("+", count, 0);
    check(" ", count, 0);
    check("A", count, 1);
    check("1", count, 1);
    check("(", count, count);
    check(")", count, count);
    check(",", count, count);
}

#[test]
fn test_tokenizer_point() {
    let test_str = "POINT (10 -20)";
    let tokens = collect_tokens(test_str);
    assert_eq!(
        tokens,
        vec![
            Token::Word("POINT".to_string()),
            Token::ParenOpen,
            Token::Number("10".to_string()),
            Token::Number("-20".to_string()),
            Token::ParenClose,
        ]
    );
}

#[test]
fn test_tokenizer_special_numbers() {
    let tokens = collect_tokens("-inf NaN 2e3");
    assert_eq!(
        tokens,
        vec![
            Token::Number("-inf".to_string()),
            Token::Word("NaN".to_string()),
            Token::Number("2e3".to_string()),
        ]
    );
    match &tokens[2] {
        Token::Number(lit) => assert_eq!(2000.0_f64, lit.parse::<f64>().unwrap()),
        _ => unreachable!(),
    }
}

#[test]
fn test_tokenizer_nul_terminates() {
    let tokens = collect_tokens("hello\0world");
    assert_eq!(tokens, vec![Token::Word("hello".to_string())]);
}

#[test]
fn test_tokenizer_malformed_number_ends_stream() {
    let tokens = collect_tokens("1.2.3 5");
    assert_eq!(tokens, vec![]);
}

#[test]
fn test_tokenizer_number_roundtrip() {
    let tokens = collect_tokens("10.25 -3.5 .4");
    assert_eq!(3, tokens.len());
    for token in &tokens {
        let lit = match token {
            Token::Number(lit) => lit,
            _ => unreachable!(),
        };
        let value: f64 = lit.parse().unwrap();
        let formatted = format!("{}", value);
        let again = collect_tokens(&formatted);
        assert_eq!(1, again.len());
        let lit2 = match &again[0] {
            Token::Number(lit2) => lit2,
            _ => unreachable!(),
        };
        assert_eq!(value, lit2.parse::<f64>().unwrap());
    }
}
