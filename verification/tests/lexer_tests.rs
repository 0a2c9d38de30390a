use kaleido::lexer::{Token, TokenIter};

#[test]
fn test_get_token_whitespace() {
    assert_eq!(TokenIter::new(" ").next(), None);
}

#[test]
fn test_get_toke_eof() {
    assert_eq!(TokenIter::new("").next(), None);
}

#[test]
fn test_get_token_def() {
    assert_eq!(TokenIter::new("def").next(), Some(Token::Def));
}

#[test]
fn test_get_token_extern() {
    assert_eq!(TokenIter::new("extern").next(), Some(Token::Extern));
}

#[test]
fn test_get_token_num() {
    assert_eq!(
        TokenIter::new("1.23").next(),
        Some(Token::Number("1.23".to_string()))
    );
}

#[test]
fn test_get_token_identifier() {
    assert_eq!(
        TokenIter::new("a").next(),
        Some(Token::Identifier("a".to_string()))
    );
}

#[test]
fn test_get_token_operator() {
    assert_eq!(TokenIter::new("+").next(), Some(Token::Operator('+')));
}

#[test]
fn test_get_token_remainder() {
    let mut tokens = TokenIter::new("def( hello");

    assert_eq!(tokens.next(), Some(Token::Def));
    assert_eq!(tokens.remainder(), "( hello");
}

#[test]
fn test_get_token_multiple() {
    let mut tokens = TokenIter::new("def( hello");

    assert_eq!(tokens.next(), Some(Token::Def));
    assert_eq!(tokens.next(), Some(Token::Operator('(')));
    assert_eq!(tokens.next(), Some(Token::Identifier("hello".to_string())));
}

#[test]
fn test_token_iter() {
    let mut token_iter = TokenIter::new("def( hello");

    assert_eq!(token_iter.next(), Some(Token::Def));
    assert_eq!(token_iter.next(), Some(Token::Operator('(')));
    assert_eq!(token_iter.next(), Some(Token::Identifier("hello".to_string())));
    assert_eq!(token_iter.next(), None);
}

fn all_tokens(src: &str) -> Vec<Token> {
    let mut it = TokenIter::new(src);
    let mut out: Vec<Token> = Vec::new();
    while let Some(t) = it.next() {
        out.push(t);
    }
    out
}

#[test]
fn test_whitespace_never_changes_tokens() {
    assert_eq!(all_tokens("  \t x +\t y  "), all_tokens("x+y"));
}

#[test]
fn test_comment_never_changes_tokens() {
    assert_eq!(all_tokens("# heading\nx+y # trailing"), all_tokens("x+y"));
    assert_eq!(all_tokens("x # all of this is discarded"), all_tokens("x"));
}

#[test]
fn test_number_keeps_malformed_literal_text() {
    assert_eq!(
        all_tokens("1.2.3"),
        vec![Token::Number("1.2.3".to_string())]
    );
}

#[test]
fn test_number_stops_before_operator() {
    assert_eq!(
        all_tokens("4.0+x"),
        vec![
            Token::Number("4.0".to_string()),
            Token::Operator('+'),
            Token::Identifier("x".to_string()),
        ]
    );
}

#[test]
fn test_keyword_prefix_is_identifier() {
    assert_eq!(
        all_tokens("define"),
        vec![Token::Identifier("define".to_string())]
    );
}

#[test]
fn test_number_literal_parses_as_f64() {
    let toks = all_tokens("1.23");
    match &toks[0] {
        Token::Number(text) => assert_eq!(text.parse::<f64>().unwrap(), 1.23_f64),
        other => panic!("expected a number token, got {:?}", other),
    }
}
