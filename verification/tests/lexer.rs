use kmemsnoop::lexer::{Lexer, Token};

fn all_tokens(expr: &str) -> (Vec<Token>, bool) {
    let mut lexer = Lexer::new(expr.to_string());
    let mut tokens = Vec::new();
    while let Some(token) = lexer.next_token() {
        tokens.push(token);
    }
    (tokens, lexer.at_end())
}

#[test]
fn lexer_splits_members_and_operators() {
    let (tokens, at_end) = all_tokens("*mm->owner.pid");
    assert!(at_end);
    assert_eq!(
        tokens,
        vec![
            Token::Valof,
            Token::Member("mm".to_string()),
            Token::Deref,
            Token::Member("owner".to_string()),
            Token::Access,
            Token::Member("pid".to_string()),
        ]
    );
}

#[test]
fn lexer_empty_input_has_no_token() {
    let (tokens, at_end) = all_tokens("");
    assert!(tokens.is_empty());
    assert!(at_end);
}

#[test]
fn lexer_stops_at_dash_without_arrow() {
    let (tokens, at_end) = all_tokens("a-b");
    assert_eq!(tokens, vec![Token::Member("a".to_string())]);
    assert!(!at_end);
    let (tokens, at_end) = all_tokens("a-");
    assert_eq!(tokens, vec![Token::Member("a".to_string())]);
    assert!(!at_end);
}

#[test]
fn lexer_member_runs_to_next_delimiter() {
    let (tokens, at_end) = all_tokens("a*b>c.d");
    assert!(at_end);
    assert_eq!(
        tokens,
        vec![
            Token::Member("a*b>c".to_string()),
            Token::Access,
            Token::Member("d".to_string()),
        ]
    );
}

#[test]
fn lexer_handles_names_beyond_ascii() {
    let (tokens, at_end) = all_tokens("né.ß");
    assert!(at_end);
    assert_eq!(
        tokens,
        vec![
            Token::Member("né".to_string()),
            Token::Access,
            Token::Member("ß".to_string()),
        ]
    );
}
