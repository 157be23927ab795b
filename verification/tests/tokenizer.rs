use patmatch::{tokenize, LexError, Token, TokenKind};

#[test]
fn tokenizeer() {
    let text: &str = "(1 + 2).(3 + 4)*(1.3)";

    assert_eq!(
        tokenize(&text),
        Ok(vec![
            Token::new(TokenKind::LeftParen, (0, 0)),
            Token::new(TokenKind::Alphabet("1".to_string()), (0, 1)),
            Token::new(TokenKind::Plus, (0, 3)),
            Token::new(TokenKind::Alphabet("2".to_string()), (0, 5)),
            Token::new(TokenKind::RightParen, (0, 6)),
            Token::new(TokenKind::Dot, (0, 7)),
            Token::new(TokenKind::LeftParen, (0, 8)),
            Token::new(TokenKind::Alphabet("3".to_string()), (0, 9)),
            Token::new(TokenKind::Plus, (0, 11)),
            Token::new(TokenKind::Alphabet("4".to_string()), (0, 13)),
            Token::new(TokenKind::RightParen, (0, 14)),
            Token::new(TokenKind::Star, (0, 15)),
            Token::new(TokenKind::LeftParen, (0, 16)),
            Token::new(TokenKind::Alphabet("1".to_string()), (0, 17)),
            Token::new(TokenKind::Dot, (0, 18)),
            Token::new(TokenKind::Alphabet("3".to_string()), (0, 19)),
            Token::new(TokenKind::RightParen, (0, 20)),
        ])
    );
}

#[test]
fn tokenizer() {
    let text = "(1 + 2).(3 + 4)*".to_string();

    assert_eq!(
        tokenize(&text),
        Ok(vec![
            Token::new(TokenKind::LeftParen, (0, 0)),
            Token::new(TokenKind::Alphabet("1".to_string()), (0, 1)),
            Token::new(TokenKind::Plus, (0, 3)),
            Token::new(TokenKind::Alphabet("2".to_string()), (0, 5)),
            Token::new(TokenKind::RightParen, (0, 6)),
            Token::new(TokenKind::Dot, (0, 7)),
            Token::new(TokenKind::LeftParen, (0, 8)),
            Token::new(TokenKind::Alphabet("3".to_string()), (0, 9)),
            Token::new(TokenKind::Plus, (0, 11)),
            Token::new(TokenKind::Alphabet("4".to_string()), (0, 13)),
            Token::new(TokenKind::RightParen, (0, 14)),
            Token::new(TokenKind::Star, (0, 15)),
        ])
    );
}

#[test]
fn uppercase_is_unknown() {
    assert_eq!(tokenize("A"), Err(LexError::UnknownCharacter('A', 0)));
}

#[test]
fn hash_is_unknown() {
    assert_eq!(tokenize("#"), Err(LexError::UnknownCharacter('#', 0)));
}

#[test]
fn unknown_character_position() {
    assert_eq!(tokenize("ab #cd"), Err(LexError::UnknownCharacter('#', 3)));
}

#[test]
fn whitespace_contributes_no_token() {
    assert_eq!(
        tokenize("  a \t b"),
        Ok(vec![
            Token::new(TokenKind::Alphabet("a".to_string()), (0, 2)),
            Token::new(TokenKind::Alphabet("b".to_string()), (0, 6)),
        ])
    );
}

#[test]
fn maximal_alphanumeric_run() {
    assert_eq!(
        tokenize("a1b2*"),
        Ok(vec![
            Token::new(TokenKind::Alphabet("a1b2".to_string()), (0, 0)),
            Token::new(TokenKind::Star, (0, 4)),
        ])
    );
}

#[test]
fn empty_pattern_scans_to_nothing() {
    assert_eq!(tokenize(""), Ok(vec![]));
}
