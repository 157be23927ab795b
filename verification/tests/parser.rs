use patmatch::{Expr, LexError, ParseError, Parser};

#[test]
fn alphabet_expr() {
    let mut parser = Parser::from("aabb").unwrap();
    assert_eq!(parser.parse().unwrap(), Expr::Alphabet("aabb".to_string()));
}

#[test]
fn plus_expr() {
    let mut parser = Parser::from("69 + 23 + 79 + 59").unwrap();
    assert_eq!(
        parser.parse().unwrap(),
        Expr::Plus(
            Box::new(Expr::Alphabet("69".to_string())),
            Box::new(Expr::Plus(
                Box::new(Expr::Alphabet("23".to_string())),
                Box::new(Expr::Plus(
                    Box::new(Expr::Alphabet("79".to_string())),
                    Box::new(Expr::Alphabet("59".to_string()))
                )),
            )),
        )
    );
}

#[test]
fn star_expr() {
    let mut parser = Parser::from("aabb*").unwrap();
    assert_eq!(
        parser.parse().unwrap(),
        Expr::Star(Box::new(Expr::Alphabet("aabb".to_string())))
    );
}

#[test]
fn dot_expr() {
    let mut parser = Parser::from("a.b.c.d").unwrap();
    assert_eq!(
        parser.parse().unwrap(),
        Expr::Dot(
            Box::new(Expr::Alphabet("a".to_string())),
            Box::new(Expr::Dot(
                Box::new(Expr::Alphabet("b".to_string())),
                Box::new(Expr::Dot(
                    Box::new(Expr::Alphabet("c".to_string())),
                    Box::new(Expr::Alphabet("d".to_string()))
                )),
            )),
        )
    );
}

#[test]
fn paren_expr() {
    let mut parser = Parser::from("(a + b).(c + d)").unwrap();
    assert_eq!(
        parser.parse().unwrap(),
        Expr::Dot(
            Box::new(Expr::Plus(
                Box::new(Expr::Alphabet("a".to_string())),
                Box::new(Expr::Alphabet("b".to_string()))
            )),
            Box::new(Expr::Plus(
                Box::new(Expr::Alphabet("c".to_string())),
                Box::new(Expr::Alphabet("d".to_string()))
            )),
        )
    );
}

#[test]
fn parse_expr() {
    let mut parser = Parser::from("(1 + 2).(3 + 4)*").unwrap();
    assert_eq!(
        parser.parse().unwrap(),
        Expr::Dot(
            Box::new(Expr::Plus(
                Box::new(Expr::Alphabet("1".to_string())),
                Box::new(Expr::Alphabet("2".to_string()))
            )),
            Box::new(Expr::Star(Box::new(Expr::Plus(
                Box::new(Expr::Alphabet("3".to_string())),
                Box::new(Expr::Alphabet("4".to_string()))
            )))),
        )
    );
}

#[test]
fn parse_expr2() {
    let mut parser = Parser::from("a* + (3 + 4*)").unwrap();
    assert_eq!(
        parser.parse().unwrap(),
        Expr::Plus(
            Box::new(Expr::Star(Box::new(Expr::Alphabet("a".to_string())))),
            Box::new(Expr::Plus(
                Box::new(Expr::Alphabet("3".to_string())),
                Box::new(Expr::Star(Box::new(Expr::Alphabet("4".to_string())))),
            )),
        )
    );
}

#[test]
fn double_star_wraps_twice() {
    let mut parser = Parser::from("a**").unwrap();
    assert_eq!(
        parser.parse().unwrap(),
        Expr::Star(Box::new(Expr::Star(Box::new(Expr::Alphabet(
            "a".to_string()
        )))))
    );
}

#[test]
fn unmatched_paren_fails() {
    let mut parser = Parser::from("(a").unwrap();
    assert_eq!(parser.parse(), Err(ParseError::ExpectedClosingParen));
}

#[test]
fn unmatched_paren_around_group_fails() {
    let mut parser = Parser::from("((a + b).c").unwrap();
    assert_eq!(parser.parse(), Err(ParseError::ExpectedClosingParen));
}

#[test]
fn empty_pattern_fails() {
    let mut parser = Parser::from("").unwrap();
    assert_eq!(parser.parse(), Err(ParseError::ExpectedExpression));
}

#[test]
fn operator_needs_primary() {
    let mut parser = Parser::from("+a").unwrap();
    assert_eq!(parser.parse(), Err(ParseError::ExpectedExpression));
}

#[test]
fn dangling_operand_is_unexpected() {
    let mut parser = Parser::from("a b").unwrap();
    assert_eq!(parser.parse(), Err(ParseError::UnexpectedToken));
}

#[test]
fn lex_failure_is_wrapped() {
    assert_eq!(
        Parser::from("a + B").err().unwrap(),
        ParseError::Lexer(LexError::UnknownCharacter('B', 4))
    );
}
