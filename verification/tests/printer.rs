use patmatch::{Expr, Parser};

fn parse(pattern: &str) -> Expr {
    Parser::from(pattern).unwrap().parse().unwrap()
}

#[test]
fn prints_canonical_form() {
    assert_eq!(parse("aabb").to_pattern(), "aabb");
    assert_eq!(parse("a + b").to_pattern(), "(a+b)");
    assert_eq!(parse("a.b").to_pattern(), "(a.b)");
    assert_eq!(parse("ab*").to_pattern(), "(ab*)");
}

#[test]
fn reparse_print_restores_tree() {
    let patterns = ["aabb", "69 + 23 + 79 + 59", "a.b.c.d", "(a + b).(c + d)", "(1 + 2).(3 + 4)*",
        "a* + (3 + 4*)", "a**"];
    for pattern in patterns {
        let expr = parse(pattern);
        let reparsed = parse(&expr.to_pattern());
        assert_eq!(expr, reparsed);
    }
}

#[test]
fn reparse_print_matches_same_subjects() {
    let expr = parse("(a + b).(c + d)*");
    let reparsed = parse(&expr.to_pattern());
    for subject in ["a", "ac", "bdcd", "", "ab", "acdc"] {
        assert_eq!(patmatch::eval::matches(&expr, subject), patmatch::eval::matches(&reparsed, subject));
    }
}
