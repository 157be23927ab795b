use patmatch::Parser;

fn parse(pattern: &str) -> patmatch::Expr {
    Parser::from(pattern).unwrap().parse().unwrap()
}

#[test]
fn alphabet() {
    let regex = "abcd";
    let mut parser = Parser::from(&regex).unwrap();

    let expr = parser.parse().unwrap();
    assert!(patmatch::eval::matches(&expr, "abcd"));
}

#[test]
fn star() {
    let regex = "a*";
    let mut parser = Parser::from(&regex).unwrap();

    let expr = parser.parse().unwrap();
    assert!(patmatch::eval::matches(&expr, "aaaa"));
}

#[test]
fn plus() {
    let regex = "a + b";
    let mut parser = Parser::from(&regex).unwrap();

    let expr = parser.parse().unwrap();
    assert!(patmatch::eval::matches(&expr, "a"));
}

#[test]
fn prefix_is_not_a_match() {
    assert!(!patmatch::eval::matches(&parse("abcd"), "abc"));
}

#[test]
fn star_matches_empty() {
    assert!(patmatch::eval::matches(&parse("a*"), ""));
}

#[test]
fn right_alternative_succeeds() {
    assert!(patmatch::eval::matches(&parse("a + b"), "b"));
}

#[test]
fn neither_alternative_fails() {
    assert!(!patmatch::eval::matches(&parse("a + b"), "c"));
}

#[test]
fn concatenation_joins_parts() {
    assert!(patmatch::eval::matches(&parse("ab.cd"), "abcd"));
    assert!(!patmatch::eval::matches(&parse("ab.cd"), "abce"));
    assert!(!patmatch::eval::matches(&parse("ab.cd"), "ab"));
}

#[test]
fn star_backtracks_for_concatenation() {
    assert!(patmatch::eval::matches(&parse("a*.a"), "aaaa"));
    assert!(patmatch::eval::matches(&parse("a*.b"), "aaab"));
    assert!(!patmatch::eval::matches(&parse("a*.b"), "aaaa"));
}

#[test]
fn star_of_group_repeats_group() {
    assert!(patmatch::eval::matches(&parse("(a.b)*"), "abab"));
    assert!(patmatch::eval::matches(&parse("(a.b)*"), ""));
    assert!(!patmatch::eval::matches(&parse("(a.b)*"), "aba"));
}

#[test]
fn star_of_alternation() {
    assert!(patmatch::eval::matches(&parse("(a + b)*"), "abba"));
    assert!(!patmatch::eval::matches(&parse("(a + b)*"), "abca"));
}

#[test]
fn whole_match_consumes_everything() {
    assert!(patmatch::eval::matches(&parse("(1 + 2).(3 + 4)*"), "1"));
    assert!(patmatch::eval::matches(&parse("(1 + 2).(3 + 4)*"), "2343"));
    assert!(!patmatch::eval::matches(&parse("(1 + 2).(3 + 4)*"), "23435"));
}

#[test]
fn empty_subject_needs_empty_language() {
    assert!(!patmatch::eval::matches(&parse("a"), ""));
    assert!(patmatch::eval::matches(&parse("a*.b*"), ""));
}
