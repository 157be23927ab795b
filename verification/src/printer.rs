use vstd::prelude::*;

use crate::expr::{is_pattern_char, wf_expr, Expr, ExprModel};
use crate::parser::{kind_seq, spec_parse, spec_parse_primary, spec_parse_tail, ParseError};
use crate::tokenizer::{
    is_operator_char, lemma_scan_operator, lemma_scan_run, operator_kind, spec_tokenize,
    spec_tokenize_from, KindModel, LexError, TokenModel,
};

verus! {

/// The canonical textual form of a pattern: a literal stands bare, and every
/// composite node is wrapped in its own parentheses, so that the form is
/// unambiguous.
pub open spec fn spec_print(e: ExprModel) -> Seq<char>
    decreases e,
{
    match e {
        ExprModel::Alphabet(text) => text,
        ExprModel::Star(inner) => seq!['('] + spec_print(*inner) + seq!['*', ')'],
        ExprModel::Plus(lhs, rhs) => seq!['('] + spec_print(*lhs) + seq!['+'] + spec_print(*rhs)
            + seq![')'],
        ExprModel::Dot(lhs, rhs) => seq!['('] + spec_print(*lhs) + seq!['.'] + spec_print(*rhs)
            + seq![')'],
    }
}

/// The token kinds that scanning the canonical textual form yields.
pub open spec fn print_kinds(e: ExprModel) -> Seq<KindModel>
    decreases e,
{
    match e {
        ExprModel::Alphabet(text) => seq![KindModel::Alphabet(text)],
        ExprModel::Star(inner) => seq![KindModel::LeftParen] + print_kinds(*inner) + seq![
            KindModel::Star,
            KindModel::RightParen,
        ],
        ExprModel::Plus(lhs, rhs) => seq![KindModel::LeftParen] + print_kinds(*lhs) + seq![
            KindModel::Plus,
        ] + print_kinds(*rhs) + seq![KindModel::RightParen],
        ExprModel::Dot(lhs, rhs) => seq![KindModel::LeftParen] + print_kinds(*lhs) + seq![
            KindModel::Dot,
        ] + print_kinds(*rhs) + seq![KindModel::RightParen],
    }
}

impl Expr {
    /// Renders the pattern in its canonical textual form: re-parsing that
    /// form gives this very tree back (`lemma_reparse_print`).
    pub fn to_pattern(&self) -> (r: String)
        ensures
            r@ == spec_print(self@),
        decreases self,
    {
        match self {
            Expr::Alphabet(text) => text.clone(),
            Expr::Star(inner) => {
                let mut out = String::from_str("(");
                let body = inner.to_pattern();
                out.append(body.as_str());
                out.append("*)");
                proof {
                    reveal_strlit("(");
                    reveal_strlit("*)");
                    assert(out@ =~= spec_print(self@));
                }
                out
            },
            Expr::Plus(lhs, rhs) => {
                let mut out = String::from_str("(");
                let left = lhs.to_pattern();
                out.append(left.as_str());
                out.append("+");
                let right = rhs.to_pattern();
                out.append(right.as_str());
                out.append(")");
                proof {
                    reveal_strlit("(");
                    reveal_strlit("+");
                    reveal_strlit(")");
                    assert(out@ =~= spec_print(self@));
                }
                out
            },
            Expr::Dot(lhs, rhs) => {
                let mut out = String::from_str("(");
                let left = lhs.to_pattern();
                out.append(left.as_str());
                out.append(".");
                let right = rhs.to_pattern();
                out.append(right.as_str());
                out.append(")");
                proof {
                    reveal_strlit("(");
                    reveal_strlit(".");
                    reveal_strlit(")");
                    assert(out@ =~= spec_print(self@));
                }
                out
            },
        }
    }
}

/// A printed pattern, put in front of any tokens whatsoever, parses as one
/// primary: exactly the tree it was printed from, consuming exactly its own
/// tokens.
#[verifier::rlimit(100)]
#[verifier::spinoff_prover]
pub proof fn lemma_print_primary(e: ExprModel, suffix: Seq<KindModel>)
    ensures
        spec_parse_primary(print_kinds(e) + suffix) == (
            Ok::<ExprModel, ParseError>(e),
            print_kinds(e).len() as nat,
        ),
    decreases e,
{
    let pk = print_kinds(e);
    let full = pk + suffix;
    match e {
        ExprModel::Alphabet(text) => {
            assert(full[0] == KindModel::Alphabet(text));
        },
        ExprModel::Star(inner) => {
            let pi = print_kinds(*inner);
            let t1 = seq![KindModel::Star, KindModel::RightParen] + suffix;
            let t2 = seq![KindModel::RightParen] + suffix;
            assert(full[0] == KindModel::LeftParen);
            assert(full.skip(1) =~= pi + t1);
            lemma_print_primary(*inner, t1);
            assert(full.skip(1).skip(pi.len() as int) =~= t1);
            assert(t1[0] == KindModel::Star);
            assert(t1.skip(1) =~= t2);
            assert(t2[0] == KindModel::RightParen);
            assert(spec_parse_tail(e, t2) == (Ok::<ExprModel, ParseError>(e), 0nat));
            assert(spec_parse_tail(*inner, t1) == (Ok::<ExprModel, ParseError>(e), 1nat));
            assert(spec_parse(full.skip(1)) == (
                Ok::<ExprModel, ParseError>(e),
                (pi.len() + 1) as nat,
            ));
            assert(full.skip(1 + (pi.len() + 1) as int) =~= t2);
        },
        ExprModel::Plus(lhs, rhs) => {
            let pl = print_kinds(*lhs);
            let pr = print_kinds(*rhs);
            let after_l = seq![KindModel::Plus] + pr + seq![KindModel::RightParen] + suffix;
            assert(full[0] == KindModel::LeftParen);
            assert(full.skip(1) =~= pl + after_l);
            lemma_print_primary(*lhs, after_l);
            assert(full.skip(1).skip(pl.len() as int) =~= after_l);
            assert(after_l[0] == KindModel::Plus);
            assert(after_l.skip(1) =~= pr + (seq![KindModel::RightParen] + suffix));
            let t2 = seq![KindModel::RightParen] + suffix;
            lemma_print_primary(*rhs, t2);
            assert(after_l.skip(1).skip(pr.len() as int) =~= t2);
            assert(t2[0] == KindModel::RightParen);
            assert(spec_parse_tail(*rhs, t2) == (Ok::<ExprModel, ParseError>(*rhs), 0nat));
            assert(spec_parse(after_l.skip(1)) == (
                Ok::<ExprModel, ParseError>(*rhs),
                pr.len() as nat,
            ));
            assert(spec_parse_tail(*lhs, after_l) == (
                Ok::<ExprModel, ParseError>(e),
                (1 + pr.len()) as nat,
            ));
            assert(spec_parse(full.skip(1)) == (
                Ok::<ExprModel, ParseError>(e),
                (pl.len() + 1 + pr.len()) as nat,
            ));
            assert(full.skip(1 + (pl.len() + 1 + pr.len()) as int) =~= t2);
        },
        ExprModel::Dot(lhs, rhs) => {
            let pl = print_kinds(*lhs);
            let pr = print_kinds(*rhs);
            let after_l = seq![KindModel::Dot] + pr + seq![KindModel::RightParen] + suffix;
            assert(full[0] == KindModel::LeftParen);
            assert(full.skip(1) =~= pl + after_l);
            lemma_print_primary(*lhs, after_l);
            assert(full.skip(1).skip(pl.len() as int) =~= after_l);
            assert(after_l[0] == KindModel::Dot);
            assert(after_l.skip(1) =~= pr + (seq![KindModel::RightParen] + suffix));
            let t2 = seq![KindModel::RightParen] + suffix;
            lemma_print_primary(*rhs, t2);
            assert(after_l.skip(1).skip(pr.len() as int) =~= t2);
            assert(t2[0] == KindModel::RightParen);
            assert(spec_parse_tail(*rhs, t2) == (Ok::<ExprModel, ParseError>(*rhs), 0nat));
            assert(spec_parse(after_l.skip(1)) == (
                Ok::<ExprModel, ParseError>(*rhs),
                pr.len() as nat,
            ));
            assert(spec_parse_tail(*lhs, after_l) == (
                Ok::<ExprModel, ParseError>(e),
                (1 + pr.len()) as nat,
            ));
            assert(spec_parse(full.skip(1)) == (
                Ok::<ExprModel, ParseError>(e),
                (pl.len() + 1 + pr.len()) as nat,
            ));
            assert(full.skip(1 + (pl.len() + 1 + pr.len()) as int) =~= t2);
        },
    }
}

/// What the scanner makes of a window of `s` that holds a printed
/// well-formed pattern, when no pattern character follows the window: the
/// pattern's own token kinds, and then whatever scanning the rest yields.
#[verifier::rlimit(100)]
#[verifier::spinoff_prover]
pub proof fn lemma_print_scans(e: ExprModel, s: Seq<char>, i: int)
    requires
        wf_expr(e),
        0 <= i,
        i + spec_print(e).len() <= s.len(),
        s.subrange(i, i + spec_print(e).len() as int) == spec_print(e),
        i + spec_print(e).len() == s.len() || !is_pattern_char(s[i + spec_print(e).len()]),
    ensures
        match spec_tokenize_from(s, i + spec_print(e).len() as int) {
            Ok(rest) => exists|head: Seq<TokenModel>|
                spec_tokenize_from(s, i) == Ok::<Seq<TokenModel>, LexError>(#[trigger] (head
                    + rest)) && kind_seq(head) == print_kinds(e),
            Err(er) => spec_tokenize_from(s, i) == Err::<Seq<TokenModel>, LexError>(er),
        },
    decreases e, 1int,
{
    match e {
        ExprModel::Alphabet(text) => {
            let m = i + text.len() as int;
            assert forall|k: int| i <= k < m implies is_pattern_char(#[trigger] s[k]) by {
                assert(s[k] == spec_print(e)[k - i]);
            }
            lemma_scan_run(s, i, m);
            let head = seq![
                TokenModel { kind: KindModel::Alphabet(s.subrange(i, m)), pos: (0, i as nat) },
            ];
            assert(kind_seq(head) =~= print_kinds(e));
            match spec_tokenize_from(s, m) {
                Ok(rest) => {
                    assert(spec_tokenize_from(s, i) == Ok::<Seq<TokenModel>, LexError>(head
                        + rest) && kind_seq(head) == print_kinds(e));
                },
                Err(_) => {},
            }
        },
        ExprModel::Star(inner) => {
            let pl = spec_print(*inner).len() as int;
            let end = i + pl + 3;
            assert(s[i] == '(' && s[i + 1 + pl] == '*' && s[i + 2 + pl] == ')') by {
                assert(s[i] == spec_print(e)[0]);
                assert(s[i + 1 + pl] == spec_print(e)[1 + pl]);
                assert(s[i + 2 + pl] == spec_print(e)[2 + pl]);
            }
            assert(s.subrange(i + 1, i + 1 + pl) =~= spec_print(*inner)) by {
                assert forall|k: int| 0 <= k < pl implies s.subrange(i + 1, i + 1 + pl)[k]
                    == spec_print(*inner)[k] by {
                    assert(s[i + 1 + k] == spec_print(e)[1 + k]);
                }
            }
            lemma_print_scans(*inner, s, i + 1);
            lemma_scan_operator(s, i);
            lemma_scan_operator(s, i + 1 + pl);
            lemma_scan_operator(s, i + 2 + pl);
            let lp = TokenModel { kind: KindModel::LeftParen, pos: (0, i as nat) };
            let st = TokenModel { kind: KindModel::Star, pos: (0, (i + 1 + pl) as nat) };
            let rp = TokenModel { kind: KindModel::RightParen, pos: (0, (i + 2 + pl) as nat) };
            match spec_tokenize_from(s, end) {
                Ok(rest) => {
                    assert(spec_tokenize_from(s, i + 2 + pl) == Ok::<Seq<TokenModel>, LexError>(
                        seq![rp] + rest,
                    ));
                    assert(spec_tokenize_from(s, i + 1 + pl) == Ok::<Seq<TokenModel>, LexError>(
                        seq![st] + (seq![rp] + rest),
                    ));
                    let head_i = choose|h: Seq<TokenModel>|
                        spec_tokenize_from(s, i + 1) == Ok::<Seq<TokenModel>, LexError>(h + (seq![
                            st,
                        ] + (seq![rp] + rest))) && kind_seq(h) == print_kinds(*inner);
                    assert(spec_tokenize_from(s, i) == Ok::<Seq<TokenModel>, LexError>(seq![lp]
                        + (head_i + (seq![st] + (seq![rp] + rest)))));
                    let head = seq![lp] + head_i + seq![st, rp];
                    assert(head + rest =~= seq![lp] + (head_i + (seq![st] + (seq![rp] + rest))));
                    assert(kind_seq(head) =~= print_kinds(e));
                    assert(spec_tokenize_from(s, i) == Ok::<Seq<TokenModel>, LexError>(head + rest)
                        && kind_seq(head) == print_kinds(e));
                },
                Err(er) => {
                    assert(spec_tokenize_from(s, i + 2 + pl) == Err::<Seq<TokenModel>, LexError>(
                        er,
                    ));
                    assert(spec_tokenize_from(s, i + 1 + pl) == Err::<Seq<TokenModel>, LexError>(
                        er,
                    ));
                    assert(spec_tokenize_from(s, i + 1) == Err::<Seq<TokenModel>, LexError>(er));
                    assert(spec_tokenize_from(s, i) == Err::<Seq<TokenModel>, LexError>(er));
                },
            }
        },
        ExprModel::Plus(lhs, rhs) => {
            lemma_print_scans_binary(e, *lhs, *rhs, '+', KindModel::Plus, s, i);
        },
        ExprModel::Dot(lhs, rhs) => {
            lemma_print_scans_binary(e, *lhs, *rhs, '.', KindModel::Dot, s, i);
        },
    }
}

/// The shared step of `lemma_print_scans` for the two binary constructors:
/// an opening parenthesis, the left side, the one operator character, the
/// right side, and the closing parenthesis.
#[verifier::rlimit(100)]
#[verifier::spinoff_prover]
proof fn lemma_print_scans_binary(
    e: ExprModel,
    l: ExprModel,
    r: ExprModel,
    opc: char,
    opk: KindModel,
    s: Seq<char>,
    i: int,
)
    requires
        wf_expr(l),
        wf_expr(r),
        e == ExprModel::Plus(Box::new(l), Box::new(r)) || e == ExprModel::Dot(
            Box::new(l),
            Box::new(r),
        ),
        spec_print(e) == seq!['('] + spec_print(l) + seq![opc] + spec_print(r) + seq![')'],
        print_kinds(e) == seq![KindModel::LeftParen] + print_kinds(l) + seq![opk] + print_kinds(r)
            + seq![KindModel::RightParen],
        is_operator_char(opc),
        operator_kind(opc) == opk,
        0 <= i,
        i + spec_print(e).len() <= s.len(),
        s.subrange(i, i + spec_print(e).len() as int) == spec_print(e),
        i + spec_print(e).len() == s.len() || !is_pattern_char(s[i + spec_print(e).len()]),
    ensures
        match spec_tokenize_from(s, i + spec_print(e).len() as int) {
            Ok(rest) => exists|head: Seq<TokenModel>|
                spec_tokenize_from(s, i) == Ok::<Seq<TokenModel>, LexError>(#[trigger] (head
                    + rest)) && kind_seq(head) == print_kinds(e),
            Err(er) => spec_tokenize_from(s, i) == Err::<Seq<TokenModel>, LexError>(er),
        },
    decreases e, 0int,
{
    let pll = spec_print(l).len() as int;
    let plr = spec_print(r).len() as int;
    let end = i + pll + plr + 3;
    assert(spec_print(e).len() == pll + plr + 3);
    assert(s[i] == '(' && s[i + 1 + pll] == opc && s[i + 2 + pll + plr] == ')') by {
        assert(s[i] == spec_print(e)[0]);
        assert(s[i + 1 + pll] == spec_print(e)[1 + pll]);
        assert(s[i + 2 + pll + plr] == spec_print(e)[2 + pll + plr]);
    }
    assert(!is_pattern_char(opc));
    assert(s.subrange(i + 1, i + 1 + pll) =~= spec_print(l)) by {
        assert forall|k: int| 0 <= k < pll implies s.subrange(i + 1, i + 1 + pll)[k]
            == spec_print(l)[k] by {
            assert(s[i + 1 + k] == spec_print(e)[1 + k]);
        }
    }
    assert(s.subrange(i + 2 + pll, i + 2 + pll + plr) =~= spec_print(r)) by {
        assert forall|k: int| 0 <= k < plr implies s.subrange(i + 2 + pll, i + 2 + pll + plr)[k]
            == spec_print(r)[k] by {
            assert(s[i + 2 + pll + k] == spec_print(e)[2 + pll + k]);
        }
    }
    lemma_print_scans(l, s, i + 1);
    lemma_print_scans(r, s, i + 2 + pll);
    lemma_scan_operator(s, i);
    lemma_scan_operator(s, i + 1 + pll);
    lemma_scan_operator(s, i + 2 + pll + plr);
    let lp = TokenModel { kind: KindModel::LeftParen, pos: (0, i as nat) };
    let op = TokenModel { kind: opk, pos: (0, (i + 1 + pll) as nat) };
    let rp = TokenModel { kind: KindModel::RightParen, pos: (0, (i + 2 + pll + plr) as nat) };
    match spec_tokenize_from(s, end) {
        Ok(rest) => {
            assert(spec_tokenize_from(s, i + 2 + pll + plr) == Ok::<Seq<TokenModel>, LexError>(
                seq![rp] + rest,
            ));
            let head_r = choose|h: Seq<TokenModel>|
                spec_tokenize_from(s, i + 2 + pll) == Ok::<Seq<TokenModel>, LexError>(h + (seq![
                    rp,
                ] + rest)) && kind_seq(h) == print_kinds(r);
            assert(spec_tokenize_from(s, i + 1 + pll) == Ok::<Seq<TokenModel>, LexError>(seq![op]
                + (head_r + (seq![rp] + rest))));
            let head_l = choose|h: Seq<TokenModel>|
                spec_tokenize_from(s, i + 1) == Ok::<Seq<TokenModel>, LexError>(h + (seq![op]
                    + (head_r + (seq![rp] + rest)))) && kind_seq(h) == print_kinds(l);
            assert(spec_tokenize_from(s, i) == Ok::<Seq<TokenModel>, LexError>(seq![lp] + (head_l
                + (seq![op] + (head_r + (seq![rp] + rest))))));
            let head = seq![lp] + head_l + seq![op] + head_r + seq![rp];
            assert(head + rest =~= seq![lp] + (head_l + (seq![op] + (head_r + (seq![rp]
                + rest)))));
            assert(kind_seq(head) =~= print_kinds(e));
            assert(spec_tokenize_from(s, i) == Ok::<Seq<TokenModel>, LexError>(head + rest)
                && kind_seq(head) == print_kinds(e));
        },
        Err(er) => {
            assert(spec_tokenize_from(s, i + 2 + pll + plr) == Err::<Seq<TokenModel>, LexError>(
                er,
            ));
            assert(spec_tokenize_from(s, i + 2 + pll) == Err::<Seq<TokenModel>, LexError>(er));
            assert(spec_tokenize_from(s, i + 1 + pll) == Err::<Seq<TokenModel>, LexError>(er));
            assert(spec_tokenize_from(s, i + 1) == Err::<Seq<TokenModel>, LexError>(er));
            assert(spec_tokenize_from(s, i) == Err::<Seq<TokenModel>, LexError>(er));
        },
    }
}

/// Round trip at the grammar level: parsing the token kinds of a printed
/// pattern gives back the very tree it was printed from, consuming them all
/// — so the re-parsed pattern describes exactly the same subjects.
pub proof fn lemma_reparse_print(e: ExprModel)
    ensures
        spec_parse(print_kinds(e)) == (Ok::<ExprModel, ParseError>(e), print_kinds(e).len() as nat),
{
    lemma_print_primary(e, Seq::empty());
    assert(print_kinds(e) + Seq::<KindModel>::empty() =~= print_kinds(e));
    assert(print_kinds(e).skip(print_kinds(e).len() as int) =~= Seq::<KindModel>::empty());
}

/// Round trip from the text itself: scanning the canonical textual form of a
/// well-formed pattern succeeds, its tokens carry exactly the pattern's own
/// kinds, and parsing them gives back the very tree they were printed from —
/// so the re-parsed pattern describes exactly the same subjects as the tree
/// it came from.
pub proof fn lemma_round_trip(e: ExprModel)
    requires
        wf_expr(e),
    ensures
        spec_tokenize(spec_print(e)) matches Ok(ts) && kind_seq(ts) == print_kinds(e)
            && spec_parse(kind_seq(ts)) == (
            Ok::<ExprModel, ParseError>(e),
            kind_seq(ts).len() as nat,
        ),
{
    let s = spec_print(e);
    assert(s.subrange(0, s.len() as int) =~= s);
    lemma_print_scans(e, s, 0);
    assert(spec_tokenize_from(s, s.len() as int) == Ok::<Seq<TokenModel>, LexError>(Seq::empty()));
    let head = choose|h: Seq<TokenModel>|
        spec_tokenize_from(s, 0) == Ok::<Seq<TokenModel>, LexError>(h + Seq::<TokenModel>::empty())
            && kind_seq(h) == print_kinds(e);
    assert(head + Seq::<TokenModel>::empty() =~= head);
    lemma_reparse_print(e);
}

} // verus!
