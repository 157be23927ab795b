use vstd::prelude::*;

use crate::expr::{wf_expr, Expr, ExprModel};
use crate::tokenizer::{
    lemma_tokenize_wf, spec_tokenize, tokenize, tokens_model, wf_kind, KindModel, LexError, Token,
    TokenKind, TokenModel,
};

verus! {

/// Parsing failed. `Lexer` wraps a scanning failure; `ExpectedExpression`
/// means a primary was required but the tokens were exhausted or unusable;
/// `ExpectedClosingParen` means a `(` was opened and no matching `)` found;
/// `UnexpectedToken` means a token stood where the grammar has no production
/// for it.
#[derive(Debug, PartialEq)]
pub enum ParseError {
    Lexer(LexError),
    ExpectedExpression,
    ExpectedClosingParen,
    UnexpectedToken,
}

/// The kinds of a token sequence; positions play no part in parsing.
pub open spec fn kind_seq(ts: Seq<TokenModel>) -> Seq<KindModel> {
    ts.map_values(|t: TokenModel| t.kind)
}

/// `c` if it is at most `n`, else `n`: a total bound used only to make the
/// grammar functions below well-founded; `lemma_parse_consumed` shows the
/// bound is never exceeded.
pub open spec fn clip_to(c: nat, n: int) -> int {
    if c <= n {
        c as int
    } else {
        n
    }
}

/// What parsing one full expression from the front of `ts` yields, and how
/// many tokens it consumes: a primary followed by the postfix/infix tail.
pub open spec fn spec_parse(ts: Seq<KindModel>) -> (Result<ExprModel, ParseError>, nat)
    decreases ts.len(), 2int,
{
    let (pr, pc) = spec_parse_primary(ts);
    match pr {
        Err(e) => (Err(e), pc),
        Ok(lhs) => {
            let k = clip_to(pc, ts.len() as int);
            let (tr, tc) = spec_parse_tail(lhs, ts.skip(k));
            (tr, (k + tc) as nat)
        },
    }
}

/// What parsing a primary from the front of `ts` yields: a literal token, or
/// a parenthesized full expression.
pub open spec fn spec_parse_primary(ts: Seq<KindModel>) -> (Result<ExprModel, ParseError>, nat)
    decreases ts.len(), 0int,
{
    if ts.len() == 0 {
        (Err(ParseError::ExpectedExpression), 0)
    } else {
        match ts[0] {
            KindModel::Alphabet(text) => (Ok(ExprModel::Alphabet(text)), 1),
            KindModel::LeftParen => {
                let (ir, ic) = spec_parse(ts.skip(1));
                match ir {
                    Err(e) => (Err(e), (1 + ic) as nat),
                    Ok(inner) => {
                        let k = 1 + clip_to(ic, ts.len() - 1);
                        let rest = ts.skip(k);
                        if rest.len() == 0 {
                            (Err(ParseError::ExpectedClosingParen), k as nat)
                        } else if rest[0] == KindModel::RightParen {
                            (Ok(inner), (k + 1) as nat)
                        } else {
                            (Err(ParseError::ExpectedClosingParen), (k + 1) as nat)
                        }
                    },
                }
            },
            _ => (Err(ParseError::ExpectedExpression), 1),
        }
    }
}

/// What the postfix/infix tail after an already-parsed `lhs` yields: a `*`
/// wraps the accumulated left-hand side; `+` or `.` takes the entire
/// remaining tail as its right operand (right associativity); a `)` or the
/// end of the tokens stops; anything else is unexpected.
pub open spec fn spec_parse_tail(lhs: ExprModel, ts: Seq<KindModel>) -> (
    Result<ExprModel, ParseError>,
    nat,
)
    decreases ts.len(), 1int,
{
    if ts.len() == 0 {
        (Ok(lhs), 0)
    } else {
        match ts[0] {
            KindModel::Star => {
                let (tr, tc) = spec_parse_tail(ExprModel::Star(Box::new(lhs)), ts.skip(1));
                (tr, (1 + tc) as nat)
            },
            KindModel::Plus => {
                let (rr, rc) = spec_parse(ts.skip(1));
                match rr {
                    Err(e) => (Err(e), (1 + rc) as nat),
                    Ok(rhs) => (
                        Ok(ExprModel::Plus(Box::new(lhs), Box::new(rhs))),
                        (1 + rc) as nat,
                    ),
                }
            },
            KindModel::Dot => {
                let (rr, rc) = spec_parse(ts.skip(1));
                match rr {
                    Err(e) => (Err(e), (1 + rc) as nat),
                    Ok(rhs) => (
                        Ok(ExprModel::Dot(Box::new(lhs), Box::new(rhs))),
                        (1 + rc) as nat,
                    ),
                }
            },
            KindModel::RightParen => (Ok(lhs), 0),
            _ => (Err(ParseError::UnexpectedToken), 0),
        }
    }
}

/// Parsing consumes at most all the tokens, and a successful parse consumes
/// at least the one token its primary began with.
pub proof fn lemma_parse_consumed(ts: Seq<KindModel>)
    ensures
        spec_parse(ts).1 <= ts.len(),
        spec_parse(ts).0 is Ok ==> spec_parse(ts).1 >= 1,
    decreases ts.len(), 2int,
{
    lemma_primary_consumed(ts);
    let (pr, pc) = spec_parse_primary(ts);
    match pr {
        Err(_) => {},
        Ok(lhs) => {
            let k = clip_to(pc, ts.len() as int);
            lemma_tail_consumed(lhs, ts.skip(k));
        },
    }
}

pub proof fn lemma_primary_consumed(ts: Seq<KindModel>)
    ensures
        spec_parse_primary(ts).1 <= ts.len(),
        spec_parse_primary(ts).0 is Ok ==> spec_parse_primary(ts).1 >= 1,
    decreases ts.len(), 0int,
{
    if ts.len() > 0 {
        match ts[0] {
            KindModel::LeftParen => {
                lemma_parse_consumed(ts.skip(1));
            },
            _ => {},
        }
    }
}

pub proof fn lemma_tail_consumed(lhs: ExprModel, ts: Seq<KindModel>)
    ensures
        spec_parse_tail(lhs, ts).1 <= ts.len(),
    decreases ts.len(), 1int,
{
    if ts.len() > 0 {
        match ts[0] {
            KindModel::Star => {
                lemma_tail_consumed(ExprModel::Star(Box::new(lhs)), ts.skip(1));
            },
            KindModel::Plus => {
                lemma_parse_consumed(ts.skip(1));
            },
            KindModel::Dot => {
                lemma_parse_consumed(ts.skip(1));
            },
            _ => {},
        }
    }
}

pub proof fn lemma_parse_wf(ts: Seq<KindModel>)
    requires
        forall|n: int| 0 <= n < ts.len() ==> wf_kind(#[trigger] ts[n]),
    ensures
        spec_parse(ts).0 matches Ok(e) ==> wf_expr(e),
    decreases ts.len(), 2int,
{
    lemma_primary_wf(ts);
    let (pr, pc) = spec_parse_primary(ts);
    match pr {
        Err(_) => {},
        Ok(lhs) => {
            let k = clip_to(pc, ts.len() as int);
            assert(forall|n: int| 0 <= n < ts.skip(k).len() ==> wf_kind(#[trigger] ts.skip(k)[n]));
            lemma_tail_wf(lhs, ts.skip(k));
        },
    }
}

pub proof fn lemma_primary_wf(ts: Seq<KindModel>)
    requires
        forall|n: int| 0 <= n < ts.len() ==> wf_kind(#[trigger] ts[n]),
    ensures
        spec_parse_primary(ts).0 matches Ok(e) ==> wf_expr(e),
    decreases ts.len(), 0int,
{
    if ts.len() > 0 {
        match ts[0] {
            KindModel::LeftParen => {
                assert(forall|n: int|
                    0 <= n < ts.skip(1).len() ==> wf_kind(#[trigger] ts.skip(1)[n]));
                lemma_parse_wf(ts.skip(1));
            },
            _ => {},
        }
    }
}

pub proof fn lemma_tail_wf(lhs: ExprModel, ts: Seq<KindModel>)
    requires
        wf_expr(lhs),
        forall|n: int| 0 <= n < ts.len() ==> wf_kind(#[trigger] ts[n]),
    ensures
        spec_parse_tail(lhs, ts).0 matches Ok(e) ==> wf_expr(e),
    decreases ts.len(), 1int,
{
    if ts.len() > 0 {
        assert(forall|n: int| 0 <= n < ts.skip(1).len() ==> wf_kind(#[trigger] ts.skip(1)[n]));
        match ts[0] {
            KindModel::Star => {
                lemma_tail_wf(ExprModel::Star(Box::new(lhs)), ts.skip(1));
            },
            KindModel::Plus => {
                lemma_parse_wf(ts.skip(1));
            },
            KindModel::Dot => {
                lemma_parse_wf(ts.skip(1));
            },
            _ => {},
        }
    }
}

/// Every tree the whole pipeline yields is well formed: whatever tree comes
/// out of parsing the tokens of a successfully scanned pattern has nonempty
/// pattern-character runs in all its literals.
pub proof fn lemma_pipeline_wf(s: Seq<char>, ts: Seq<TokenModel>, e: ExprModel)
    requires
        spec_tokenize(s) == Ok::<Seq<TokenModel>, LexError>(ts),
        spec_parse(kind_seq(ts)).0 == Ok::<ExprModel, ParseError>(e),
    ensures
        wf_expr(e),
{
    lemma_tokenize_wf(s);
    assert(forall|n: int|
        0 <= n < kind_seq(ts).len() ==> wf_kind(#[trigger] kind_seq(ts)[n]));
    lemma_parse_wf(kind_seq(ts));
}

/// An unmatched `(`: a `(` put in front of any token sequence that parses
/// fully — so that no `)` can answer it — makes the whole parse fail with
/// `ExpectedClosingParen`.
pub proof fn lemma_unmatched_paren(ts: Seq<KindModel>)
    requires
        spec_parse(ts).0 is Ok,
        spec_parse(ts).1 == ts.len(),
    ensures
        spec_parse(seq![KindModel::LeftParen] + ts).0 == Err::<ExprModel, ParseError>(
            ParseError::ExpectedClosingParen,
        ),
{
    let full = seq![KindModel::LeftParen] + ts;
    assert(full[0] == KindModel::LeftParen);
    assert(full.skip(1) =~= ts);
    lemma_parse_consumed(ts);
    assert(full.skip(1 + ts.len() as int) =~= Seq::<KindModel>::empty());
}

/// Whether an executable parse outcome carries the very value the grammar
/// functions give: the same tree on success, the same error on failure.
pub open spec fn res_matches(r: Result<Expr, ParseError>, m: Result<ExprModel, ParseError>) -> bool {
    match (r, m) {
        (Ok(e), Ok(em)) => e@ == em,
        (Err(a), Err(b)) => a == b,
        _ => false,
    }
}

/// A recursive-descent parser over a scanned token sequence, with a cursor
/// that only moves forward.
pub struct Parser {
    tokens: Vec<Token>,
    curr: usize,
}

impl Parser {
    /// The models of the tokens being parsed.
    pub closed spec fn toks(&self) -> Seq<TokenModel> {
        tokens_model(self.tokens@)
    }

    /// How many tokens are already consumed.
    pub closed spec fn cursor(&self) -> int {
        self.curr as int
    }

    /// The cursor never passes the end of the tokens.
    pub closed spec fn wf(&self) -> bool {
        self.curr <= self.tokens@.len()
    }

    /// The kinds of the tokens not yet consumed.
    pub open spec fn remaining(&self) -> Seq<KindModel> {
        kind_seq(self.toks()).skip(self.cursor())
    }

    /// Scans `text` and readies a parser over its tokens; a scanning failure
    /// is handed back wrapped in `ParseError::Lexer`.
    pub fn from(text: &str) -> (r: Result<Self, ParseError>)
        ensures
            match spec_tokenize(text@) {
                Ok(ts) => r matches Ok(p) && p.toks() == ts && p.cursor() == 0 && p.wf(),
                Err(e) => r matches Err(pe) && pe == ParseError::Lexer(e),
            },
    {
        let tokens = match tokenize(text) {
            Ok(tokens) => tokens,
            Err(e) => {
                return Err(ParseError::Lexer(e));
            },
        };
        Ok(Self { tokens: tokens, curr: 0 })
    }

    fn next(&mut self) -> (r: Option<&Token>)
        requires
            old(self).wf(),
        ensures
            final(self).wf(),
            final(self).toks() == old(self).toks(),
            if old(self).cursor() < old(self).toks().len() {
                final(self).cursor() == old(self).cursor() + 1 && (r matches Some(t) && t@
                    == old(self).toks()[old(self).cursor()])
            } else {
                final(self).cursor() == old(self).cursor() && r is None
            },
    {
        if self.curr == self.tokens.len() {
            return None;
        }
        let tok = &self.tokens[self.curr];
        self.curr = self.curr + 1;
        Some(tok)
    }

    fn peek(&self) -> (r: Option<&Token>)
        requires
            self.wf(),
        ensures
            if self.cursor() < self.toks().len() {
                r matches Some(t) && t@ == self.toks()[self.cursor()]
            } else {
                r is None
            },
    {
        if self.curr == self.tokens.len() {
            return None;
        }
        let tok = &self.tokens[self.curr];
        Some(tok)
    }

    fn parse_star_expr(&mut self, lhs: Expr) -> (r: Result<Expr, ParseError>)
        requires
            old(self).wf(),
            old(self).remaining().len() > 0,
            old(self).remaining()[0] == KindModel::Star,
        ensures
            final(self).wf(),
            final(self).toks() == old(self).toks(),
            final(self).cursor() == old(self).cursor() + 1,
            r matches Ok(e) && e@ == ExprModel::Star(Box::new(lhs@)),
    {
        let _ = self.next();
        Ok(Expr::Star(Box::new(lhs)))
    }

    fn parse_plus_expr(&mut self, lhs: Expr) -> (r: Result<Expr, ParseError>)
        requires
            old(self).wf(),
            old(self).remaining().len() > 0,
            old(self).remaining()[0] == KindModel::Plus,
        ensures
            final(self).wf(),
            final(self).toks() == old(self).toks(),
            ({
                let (rr, rc) = spec_parse(old(self).remaining().skip(1));
                final(self).cursor() == old(self).cursor() + 1 + rc && match (r, rr) {
                    (Ok(e), Ok(m)) => e@ == ExprModel::Plus(Box::new(lhs@), Box::new(m)),
                    (Err(a), Err(b)) => a == b,
                    _ => false,
                }
            }),
        decreases self.toks().len() - self.cursor(), 1int,
    {
        let _ = self.next();
        proof {
            assert(kind_seq(self.toks()).skip(self.cursor()) =~= old(self).remaining().skip(1));
        }
        Ok(Expr::Plus(Box::new(lhs), Box::new(self.parse()?)))
    }

    fn parse_dot_expr(&mut self, lhs: Expr) -> (r: Result<Expr, ParseError>)
        requires
            old(self).wf(),
            old(self).remaining().len() > 0,
            old(self).remaining()[0] == KindModel::Dot,
        ensures
            final(self).wf(),
            final(self).toks() == old(self).toks(),
            ({
                let (rr, rc) = spec_parse(old(self).remaining().skip(1));
                final(self).cursor() == old(self).cursor() + 1 + rc && match (r, rr) {
                    (Ok(e), Ok(m)) => e@ == ExprModel::Dot(Box::new(lhs@), Box::new(m)),
                    (Err(a), Err(b)) => a == b,
                    _ => false,
                }
            }),
        decreases self.toks().len() - self.cursor(), 1int,
    {
        let _ = self.next();
        proof {
            assert(kind_seq(self.toks()).skip(self.cursor()) =~= old(self).remaining().skip(1));
        }
        Ok(Expr::Dot(Box::new(lhs), Box::new(self.parse()?)))
    }

    fn parse_primary(&mut self) -> (r: Result<Expr, ParseError>)
        requires
            old(self).wf(),
        ensures
            final(self).wf(),
            final(self).toks() == old(self).toks(),
            ({
                let (sr, sc) = spec_parse_primary(old(self).remaining());
                final(self).cursor() == old(self).cursor() + sc && res_matches(r, sr)
            }),
        decreases self.toks().len() - self.cursor(), 0int,
    {
        let ghost rem0 = old(self).remaining();
        match self.next() {
            None => Err(ParseError::ExpectedExpression),
            Some(tok) => match &tok.kind {
                TokenKind::Alphabet(text) => Ok(Expr::Alphabet(text.clone())),
                TokenKind::LeftParen => {
                    proof {
                        assert(kind_seq(self.toks()).skip(self.cursor()) =~= rem0.skip(1));
                    }
                    let inner = self.parse()?;
                    proof {
                        lemma_parse_consumed(rem0.skip(1));
                        assert(kind_seq(self.toks()).skip(self.cursor()) =~= rem0.skip(
                            1 + clip_to(spec_parse(rem0.skip(1)).1, rem0.len() - 1),
                        ));
                    }
                    match self.next() {
                        None => Err(ParseError::ExpectedClosingParen),
                        Some(tok) => match tok.kind {
                            TokenKind::RightParen => Ok(inner),
                            _ => Err(ParseError::ExpectedClosingParen),
                        },
                    }
                },
                _ => Err(ParseError::ExpectedExpression),
            },
        }
    }

    fn parse_expr(&mut self, lhs: Expr) -> (r: Result<Expr, ParseError>)
        requires
            old(self).wf(),
        ensures
            final(self).wf(),
            final(self).toks() == old(self).toks(),
            ({
                let (sr, sc) = spec_parse_tail(lhs@, old(self).remaining());
                final(self).cursor() == old(self).cursor() + sc && res_matches(r, sr)
            }),
        decreases self.toks().len() - self.cursor(), 2int,
    {
        let ghost rem0 = old(self).remaining();
        match self.peek() {
            None => Ok(lhs),
            Some(tok) => match tok.kind {
                TokenKind::Star => {
                    let wrapped = self.parse_star_expr(lhs)?;
                    proof {
                        assert(self.remaining() =~= rem0.skip(1));
                    }
                    self.parse_expr(wrapped)
                },
                TokenKind::Plus => self.parse_plus_expr(lhs),
                TokenKind::Dot => self.parse_dot_expr(lhs),
                TokenKind::RightParen => Ok(lhs),
                _ => Err(ParseError::UnexpectedToken),
            },
        }
    }

    /// Parses one full expression from the cursor onward, stopping at the end
    /// of the tokens or at an unmatched `)`.
    pub fn parse(&mut self) -> (r: Result<Expr, ParseError>)
        requires
            old(self).wf(),
        ensures
            final(self).wf(),
            final(self).toks() == old(self).toks(),
            ({
                let (sr, sc) = spec_parse(old(self).remaining());
                final(self).cursor() == old(self).cursor() + sc && res_matches(r, sr)
            }),
        decreases self.toks().len() - self.cursor(), 3int,
    {
        let ghost rem0 = old(self).remaining();
        let primary = self.parse_primary()?;
        proof {
            lemma_primary_consumed(rem0);
            assert(kind_seq(self.toks()).skip(self.cursor()) =~= rem0.skip(
                clip_to(spec_parse_primary(rem0).1, rem0.len() as int),
            ));
        }
        self.parse_expr(primary)
    }
}

} // verus!
