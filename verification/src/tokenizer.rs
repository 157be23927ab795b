use vstd::prelude::*;

use crate::expr::is_pattern_char;

verus! {

/// The kind of a token: a literal run of pattern characters, or one of the
/// five fixed operator characters.
#[derive(Debug, PartialEq)]
pub enum TokenKind {
    Alphabet(String),
    Plus,
    Star,
    Dot,
    LeftParen,
    RightParen,
}

/// One token together with its position, as a `(line, column)` pair. Every
/// pattern is a single line, so the line is always `0`; the column is the
/// zero-based character index of the token's first character.
#[derive(Debug, PartialEq)]
pub struct Token {
    pub kind: TokenKind,
    pub pos: (usize, usize),
}

/// The mathematical shape of a `TokenKind`.
#[verifier::ext_equal]
pub enum KindModel {
    Alphabet(Seq<char>),
    Plus,
    Star,
    Dot,
    LeftParen,
    RightParen,
}

/// The mathematical shape of a `Token`.
#[verifier::ext_equal]
pub struct TokenModel {
    pub kind: KindModel,
    pub pos: (nat, nat),
}

impl View for TokenKind {
    type V = KindModel;

    open spec fn view(&self) -> KindModel {
        match self {
            TokenKind::Alphabet(text) => KindModel::Alphabet(text@),
            TokenKind::Plus => KindModel::Plus,
            TokenKind::Star => KindModel::Star,
            TokenKind::Dot => KindModel::Dot,
            TokenKind::LeftParen => KindModel::LeftParen,
            TokenKind::RightParen => KindModel::RightParen,
        }
    }
}

impl View for Token {
    type V = TokenModel;

    open spec fn view(&self) -> TokenModel {
        TokenModel { kind: self.kind@, pos: (self.pos.0 as nat, self.pos.1 as nat) }
    }
}

/// Scanning failed: the pattern holds a character outside the accepted set.
/// The fields are the character and the zero-based character index at which
/// it stands.
#[derive(Debug, PartialEq)]
pub enum LexError {
    UnknownCharacter(char, usize),
}

impl Token {
    pub fn new(kind: TokenKind, pos: (usize, usize)) -> (t: Token)
        ensures
            t.kind == kind,
            t.pos == pos,
    {
        Token { kind: kind, pos: pos }
    }
}

impl TokenKind {
    pub fn to_token(self, pos: (usize, usize)) -> (t: Token)
        ensures
            t.kind == self,
            t.pos == pos,
    {
        Token::new(self, pos)
    }
}

/// A whitespace character: skipped by the scanner, contributing no token.
pub open spec fn is_whitespace_char(c: char) -> bool {
    c == ' ' || c == '\t' || c == '\n' || c == '\u{b}' || c == '\u{c}' || c == '\r'
        || c == '\u{85}' || c == '\u{a0}' || c == '\u{1680}' || ('\u{2000}' <= c && c
        <= '\u{200a}') || c == '\u{2028}' || c == '\u{2029}' || c == '\u{202f}' || c == '\u{205f}'
        || c == '\u{3000}'
}

/// An operator character: each one becomes its own single-character token.
pub open spec fn is_operator_char(c: char) -> bool {
    c == '+' || c == '*' || c == '.' || c == '(' || c == ')'
}

/// The token kind of an operator character.
pub open spec fn operator_kind(c: char) -> KindModel {
    if c == '+' {
        KindModel::Plus
    } else if c == '*' {
        KindModel::Star
    } else if c == '.' {
        KindModel::Dot
    } else if c == '(' {
        KindModel::LeftParen
    } else {
        KindModel::RightParen
    }
}

/// The end of the maximal run of pattern characters that begins at `i`:
/// the first index at or past `i` holding no pattern character.
pub open spec fn run_end(s: Seq<char>, i: int) -> int
    decreases s.len() - i,
{
    if i < s.len() && is_pattern_char(s[i]) {
        run_end(s, i + 1)
    } else {
        i
    }
}

pub proof fn lemma_run_end(s: Seq<char>, i: int)
    requires
        0 <= i <= s.len(),
    ensures
        i <= run_end(s, i) <= s.len(),
        forall|k: int| i <= k < run_end(s, i) ==> is_pattern_char(#[trigger] s[k]),
        run_end(s, i) < s.len() ==> !is_pattern_char(s[run_end(s, i)]),
    decreases s.len() - i,
{
    if i < s.len() && is_pattern_char(s[i]) {
        lemma_run_end(s, i + 1);
    }
}

/// What scanning yields from character index `i` onward: whitespace is
/// skipped, an operator character is one token, a maximal run of pattern
/// characters is one `Alphabet` token, and any other character is an error.
pub open spec fn spec_tokenize_from(s: Seq<char>, i: int) -> Result<Seq<TokenModel>, LexError>
    decreases s.len() - i,
    via spec_tokenize_from_dec
{
    if i < 0 || i >= s.len() {
        Ok(Seq::empty())
    } else if is_whitespace_char(s[i]) {
        spec_tokenize_from(s, i + 1)
    } else if is_operator_char(s[i]) {
        match spec_tokenize_from(s, i + 1) {
            Ok(rest) => Ok(
                seq![TokenModel { kind: operator_kind(s[i]), pos: (0, i as nat) }] + rest,
            ),
            Err(e) => Err(e),
        }
    } else if is_pattern_char(s[i]) {
        match spec_tokenize_from(s, run_end(s, i)) {
            Ok(rest) => Ok(
                seq![
                    TokenModel {
                        kind: KindModel::Alphabet(s.subrange(i, run_end(s, i))),
                        pos: (0, i as nat),
                    },
                ] + rest,
            ),
            Err(e) => Err(e),
        }
    } else {
        Err(LexError::UnknownCharacter(s[i], i as usize))
    }
}

#[via_fn]
proof fn spec_tokenize_from_dec(s: Seq<char>, i: int) {
    if 0 <= i < s.len() && is_pattern_char(s[i]) {
        lemma_run_end(s, i + 1);
        assert(run_end(s, i) == run_end(s, i + 1));
    }
}

/// What scanning a whole pattern yields.
pub open spec fn spec_tokenize(s: Seq<char>) -> Result<Seq<TokenModel>, LexError> {
    spec_tokenize_from(s, 0)
}

/// The models of a sequence of tokens.
pub open spec fn tokens_model(ts: Seq<Token>) -> Seq<TokenModel> {
    ts.map_values(|t: Token| t@)
}

/// Tokens already produced, followed by whatever scanning the rest yields.
pub open spec fn tok_combine(
    ts: Seq<Token>,
    rest: Result<Seq<TokenModel>, LexError>,
) -> Result<Seq<TokenModel>, LexError> {
    match rest {
        Ok(more) => Ok(tokens_model(ts) + more),
        Err(e) => Err(e),
    }
}

fn is_whitespace(c: char) -> (r: bool)
    ensures
        r == is_whitespace_char(c),
{
    let u = c as u32;
    u == 0x20 || (0x9 <= u && u <= 0xd) || u == 0x85 || u == 0xa0 || u == 0x1680 || (0x2000 <= u
        && u <= 0x200a) || u == 0x2028 || u == 0x2029 || u == 0x202f || u == 0x205f || u == 0x3000
}

fn is_pattern(c: char) -> (r: bool)
    ensures
        r == is_pattern_char(c),
{
    let u = c as u32;
    (0x61 <= u && u <= 0x7a) || (0x30 <= u && u <= 0x39)
}

fn pattern_char_at(s: &str, i: usize) -> (r: bool)
    requires
        i < s@.len(),
    ensures
        r == is_pattern_char(s@[i as int]),
{
    is_pattern(s.get_char(i))
}

/// Scans a pattern into its token sequence: whitespace is skipped, `+ * . ( )`
/// become single-character tokens, a maximal run of lowercase letters and
/// digits becomes one `Alphabet` token, and any other character fails with
/// `UnknownCharacter`.
pub fn tokenize(s: &str) -> (r: Result<Vec<Token>, LexError>)
    ensures
        match r {
            Ok(tokens) => spec_tokenize(s@) == Ok::<Seq<TokenModel>, LexError>(
                tokens_model(tokens@),
            ),
            Err(e) => spec_tokenize(s@) == Err::<Seq<TokenModel>, LexError>(e),
        },
{
    let len = s.unicode_len();
    let mut tokens: Vec<Token> = Vec::new();
    let mut i: usize = 0;
    proof {
        assert(tokens_model(tokens@) + spec_tokenize_from(s@, 0).unwrap() =~= spec_tokenize_from(
            s@,
            0,
        ).unwrap());
    }
    while i < len
        invariant
            len == s@.len(),
            i <= len,
            spec_tokenize(s@) == tok_combine(tokens@, spec_tokenize_from(s@, i as int)),
        decreases len - i,
    {
        let c = s.get_char(i);
        let ghost prev_tokens = tokens@;
        let ghost prev_i = i as int;
        if is_whitespace(c) {
            i = i + 1;
        } else if is_pattern(c) {
            let start = i;
            i = i + 1;
            proof {
                lemma_run_end(s@, start as int);
            }
            while i < len && pattern_char_at(s, i)
                invariant
                    len == s@.len(),
                    start < i <= len,
                    run_end(s@, start as int) == run_end(s@, i as int),
                    forall|k: int|
                        start <= k < i ==> is_pattern_char(#[trigger] s@[k]),
                decreases len - i,
            {
                i = i + 1;
            }
            proof {
                assert(run_end(s@, i as int) == i);
                assert(run_end(s@, start as int) == i);
            }
            let text_slice = s.substring_char(start, i);
            let text = text_slice.to_owned();
            tokens.push(Token { kind: TokenKind::Alphabet(text), pos: (0, start) });
            proof {
                let t = TokenModel {
                    kind: KindModel::Alphabet(s@.subrange(start as int, i as int)),
                    pos: (0, start as nat),
                };
                assert(tokens@ == prev_tokens.push(tokens@[prev_tokens.len() as int]));
                assert(tokens@[prev_tokens.len() as int]@ =~= t);
                lemma_tok_step(s@, prev_tokens, tokens@[prev_tokens.len() as int], prev_i, i as int);
            }
        } else if c == '+' {
            tokens.push(Token { kind: TokenKind::Plus, pos: (0, i) });
            i = i + 1;
            proof {
                lemma_tok_step(s@, prev_tokens, tokens@[prev_tokens.len() as int], prev_i, i as int);
            }
        } else if c == '*' {
            tokens.push(Token { kind: TokenKind::Star, pos: (0, i) });
            i = i + 1;
            proof {
                lemma_tok_step(s@, prev_tokens, tokens@[prev_tokens.len() as int], prev_i, i as int);
            }
        } else if c == '.' {
            tokens.push(Token { kind: TokenKind::Dot, pos: (0, i) });
            i = i + 1;
            proof {
                lemma_tok_step(s@, prev_tokens, tokens@[prev_tokens.len() as int], prev_i, i as int);
            }
        } else if c == '(' {
            tokens.push(Token { kind: TokenKind::LeftParen, pos: (0, i) });
            i = i + 1;
            proof {
                lemma_tok_step(s@, prev_tokens, tokens@[prev_tokens.len() as int], prev_i, i as int);
            }
        } else if c == ')' {
            tokens.push(Token { kind: TokenKind::RightParen, pos: (0, i) });
            i = i + 1;
            proof {
                lemma_tok_step(s@, prev_tokens, tokens@[prev_tokens.len() as int], prev_i, i as int);
            }
        } else {
            return Err(LexError::UnknownCharacter(c, i));
        }
    }
    proof {
        assert(spec_tokenize_from(s@, len as int) == Ok::<Seq<TokenModel>, LexError>(Seq::empty()));
        assert(tokens_model(tokens@) + Seq::<TokenModel>::empty() =~= tokens_model(tokens@));
    }
    Ok(tokens)
}

/// A well-formed token kind: an `Alphabet` holds a nonempty run of pattern
/// characters; the operator kinds hold nothing. Every token the scanner
/// produces is of this shape.
pub open spec fn wf_kind(k: KindModel) -> bool {
    match k {
        KindModel::Alphabet(text) => text.len() > 0 && forall|i: int|
            0 <= i < text.len() ==> is_pattern_char(#[trigger] text[i]),
        _ => true,
    }
}

pub proof fn lemma_tokenize_wf_from(s: Seq<char>, i: int)
    requires
        0 <= i <= s.len(),
    ensures
        spec_tokenize_from(s, i) matches Ok(ts) ==> forall|n: int|
            0 <= n < ts.len() ==> wf_kind(#[trigger] ts[n].kind),
    decreases s.len() - i,
{
    if i < s.len() {
        if is_whitespace_char(s[i]) {
            lemma_tokenize_wf_from(s, i + 1);
        } else if is_operator_char(s[i]) {
            lemma_tokenize_wf_from(s, i + 1);
        } else if is_pattern_char(s[i]) {
            lemma_run_end(s, i);
            lemma_tokenize_wf_from(s, run_end(s, i));
            assert(wf_kind(KindModel::Alphabet(s.subrange(i, run_end(s, i)))));
        }
    }
}

/// Every token a successful scan yields is well formed: each `Alphabet`
/// holds a nonempty run of pattern characters.
pub proof fn lemma_tokenize_wf(s: Seq<char>)
    ensures
        spec_tokenize(s) matches Ok(ts) ==> forall|n: int|
            0 <= n < ts.len() ==> wf_kind(#[trigger] ts[n].kind),
{
    lemma_tokenize_wf_from(s, 0);
}

/// One scanning step over an operator character: it becomes its own token,
/// and the scan goes on right after it.
pub proof fn lemma_scan_operator(s: Seq<char>, j: int)
    requires
        0 <= j < s.len(),
        is_operator_char(s[j]),
    ensures
        spec_tokenize_from(s, j) == (match spec_tokenize_from(s, j + 1) {
            Ok(rest) => Ok::<Seq<TokenModel>, LexError>(
                seq![TokenModel { kind: operator_kind(s[j]), pos: (0, j as nat) }] + rest,
            ),
            Err(e) => Err::<Seq<TokenModel>, LexError>(e),
        }),
{
    assert(!is_whitespace_char(s[j]));
}

/// One scanning step over a maximal run of pattern characters ending at `m`:
/// the run becomes one `Alphabet` token, and the scan goes on at `m`.
pub proof fn lemma_scan_run(s: Seq<char>, i: int, m: int)
    requires
        0 <= i < m <= s.len(),
        forall|k: int| i <= k < m ==> is_pattern_char(#[trigger] s[k]),
        m == s.len() || !is_pattern_char(s[m]),
    ensures
        run_end(s, i) == m,
        spec_tokenize_from(s, i) == (match spec_tokenize_from(s, m) {
            Ok(rest) => Ok::<Seq<TokenModel>, LexError>(
                seq![
                    TokenModel { kind: KindModel::Alphabet(s.subrange(i, m)), pos: (0, i as nat) },
                ] + rest,
            ),
            Err(e) => Err::<Seq<TokenModel>, LexError>(e),
        }),
{
    lemma_run_end(s, i);
    let re = run_end(s, i);
    if re < m {
        assert(is_pattern_char(s[re]));
        assert(false);
    }
    if re > m {
        assert(m < s.len());
        assert(is_pattern_char(s[m]));
        assert(false);
    }
    assert(!is_whitespace_char(s[i]));
    assert(!is_operator_char(s[i]));
}

/// A character the scanner accepts: whitespace, an operator, or a pattern
/// character. Anything else fails the scan.
pub open spec fn is_accepted_char(c: char) -> bool {
    is_whitespace_char(c) || is_operator_char(c) || is_pattern_char(c)
}

pub proof fn lemma_tokenize_ok_from(s: Seq<char>, i: int)
    requires
        0 <= i <= s.len(),
    ensures
        (spec_tokenize_from(s, i) is Ok) <==> (forall|k: int|
            i <= k < s.len() ==> is_accepted_char(#[trigger] s[k])),
    decreases s.len() - i,
{
    if i < s.len() {
        if is_whitespace_char(s[i]) || is_operator_char(s[i]) {
            lemma_tokenize_ok_from(s, i + 1);
        } else if is_pattern_char(s[i]) {
            lemma_run_end(s, i);
            lemma_tokenize_ok_from(s, run_end(s, i));
        }
    }
}

/// Scanning a pattern succeeds exactly when every one of its characters is
/// accepted; in particular a pattern holding any other character — an
/// uppercase letter, a `#` — fails with `UnknownCharacter`.
pub proof fn lemma_tokenize_ok(s: Seq<char>)
    ensures
        (spec_tokenize(s) is Ok) <==> (forall|k: int|
            0 <= k < s.len() ==> is_accepted_char(#[trigger] s[k])),
{
    lemma_tokenize_ok_from(s, 0);
}

/// One scanning step: if the suffix at `i` begins with exactly the one token
/// `t`, then appending `t` to the tokens produced so far keeps the running
/// decomposition of the whole scan.
proof fn lemma_tok_step(s: Seq<char>, prev: Seq<Token>, t: Token, i: int, j: int)
    requires
        spec_tokenize(s) == tok_combine(prev, spec_tokenize_from(s, i)),
        spec_tokenize_from(s, i) == (match spec_tokenize_from(s, j) {
            Ok(rest) => Ok::<Seq<TokenModel>, LexError>(seq![t@] + rest),
            Err(e) => Err::<Seq<TokenModel>, LexError>(e),
        }),
    ensures
        spec_tokenize(s) == tok_combine(prev.push(t), spec_tokenize_from(s, j)),
{
    match spec_tokenize_from(s, j) {
        Ok(rest) => {
            assert(tokens_model(prev) + (seq![t@] + rest) =~= tokens_model(prev.push(t)) + rest);
        },
        Err(_) => {},
    }
}

} // verus!
