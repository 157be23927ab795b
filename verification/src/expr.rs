use vstd::prelude::*;

verus! {

/// A pattern syntax tree. `Alphabet` is a literal run of lowercase letters
/// and digits; `Star` is zero-or-more repetition; `Plus` is alternation;
/// `Dot` is concatenation.
#[derive(Debug, PartialEq)]
pub enum Expr {
    Alphabet(String),
    Star(Box<Expr>),
    Plus(Box<Expr>, Box<Expr>),
    Dot(Box<Expr>, Box<Expr>),
}

/// The mathematical shape of an `Expr`: the same tree with each literal
/// abstracted to its character sequence.
#[verifier::ext_equal]
pub enum ExprModel {
    Alphabet(Seq<char>),
    Star(Box<ExprModel>),
    Plus(Box<ExprModel>, Box<ExprModel>),
    Dot(Box<ExprModel>, Box<ExprModel>),
}

impl View for Expr {
    type V = ExprModel;

    open spec fn view(&self) -> ExprModel
        decreases self,
    {
        match self {
            Expr::Alphabet(text) => ExprModel::Alphabet(text@),
            Expr::Star(inner) => ExprModel::Star(Box::new((**inner)@)),
            Expr::Plus(lhs, rhs) => ExprModel::Plus(Box::new((**lhs)@), Box::new((**rhs)@)),
            Expr::Dot(lhs, rhs) => ExprModel::Dot(Box::new((**lhs)@), Box::new((**rhs)@)),
        }
    }
}

/// A pattern character: the only characters a literal may hold.
pub open spec fn is_pattern_char(c: char) -> bool {
    ('a' <= c && c <= 'z') || ('0' <= c && c <= '9')
}

/// A well-formed pattern tree: every literal is a nonempty run of pattern
/// characters. Every tree the parser builds is of this shape.
pub open spec fn wf_expr(e: ExprModel) -> bool
    decreases e,
{
    match e {
        ExprModel::Alphabet(text) => text.len() > 0 && forall|i: int|
            0 <= i < text.len() ==> is_pattern_char(#[trigger] text[i]),
        ExprModel::Star(inner) => wf_expr(*inner),
        ExprModel::Plus(lhs, rhs) => wf_expr(*lhs) && wf_expr(*rhs),
        ExprModel::Dot(lhs, rhs) => wf_expr(*lhs) && wf_expr(*rhs),
    }
}

} // verus!
