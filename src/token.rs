//! Tokens and the errors that reading a query can end in.
use vstd::prelude::*;

use crate::span::Span;

verus! {

/// The kinds of token the lexer produces.
#[derive(Clone, Copy, Debug, PartialEq, Eq, Structural)]
pub enum TokKind {
    Ident,
    Str,
    Num,
    Param,
    Star,
    At,
    Caret,
    LBracket,
    RBracket,
    LBrace,
    RBrace,
    LParen,
    RParen,
    Comma,
    Colon,
    Dot,
    DotDot,
    Ellipsis,
    Arrow,
    Pipe,
    FatArrow,
    EqEq,
    NotEq,
    Lt,
    Le,
    Gt,
    Ge,
    AndAnd,
    OrOr,
    Bang,
    Plus,
    Minus,
    Slash,
    Percent,
    StarStar,
    Eof,
}

/// One token: its kind and the bytes of the query it covers.
#[derive(Clone, Copy, Debug, PartialEq, Eq, Structural)]
pub struct Token {
    pub kind: TokKind,
    pub span: Span,
}

/// Why a query could not be read.
#[derive(Clone, Debug, PartialEq, Eq)]
pub enum QueryError {
    /// A malformed token: an unterminated string or a bad escape.
    LexError { span: Span },
    /// The parser met a token it could not use; `expected` lists what would have fit.
    SyntaxError { span: Span, expected: Vec<TokKind> },
    /// The query holds no expression at all.
    EmptyQuery { span: Span },
    /// The expression nests deeper than the parser allows.
    ResourceLimitExceeded { span: Span },
}

impl QueryError {
    pub open spec fn span_of(self) -> Span {
        match self {
            QueryError::LexError { span } => span,
            QueryError::SyntaxError { span, .. } => span,
            QueryError::EmptyQuery { span } => span,
            QueryError::ResourceLimitExceeded { span } => span,
        }
    }

    /// The byte range the error points at.
    pub fn span(&self) -> (r: Span)
        ensures
            r == self.span_of(),
    {
        match self {
            QueryError::LexError { span } => *span,
            QueryError::SyntaxError { span, .. } => *span,
            QueryError::EmptyQuery { span } => *span,
            QueryError::ResourceLimitExceeded { span } => *span,
        }
    }
}

/// A token sequence read from a text of `len` bytes: every token lies in the
/// text, tokens come in source order without overlap, only the last is the
/// end marker, and it sits at the end of the text.
pub open spec fn tokens_ok(toks: Seq<Token>, len: nat) -> bool {
    &&& toks.len() >= 1
    &&& toks.last().kind == TokKind::Eof
    &&& toks.last().span == (Span { start: len as usize, end: len as usize })
    &&& forall|i: int| 0 <= i < toks.len() ==> #[trigger] toks[i].span.valid(len)
    &&& forall|i: int| 0 <= i < toks.len() - 1 ==> #[trigger] toks[i].kind != TokKind::Eof
    &&& forall|i: int| 0 <= i < toks.len() - 1 ==> #[trigger] toks[i].span.start < toks[i].span.end
    &&& forall|i: int, j: int| 0 <= i < j < toks.len() ==> #[trigger] toks[i].span.end <= #[trigger] toks[j].span.start
}

} // verus!
