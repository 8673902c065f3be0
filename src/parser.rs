//! The parser: precedence climbing for operators, recursive descent for
//! brackets and calls, with a bound on nesting.
use vstd::prelude::*;

use crate::ast::{Ast, BinOp, Node, NodeKind, arena_ok, node_ok};
use crate::lexer::{lex_spec, blank, covered, in_comment, in_token, is_comment, is_space, lex_error_at, tokenize_with_comments};
use crate::span::Span;
use crate::token::{QueryError, TokKind, Token, tokens_ok};

verus! {

/// How deeply the parser's functions may call one another before the query
/// is refused as too deeply nested.
pub const MAX_DEPTH: usize = 400;

/// The precedence at which a unary minus takes its operand: only `**` binds tighter.
pub const POW_PREC: u8 = 10;

/// A node as the grammar sees it: its kind, span and children.
pub type NodeView = (NodeKind, Span, Seq<usize>);

pub open spec fn node_view(n: Node) -> NodeView {
    (n.kind, n.span, n.children@)
}

pub open spec fn nodes_view(ns: Seq<Node>) -> Seq<NodeView> {
    ns.map_values(|n: Node| node_view(n))
}

/// What a query error says, as the grammar states it.
pub enum ErrorView {
    Lex(Span),
    Empty(Span),
    Syntax(Span, Seq<TokKind>),
    TooDeep(Span),
}

pub open spec fn error_view(e: QueryError) -> ErrorView {
    match e {
        QueryError::LexError { span } => ErrorView::Lex(span),
        QueryError::EmptyQuery { span } => ErrorView::Empty(span),
        QueryError::SyntaxError { span, expected } => ErrorView::Syntax(span, expected@),
        QueryError::ResourceLimitExceeded { span } => ErrorView::TooDeep(span),
    }
}

/// The outcome of parsing one construct: the arena after it, the position
/// after it and the index of its node; or the error.
pub type Step = Result<(Seq<NodeView>, nat, nat), ErrorView>;

/// The outcome of parsing a bracketed list: the arena, the position after
/// the closing token, and the items.
pub type ItemsStep = Result<(Seq<NodeView>, nat, Seq<usize>), ErrorView>;

pub open spec fn cover_spec(a: Span, b: Span) -> Span {
    Span {
        start: if a.start <= b.start { a.start } else { b.start },
        end: if a.end >= b.end { a.end } else { b.end },
    }
}

/// `span` widened by the spans of children `k..`, in order.
pub open spec fn cover_children(nodes: Seq<NodeView>, children: Seq<usize>, k: nat, span: Span) -> Span
    decreases children.len() - k,
{
    if k < children.len() {
        cover_children(nodes, children, k + 1, cover_spec(span, nodes[children[k as int] as int].1))
    } else {
        span
    }
}

/// The arena with a new node, and the new node's index.
pub open spec fn push_spec(nodes: Seq<NodeView>, kind: NodeKind, children: Seq<usize>, extra: Span) -> (Seq<NodeView>, nat) {
    (nodes.push((kind, cover_children(nodes, children, 0, extra), children)), nodes.len())
}

/// The bytes of `s` spell `word`.
pub open spec fn text_is_spec(src: Seq<u8>, s: Span, word: Seq<u8>) -> bool {
    src.subrange(s.start as int, s.end as int) == word
}

/// 1 when token `t` is the word `asc`, 2 when it is `desc`, else 0.
pub open spec fn order_word_spec(src: Seq<u8>, t: Token) -> u8 {
    if text_is_spec(src, t.span, seq![97u8, 115u8, 99u8]) {
        1
    } else if text_is_spec(src, t.span, seq![100u8, 101u8, 115u8, 99u8]) {
        2
    } else {
        0
    }
}

/// The binary operator that token `t` is, with its precedence and whether
/// it groups to the right. Loosest first: `=>`; `|`; `||`; `&&`; the
/// comparisons, `in` and `match`; the ranges; `+ -`; `* / %`; `**`.
pub open spec fn binop_spec(src: Seq<u8>, t: Token) -> Option<(BinOp, u8, bool)> {
    match t.kind {
        TokKind::FatArrow => Some((BinOp::Pair, 1, true)),
        TokKind::Pipe => Some((BinOp::Pipe, 2, false)),
        TokKind::OrOr => Some((BinOp::Or, 3, false)),
        TokKind::AndAnd => Some((BinOp::And, 4, false)),
        TokKind::EqEq => Some((BinOp::Eq, 5, false)),
        TokKind::NotEq => Some((BinOp::Neq, 5, false)),
        TokKind::Lt => Some((BinOp::Lt, 5, false)),
        TokKind::Le => Some((BinOp::Le, 5, false)),
        TokKind::Gt => Some((BinOp::Gt, 5, false)),
        TokKind::Ge => Some((BinOp::Ge, 5, false)),
        TokKind::Ident => if text_is_spec(src, t.span, seq![105u8, 110u8]) {
            Some((BinOp::In, 5, false))
        } else if text_is_spec(src, t.span, seq![109u8, 97u8, 116u8, 99u8, 104u8]) {
            Some((BinOp::Match, 5, false))
        } else {
            None
        },
        TokKind::DotDot => Some((BinOp::Range, 6, false)),
        TokKind::Ellipsis => Some((BinOp::RangeExcl, 6, false)),
        TokKind::Plus => Some((BinOp::Add, 7, false)),
        TokKind::Minus => Some((BinOp::Sub, 7, false)),
        TokKind::Star => Some((BinOp::Mul, 8, false)),
        TokKind::Slash => Some((BinOp::Div, 8, false)),
        TokKind::Percent => Some((BinOp::Mod, 8, false)),
        TokKind::StarStar => Some((BinOp::Pow, 10, true)),
        _ => None,
    }
}

pub open spec fn expr_starts_spec() -> Seq<TokKind> {
    seq![
        TokKind::Ident,
        TokKind::Str,
        TokKind::Num,
        TokKind::Param,
        TokKind::Star,
        TokKind::At,
        TokKind::Caret,
        TokKind::LParen,
        TokKind::LBracket,
        TokKind::LBrace,
        TokKind::Bang,
        TokKind::Minus,
        TokKind::Plus,
    ]
}

pub open spec fn too_deep(toks: Seq<Token>, pos: nat) -> ErrorView {
    ErrorView::TooDeep(toks[pos as int].span)
}

/// A leaf for token `pos`.
pub open spec fn leaf_spec(toks: Seq<Token>, nodes: Seq<NodeView>, pos: nat, kind: NodeKind) -> Step {
    let (n, i) = push_spec(nodes, kind, Seq::empty(), toks[pos as int].span);
    Ok((n, pos + 1, i))
}

/// An expression from token `pos` whose operators bind at least as
/// tightly as `min_prec`.
pub open spec fn binary_spec(src: Seq<u8>, toks: Seq<Token>, nodes: Seq<NodeView>, pos: nat, min_prec: nat, depth: nat) -> Step
    decreases MAX_DEPTH - depth, 1nat, 0nat,
{
    if depth >= MAX_DEPTH {
        Err(too_deep(toks, pos))
    } else {
        match unary_spec(src, toks, nodes, pos, depth + 1) {
            Err(e) => Err(e),
            Ok((n, p, lhs)) => binary_loop(src, toks, n, p, lhs, min_prec, depth),
        }
    }
}

/// The operators that follow the operand `lhs`, from token `pos`.
pub open spec fn binary_loop(src: Seq<u8>, toks: Seq<Token>, nodes: Seq<NodeView>, pos: nat, lhs: nat, min_prec: nat, depth: nat) -> Step
    decreases MAX_DEPTH - depth, 0nat, toks.len() - pos,
{
    if depth >= MAX_DEPTH || pos >= toks.len() {
        Ok((nodes, pos, lhs))
    } else {
        match binop_spec(src, toks[pos as int]) {
            None => Ok((nodes, pos, lhs)),
            Some((op, prec, right)) => if (prec as nat) < min_prec {
                Ok((nodes, pos, lhs))
            } else {
                let next: nat = if right { prec as nat } else { prec as nat + 1 };
                match binary_spec(src, toks, nodes, pos + 1, next, depth + 1) {
                    Err(e) => Err(e),
                    Ok((n, p, rhs)) => {
                        let (n2, i) = push_spec(n, NodeKind::Binary(op), seq![lhs as usize, rhs as usize], toks[pos as int].span);
                        if pos < p <= toks.len() {
                            binary_loop(src, toks, n2, p, i, min_prec, depth)
                        } else {
                            Ok((n2, p, i))
                        }
                    },
                }
            },
        }
    }
}

/// A prefix operator and its operand, or a postfix expression.
pub open spec fn unary_spec(src: Seq<u8>, toks: Seq<Token>, nodes: Seq<NodeView>, pos: nat, depth: nat) -> Step
    decreases MAX_DEPTH - depth, 0nat, 0nat,
{
    if depth >= MAX_DEPTH {
        Err(too_deep(toks, pos))
    } else {
        let k = toks[pos as int].kind;
        let t = toks[pos as int];
        if k == TokKind::Bang {
            match unary_spec(src, toks, nodes, pos + 1, depth + 1) {
                Err(e) => Err(e),
                Ok((n, p, e)) => {
                    let (n2, i) = push_spec(n, NodeKind::Not, seq![e as usize], t.span);
                    Ok((n2, p, i))
                },
            }
        } else if k == TokKind::Minus || k == TokKind::Plus {
            match binary_spec(src, toks, nodes, pos + 1, POW_PREC as nat, depth + 1) {
                Err(e) => Err(e),
                Ok((n, p, e)) => {
                    let kind = if k == TokKind::Minus { NodeKind::Neg } else { NodeKind::Pos };
                    let (n2, i) = push_spec(n, kind, seq![e as usize], t.span);
                    Ok((n2, p, i))
                },
            }
        } else {
            postfix_spec(src, toks, nodes, pos, depth + 1)
        }
    }
}

/// A primary expression and the postfix forms after it.
pub open spec fn postfix_spec(src: Seq<u8>, toks: Seq<Token>, nodes: Seq<NodeView>, pos: nat, depth: nat) -> Step
    decreases MAX_DEPTH - depth, 1nat, 0nat,
{
    if depth >= MAX_DEPTH {
        Err(too_deep(toks, pos))
    } else {
        match primary_spec(src, toks, nodes, pos, depth + 1) {
            Err(e) => Err(e),
            Ok((n, p, b)) => postfix_loop(src, toks, n, p, b, depth),
        }
    }
}

/// The postfix forms applied to `base`, from token `pos`.
pub open spec fn postfix_loop(src: Seq<u8>, toks: Seq<Token>, nodes: Seq<NodeView>, pos: nat, base: nat, depth: nat) -> Step
    decreases MAX_DEPTH - depth, 0nat, toks.len() - pos,
{
    if depth >= MAX_DEPTH || pos + 1 >= toks.len() {
        Ok((nodes, pos, base))
    } else {
        let t = toks[pos as int];
        let k = t.kind;
        let after = toks[pos + 1 as int];
        let r: Step = if k == TokKind::Dot {
            if after.kind == TokKind::Ident {
                let (n1, name) = push_spec(nodes, NodeKind::Ident, Seq::empty(), after.span);
                let (n2, i) = push_spec(n1, NodeKind::Attribute, seq![base as usize, name as usize], t.span);
                Ok((n2, pos + 2, i))
            } else {
                Err(ErrorView::Syntax(after.span, seq![TokKind::Ident]))
            }
        } else if k == TokKind::LBracket {
            if after.kind == TokKind::RBracket {
                let (n1, i) = push_spec(nodes, NodeKind::Traverse, seq![base as usize], cover_spec(t.span, after.span));
                Ok((n1, pos + 2, i))
            } else {
                match binary_spec(src, toks, nodes, pos + 1, 1, depth + 1) {
                    Err(e) => Err(e),
                    Ok((n, p, c)) => if toks[p as int].kind == TokKind::RBracket {
                        let (n1, i) = push_spec(n, NodeKind::Filter, seq![base as usize, c as usize], cover_spec(t.span, toks[p as int].span));
                        Ok((n1, p + 1, i))
                    } else {
                        Err(ErrorView::Syntax(toks[p as int].span, seq![TokKind::RBracket]))
                    },
                }
            }
        } else if k == TokKind::LBrace {
            match items_spec(src, toks, nodes, pos + 1, TokKind::RBrace, true, depth + 1, Seq::empty()) {
                Err(e) => Err(e),
                Ok((n, p, fields)) => {
                    let (n1, i) = push_spec(n, NodeKind::Projection, seq![base as usize] + fields, cover_spec(t.span, toks[p - 1 as int].span));
                    Ok((n1, p, i))
                },
            }
        } else if k == TokKind::Arrow {
            if after.kind == TokKind::Ident {
                let (n1, name) = push_spec(nodes, NodeKind::Ident, Seq::empty(), after.span);
                let (n2, i) = push_spec(n1, NodeKind::Deref, seq![base as usize, name as usize], t.span);
                Ok((n2, pos + 2, i))
            } else {
                let (n1, i) = push_spec(nodes, NodeKind::Deref, seq![base as usize], t.span);
                Ok((n1, pos + 1, i))
            }
        } else if k == TokKind::Ident && order_word_spec(src, t) != 0 {
            let kind = if order_word_spec(src, t) == 1 { NodeKind::Asc } else { NodeKind::Desc };
            let (n1, i) = push_spec(nodes, kind, seq![base as usize], t.span);
            Ok((n1, pos + 1, i))
        } else {
            Err(ErrorView::Empty(t.span))
        };
        match r {
            Err(ErrorView::Empty(_)) => Ok((nodes, pos, base)),
            Err(e) => Err(e),
            Ok((n, p, b)) => if pos < p <= toks.len() {
                postfix_loop(src, toks, n, p, b, depth)
            } else {
                Ok((n, p, b))
            },
        }
    }
}

/// The items of a bracketed list from token `pos` up to and including the
/// token `close`, with `acc` read so far.
pub open spec fn items_spec(
    src: Seq<u8>,
    toks: Seq<Token>,
    nodes: Seq<NodeView>,
    pos: nat,
    close: TokKind,
    in_object: bool,
    depth: nat,
    acc: Seq<usize>,
) -> ItemsStep
    decreases MAX_DEPTH - depth, 0nat, toks.len() - pos,
{
    if depth >= MAX_DEPTH {
        Err(too_deep(toks, pos))
    } else if pos >= toks.len() {
        Ok((nodes, pos, acc))
    } else if toks[pos as int].kind == close {
        Ok((nodes, pos + 1, acc))
    } else {
        let item: Step = if in_object && toks[pos as int].kind == TokKind::Ellipsis {
            leaf_spec(toks, nodes, pos, NodeKind::Spread)
        } else {
            match binary_spec(src, toks, nodes, pos, 1, depth + 1) {
                Err(e) => Err(e),
                Ok((n, p, key)) => if in_object && toks[p as int].kind == TokKind::Colon {
                    match binary_spec(src, toks, n, p + 1, 1, depth + 1) {
                        Err(e) => Err(e),
                        Ok((n2, p2, v)) => {
                            let (n3, i) = push_spec(n2, NodeKind::Field, seq![key as usize, v as usize], toks[p as int].span);
                            Ok((n3, p2, i))
                        },
                    }
                } else {
                    Ok((n, p, key))
                },
            }
        };
        match item {
            Err(e) => Err(e),
            Ok((n, p, it)) => {
                let k = toks[p as int].kind;
                if k != TokKind::Comma && k != close {
                    Err(ErrorView::Syntax(toks[p as int].span, seq![TokKind::Comma, close]))
                } else {
                    let p2 = if k == TokKind::Comma { p + 1 } else { p };
                    if pos < p2 <= toks.len() {
                        items_spec(src, toks, n, p2, close, in_object, depth, acc.push(it as usize))
                    } else {
                        Ok((n, p2, acc.push(it as usize)))
                    }
                }
            },
        }
    }
}

/// A single token, a bracketed list, a parenthesised expression or a call.
pub open spec fn primary_spec(src: Seq<u8>, toks: Seq<Token>, nodes: Seq<NodeView>, pos: nat, depth: nat) -> Step
    decreases MAX_DEPTH - depth, 0nat, 0nat,
{
    if depth >= MAX_DEPTH {
        Err(too_deep(toks, pos))
    } else {
        let t = toks[pos as int];
        match t.kind {
            TokKind::Ident => if text_is_spec(src, t.span, seq![116u8, 114u8, 117u8, 101u8]) {
                leaf_spec(toks, nodes, pos, NodeKind::True)
            } else if text_is_spec(src, t.span, seq![102u8, 97u8, 108u8, 115u8, 101u8]) {
                leaf_spec(toks, nodes, pos, NodeKind::False)
            } else if text_is_spec(src, t.span, seq![110u8, 117u8, 108u8, 108u8]) {
                leaf_spec(toks, nodes, pos, NodeKind::Null)
            } else if toks[pos + 1 as int].kind == TokKind::LParen {
                match items_spec(src, toks, nodes, pos + 2, TokKind::RParen, false, depth + 1, Seq::empty()) {
                    Err(e) => Err(e),
                    Ok((n, p, args)) => {
                        let (n1, name) = push_spec(n, NodeKind::Ident, Seq::empty(), t.span);
                        let (n2, i) = push_spec(n1, NodeKind::Call, seq![name as usize] + args, cover_spec(t.span, toks[p - 1 as int].span));
                        Ok((n2, p, i))
                    },
                }
            } else {
                leaf_spec(toks, nodes, pos, NodeKind::Ident)
            },
            TokKind::Str => leaf_spec(toks, nodes, pos, NodeKind::Str),
            TokKind::Num => leaf_spec(toks, nodes, pos, NodeKind::Num),
            TokKind::Param => leaf_spec(toks, nodes, pos, NodeKind::Param),
            TokKind::Star => leaf_spec(toks, nodes, pos, NodeKind::Everything),
            TokKind::At => leaf_spec(toks, nodes, pos, NodeKind::This),
            TokKind::Caret => leaf_spec(toks, nodes, pos, NodeKind::Parent),
            TokKind::LParen => match binary_spec(src, toks, nodes, pos + 1, 1, depth + 1) {
                Err(e) => Err(e),
                Ok((n, p, e)) => if toks[p as int].kind == TokKind::RParen {
                    let (n1, i) = push_spec(n, NodeKind::Group, seq![e as usize], cover_spec(t.span, toks[p as int].span));
                    Ok((n1, p + 1, i))
                } else {
                    Err(ErrorView::Syntax(toks[p as int].span, seq![TokKind::RParen]))
                },
            },
            TokKind::LBracket => match items_spec(src, toks, nodes, pos + 1, TokKind::RBracket, false, depth + 1, Seq::empty()) {
                Err(e) => Err(e),
                Ok((n, p, items)) => {
                    let (n1, i) = push_spec(n, NodeKind::Array, items, cover_spec(t.span, toks[p - 1 as int].span));
                    Ok((n1, p, i))
                },
            },
            TokKind::LBrace => match items_spec(src, toks, nodes, pos + 1, TokKind::RBrace, true, depth + 1, Seq::empty()) {
                Err(e) => Err(e),
                Ok((n, p, items)) => {
                    let (n1, i) = push_spec(n, NodeKind::Object, items, cover_spec(t.span, toks[p - 1 as int].span));
                    Ok((n1, p, i))
                },
            },
            _ => Err(ErrorView::Syntax(t.span, expr_starts_spec())),
        }
    }
}

/// What parsing a whole query yields: the arena, the root and the comments;
/// or the first error. A query of no tokens is empty; after the expression
/// only the end of input may follow.
pub open spec fn parse_spec(src: Seq<u8>) -> Result<(Seq<NodeView>, nat, Seq<Span>), ErrorView> {
    match lex_spec(src) {
        Err(s) => Err(ErrorView::Lex(s)),
        Ok((toks, cs)) => if toks[0].kind == TokKind::Eof {
            Err(ErrorView::Empty(toks[0].span))
        } else {
            match binary_spec(src, toks, Seq::empty(), 0, 1, 0) {
                Err(e) => Err(e),
                Ok((n, p, root)) => if toks[p as int].kind != TokKind::Eof {
                    Err(ErrorView::Syntax(toks[p as int].span, seq![TokKind::Eof]))
                } else {
                    Ok((n, root, cs))
                },
            }
        },
    }
}

/// `ast` is what `src` parses to: the same nodes, root and comments.
pub open spec fn parsed_as(src: Seq<u8>, ast: Ast) -> bool {
    parse_spec(src) == Ok::<(Seq<NodeView>, nat, Seq<Span>), ErrorView>(
        (nodes_view(ast.nodes@), ast.root as nat, ast.comments@),
    )
}

struct Parser<'a> {
    src: &'a [u8],
    toks: Vec<Token>,
    pos: usize,
    nodes: Vec<Node>,
    len: usize,
}

/// The token kinds that can start an expression.
fn expr_starts() -> (r: Vec<TokKind>)
    ensures
        r@.contains(TokKind::Ident),
        r@.contains(TokKind::Str),
        r@ == expr_starts_spec(),
{
    let r = vec![
        TokKind::Ident,
        TokKind::Str,
        TokKind::Num,
        TokKind::Param,
        TokKind::Star,
        TokKind::At,
        TokKind::Caret,
        TokKind::LParen,
        TokKind::LBracket,
        TokKind::LBrace,
        TokKind::Bang,
        TokKind::Minus,
        TokKind::Plus,
    ];
    assert(r@[0] == TokKind::Ident);
    assert(r@[1] == TokKind::Str);
    assert(r@ =~= expr_starts_spec());
    r
}

impl<'a> Parser<'a> {
    spec fn inv(&self) -> bool {
        &&& tokens_ok(self.toks@, self.len as nat)
        &&& self.pos < self.toks@.len()
        &&& arena_ok(self.nodes@, self.len as nat)
        &&& self.len == self.src@.len()
    }

    /// `newer` is `self` after some parsing: the same tokens, the cursor no
    /// further back, and the arena only grown.
    spec fn grows(&self, newer: &Parser) -> bool {
        &&& newer.inv()
        &&& newer.toks@ == self.toks@
        &&& newer.len == self.len
        &&& newer.src@ == self.src@
        &&& newer.pos >= self.pos
        &&& newer.nodes@.len() >= self.nodes@.len()
        &&& forall|k: int| 0 <= k < self.nodes@.len() ==> #[trigger] newer.nodes@[k] == self.nodes@[k]
    }

    spec fn nv(&self) -> Seq<NodeView> {
        nodes_view(self.nodes@)
    }

    spec fn items_outcome(&self, r: Result<(Vec<usize>, Token), QueryError>) -> ItemsStep {
        match r {
            Ok((items, _)) => Ok((self.nv(), self.pos as nat, items@)),
            Err(e) => Err(error_view(e)),
        }
    }

    spec fn outcome(&self, r: Result<usize, QueryError>) -> Step {
        match r {
            Ok(i) => Ok((self.nv(), self.pos as nat, i as nat)),
            Err(e) => Err(error_view(e)),
        }
    }

    /// Node `i` covers every token from the `p0`-th up to the cursor.
    spec fn covers(&self, p0: int, i: int) -> bool {
        &&& 0 <= p0 < self.pos
        &&& 0 <= i < self.nodes@.len()
        &&& self.nodes@[i].span.start <= self.toks@[p0].span.start
        &&& self.toks@[self.pos - 1].span.end <= self.nodes@[i].span.end
    }

    spec fn covered_result(&self, p0: int, r: Result<usize, QueryError>) -> bool {
        match r {
            Ok(i) => self.covers(p0, i as int),
            Err(_) => true,
        }
    }

    spec fn result_ok(&self, r: Result<usize, QueryError>) -> bool {
        match r {
            Ok(i) => i < self.nodes@.len(),
            Err(e) => e.span_of().valid(self.len as nat) && !(e is EmptyQuery) && !(e is LexError),
        }
    }

    fn peek(&self) -> (k: TokKind)
        requires
            self.inv(),
        ensures
            k == self.toks@[self.pos as int].kind,
    {
        self.toks[self.pos].kind
    }

    fn cur_span(&self) -> (s: Span)
        requires
            self.inv(),
        ensures
            s == self.toks@[self.pos as int].span,
            s.valid(self.len as nat),
    {
        self.toks[self.pos].span
    }

    fn advance(&mut self) -> (t: Token)
        requires
            old(self).inv(),
            old(self).toks@[old(self).pos as int].kind != TokKind::Eof,
        ensures
            old(self).grows(final(self)),
            final(self).pos == old(self).pos + 1,
            final(self).nodes@ == old(self).nodes@,
            t == old(self).toks@[old(self).pos as int],
            t.span.valid(old(self).len as nat),
    {
        let n = self.toks.len();
        assert(self.pos < n - 1);
        let t = self.toks[self.pos];
        self.pos = self.pos + 1;
        t
    }

    /// Consumes a token of kind `kind`, or fails naming it as expected.
    fn expect(&mut self, kind: TokKind) -> (r: Result<Token, QueryError>)
        requires
            old(self).inv(),
            kind != TokKind::Eof,
        ensures
            old(self).grows(final(self)),
            final(self).nodes@ == old(self).nodes@,
            match r {
                Ok(t) => t.span.valid(final(self).len as nat) && final(self).pos == old(self).pos + 1
                    && t == old(self).toks@[old(self).pos as int] && kind == t.kind,
                Err(e) => e.span_of().valid(final(self).len as nat) && !(e is EmptyQuery) && !(e is LexError)
                    && old(self).toks@[old(self).pos as int].kind != kind
                    && error_view(e) == ErrorView::Syntax(old(self).toks@[old(self).pos as int].span, seq![kind]),
            },
    {
        if self.peek() == kind {
            Ok(self.advance())
        } else {
            let expected = vec![kind];
            assert(expected@ =~= seq![kind]);
            Err(QueryError::SyntaxError { span: self.cur_span(), expected })
        }
    }

    /// Whether the bytes of `s` spell `word`.
    fn text_is(&self, s: Span, word: &[u8]) -> (r: bool)
        requires
            self.inv(),
            s.valid(self.len as nat),
        ensures
            r == text_is_spec(self.src@, s, word@),
    {
        if s.end - s.start != word.len() {
            assert(self.src@.subrange(s.start as int, s.end as int).len() != word@.len());
            return false;
        }
        let mut k: usize = 0;
        while k < word.len()
            invariant
                s.valid(self.len as nat),
                self.len == self.src@.len(),
                s.end - s.start == word@.len(),
                k <= word@.len(),
                forall|m: int| 0 <= m < k ==> self.src@[s.start + m] == #[trigger] word@[m],
            decreases word@.len() - k,
        {
            if self.src[s.start + k] != word[k] {
                assert(self.src@.subrange(s.start as int, s.end as int)[k as int] != word@[k as int]);
                return false;
            }
            k = k + 1;
        }
        assert(self.src@.subrange(s.start as int, s.end as int) =~= word@);
        true
    }

    /// 1 when the token at the cursor is the word `asc`, 2 when it is `desc`, else 0.
    fn order_word(&self) -> (r: u8)
        requires
            self.inv(),
        ensures
            r == order_word_spec(self.src@, self.toks@[self.pos as int]),
    {
        let s = self.cur_span();
        let asc = [97u8, 115u8, 99u8];
        let desc = [100u8, 101u8, 115u8, 99u8];
        assert(asc@ =~= seq![97u8, 115u8, 99u8]);
        assert(desc@ =~= seq![100u8, 101u8, 115u8, 99u8]);
        if self.text_is(s, &asc) {
            1
        } else if self.text_is(s, &desc) {
            2
        } else {
            0
        }
    }

    /// Adds a node whose span covers `extra` and the spans of all its children.
    fn push_node(&mut self, kind: NodeKind, children: Vec<usize>, extra: Span) -> (idx: usize)
        requires
            old(self).inv(),
            extra.valid(old(self).len as nat),
            forall|j: int| 0 <= j < children@.len() ==> #[trigger] children@[j] < old(self).nodes@.len(),
        ensures
            old(self).grows(final(self)),
            final(self).pos == old(self).pos,
            idx == old(self).nodes@.len(),
            final(self).nodes@.len() == idx + 1,
            extra.within(final(self).nodes@[idx as int].span),
            forall|j: int| 0 <= j < children@.len() ==> #[trigger] old(self).nodes@[children@[j] as int].span.within(final(self).nodes@[idx as int].span),
            children@.len() == 0 ==> final(self).nodes@[idx as int].span == extra,
            final(self).nv() == push_spec(old(self).nv(), kind, children@, extra).0,
            idx == push_spec(old(self).nv(), kind, children@, extra).1,
            children@.len() > 0 ==> final(self).nodes@[idx as int].span.start <= old(self).nodes@[children@[0] as int].span.start,
            children@.len() > 0 ==> old(self).nodes@[children@.last() as int].span.end <= final(self).nodes@[idx as int].span.end,
    {
        let mut span = extra;
        let mut k: usize = 0;
        while k < children.len()
            invariant
                self.inv(),
                span.valid(self.len as nat),
                extra.within(span),
                k <= children@.len(),
                cover_children(self.nv(), children@, 0, extra) == cover_children(self.nv(), children@, k as nat, span),
                k == 0 ==> span == extra,
                forall|j: int| 0 <= j < children@.len() ==> #[trigger] children@[j] < self.nodes@.len(),
                forall|j: int| 0 <= j < k ==> #[trigger] self.nodes@[children@[j] as int].span.within(span),
            decreases children@.len() - k,
        {
            let c = children[k];
            assert(node_ok(self.nodes@, c as int, self.len as nat));
            let ghost prev = span;
            span = span.cover(self.nodes[c].span);
            assert(self.nv()[c as int].1 == self.nodes@[c as int].span);
            assert(span == cover_spec(prev, self.nv()[children@[k as int] as int].1));
            assert forall|j: int| 0 <= j <= k implies #[trigger] self.nodes@[children@[j] as int].span.within(span) by {
                if j < k {
                    assert(self.nodes@[children@[j] as int].span.within(prev));
                }
            }
            k = k + 1;
        }
        if children.len() > 0 {
            assert(self.nodes@[children@[0] as int].span.within(span));
            assert(self.nodes@[children@[children@.len() - 1] as int].span.within(span));
        }
        let idx = self.nodes.len();
        let ghost before = self.nodes@;
        let ghost cs = children@;
        let node = Node { kind, span, children };
        self.nodes.push(node);
        assert(self.nv() =~= nodes_view(before).push((kind, span, cs)));
        assert forall|i: int| 0 <= i < self.nodes@.len() implies #[trigger] node_ok(self.nodes@, i, self.len as nat) by {
            if i < idx {
                assert(node_ok(before, i, self.len as nat));
                assert(self.nodes@[i] == before[i]);
            } else {
                assert(self.nodes@[i].children@ == children@);
            }
        }
        idx
    }

    /// The binary operator at the cursor: the operator, its precedence and
    /// whether it groups to the right.
    fn binop_here(&self) -> (r: Option<(BinOp, u8, bool)>)
        requires
            self.inv(),
        ensures
            match r {
                Some((_, prec, _)) => 1 <= prec <= POW_PREC && self.toks@[self.pos as int].kind != TokKind::Eof,
                None => true,
            },
            r == binop_spec(self.src@, self.toks@[self.pos as int]),
    {
        let k = self.peek();
        match k {
            TokKind::FatArrow => Some((BinOp::Pair, 1, true)),
            TokKind::Pipe => Some((BinOp::Pipe, 2, false)),
            TokKind::OrOr => Some((BinOp::Or, 3, false)),
            TokKind::AndAnd => Some((BinOp::And, 4, false)),
            TokKind::EqEq => Some((BinOp::Eq, 5, false)),
            TokKind::NotEq => Some((BinOp::Neq, 5, false)),
            TokKind::Lt => Some((BinOp::Lt, 5, false)),
            TokKind::Le => Some((BinOp::Le, 5, false)),
            TokKind::Gt => Some((BinOp::Gt, 5, false)),
            TokKind::Ge => Some((BinOp::Ge, 5, false)),
            TokKind::Ident => {
                let s = self.cur_span();
                let w_in = [105u8, 110u8];
                let w_match = [109u8, 97u8, 116u8, 99u8, 104u8];
                assert(w_in@ =~= seq![105u8, 110u8]);
                assert(w_match@ =~= seq![109u8, 97u8, 116u8, 99u8, 104u8]);
                if self.text_is(s, &w_in) {
                    Some((BinOp::In, 5, false))
                } else if self.text_is(s, &w_match) {
                    Some((BinOp::Match, 5, false))
                } else {
                    None
                }
            },
            TokKind::DotDot => Some((BinOp::Range, 6, false)),
            TokKind::Ellipsis => Some((BinOp::RangeExcl, 6, false)),
            TokKind::Plus => Some((BinOp::Add, 7, false)),
            TokKind::Minus => Some((BinOp::Sub, 7, false)),
            TokKind::Star => Some((BinOp::Mul, 8, false)),
            TokKind::Slash => Some((BinOp::Div, 8, false)),
            TokKind::Percent => Some((BinOp::Mod, 8, false)),
            TokKind::StarStar => Some((BinOp::Pow, POW_PREC, true)),
            _ => None,
        }
    }

    fn too_deep(&self) -> (r: Result<usize, QueryError>)
        requires
            self.inv(),
        ensures
            r is Err,
            self.result_ok(r),
            self.outcome(r) == Err::<(Seq<NodeView>, nat, nat), ErrorView>(too_deep(self.toks@, self.pos as nat)),
    {
        Err(QueryError::ResourceLimitExceeded { span: self.cur_span() })
    }

    fn leaf(&mut self, kind: NodeKind, t: Token) -> (idx: usize)
        requires
            old(self).inv(),
            t.span.valid(old(self).len as nat),
        ensures
            old(self).grows(final(self)),
            idx < final(self).nodes@.len(),
            final(self).pos == old(self).pos,
            final(self).nodes@[idx as int].span == t.span,
            final(self).nv() == push_spec(old(self).nv(), kind, Seq::empty(), t.span).0,
            idx == push_spec(old(self).nv(), kind, Seq::empty(), t.span).1,
    {
        let ch: Vec<usize> = Vec::new();
        assert(ch@ =~= Seq::<usize>::empty());
        self.push_node(kind, ch, t.span)
    }

    /// An expression whose operators all bind at least as tightly as `min_prec`.
    fn parse_binary(&mut self, min_prec: u8, depth: usize) -> (r: Result<usize, QueryError>)
        requires
            old(self).inv(),
            depth <= MAX_DEPTH,
        ensures
            old(self).grows(final(self)),
            final(self).result_ok(r),
            final(self).covered_result(old(self).pos as int, r),
            final(self).outcome(r) == binary_spec(old(self).src@, old(self).toks@, old(self).nv(), old(self).pos as nat, min_prec as nat, depth as nat),
        decreases MAX_DEPTH - depth, 0nat,
    {
        if depth >= MAX_DEPTH {
            return self.too_deep();
        }
        let ghost s0 = self.nv();
        let ghost p0 = self.pos as nat;
        let first = self.parse_unary(depth + 1);
        let mut lhs = match first {
            Ok(i) => i,
            Err(e) => {
                assert(binary_spec(self.src@, self.toks@, s0, p0, min_prec as nat, depth as nat) == Err::<(Seq<NodeView>, nat, nat), ErrorView>(error_view(e)));
                return Err(e);
            },
        };
        assert(binary_spec(self.src@, self.toks@, s0, p0, min_prec as nat, depth as nat) == binary_loop(self.src@, self.toks@, self.nv(), self.pos as nat, lhs as nat, min_prec as nat, depth as nat));
        loop
            invariant
                old(self).grows(self),
                lhs < self.nodes@.len(),
                depth < MAX_DEPTH,
                self.covers(old(self).pos as int, lhs as int),
                binary_spec(old(self).src@, old(self).toks@, old(self).nv(), old(self).pos as nat, min_prec as nat, depth as nat)
                    == binary_loop(self.src@, self.toks@, self.nv(), self.pos as nat, lhs as nat, min_prec as nat, depth as nat),
            ensures
                old(self).grows(self),
                lhs < self.nodes@.len(),
                self.covers(old(self).pos as int, lhs as int),
                binary_spec(old(self).src@, old(self).toks@, old(self).nv(), old(self).pos as nat, min_prec as nat, depth as nat)
                    == Ok::<(Seq<NodeView>, nat, nat), ErrorView>((self.nv(), self.pos as nat, lhs as nat)),
            decreases self.toks@.len() - self.pos,
        {
            let ghost here = binary_loop(self.src@, self.toks@, self.nv(), self.pos as nat, lhs as nat, min_prec as nat, depth as nat);
            match self.binop_here() {
                None => {
                    assert(here == Ok::<(Seq<NodeView>, nat, nat), ErrorView>((self.nv(), self.pos as nat, lhs as nat)));
                    break ;
                },
                Some((op, prec, right)) => {
                    if prec < min_prec {
                        assert(here == Ok::<(Seq<NodeView>, nat, nat), ErrorView>((self.nv(), self.pos as nat, lhs as nat)));
                        break ;
                    }
                    let t = self.advance();
                    let next = if right { prec } else { prec + 1 };
                    let ghost s1 = self.nv();
                    let ghost p1 = self.pos as nat;
                    let res = self.parse_binary(next, depth + 1);
                    let rhs = match res {
                        Ok(i) => i,
                        Err(e) => {
                            assert(binary_spec(self.src@, self.toks@, s1, p1, next as nat, (depth + 1) as nat) == Err::<(Seq<NodeView>, nat, nat), ErrorView>(error_view(e)));
                            assert(here == Err::<(Seq<NodeView>, nat, nat), ErrorView>(error_view(e)));
                            return Err(e);
                        },
                    };
                    let ch = vec![lhs, rhs];
                    assert(ch@ =~= seq![lhs, rhs]);
                    lhs = self.push_node(NodeKind::Binary(op), ch, t.span);
                },
            }
        }
        Ok(lhs)
    }

    /// A prefix operator applied to an operand, or a postfix expression.
    fn parse_unary(&mut self, depth: usize) -> (r: Result<usize, QueryError>)
        requires
            old(self).inv(),
            depth <= MAX_DEPTH,
        ensures
            old(self).grows(final(self)),
            final(self).result_ok(r),
            final(self).covered_result(old(self).pos as int, r),
            final(self).outcome(r) == unary_spec(old(self).src@, old(self).toks@, old(self).nv(), old(self).pos as nat, depth as nat),
        decreases MAX_DEPTH - depth, 0nat,
    {
        if depth >= MAX_DEPTH {
            return self.too_deep();
        }
        let k = self.peek();
        if k == TokKind::Bang {
            let t = self.advance();
            let e = self.parse_unary(depth + 1)?;
            let ch = vec![e];
            assert(ch@ =~= seq![e]);
            Ok(self.push_node(NodeKind::Not, ch, t.span))
        } else if k == TokKind::Minus || k == TokKind::Plus {
            let t = self.advance();
            let e = self.parse_binary(POW_PREC, depth + 1)?;
            let kind = if k == TokKind::Minus { NodeKind::Neg } else { NodeKind::Pos };
            let ch = vec![e];
            assert(ch@ =~= seq![e]);
            Ok(self.push_node(kind, ch, t.span))
        } else {
            self.parse_postfix(depth + 1)
        }
    }

    /// A primary expression followed by any number of attribute accesses,
    /// filters, traversals, projections and dereferences.
    #[verifier::rlimit(100)]
    fn parse_postfix(&mut self, depth: usize) -> (r: Result<usize, QueryError>)
        requires
            old(self).inv(),
            depth <= MAX_DEPTH,
        ensures
            old(self).grows(final(self)),
            final(self).result_ok(r),
            final(self).covered_result(old(self).pos as int, r),
            final(self).outcome(r) == postfix_spec(old(self).src@, old(self).toks@, old(self).nv(), old(self).pos as nat, depth as nat),
        decreases MAX_DEPTH - depth, 0nat,
    {
        if depth >= MAX_DEPTH {
            return self.too_deep();
        }
        let mut base = self.parse_primary(depth + 1)?;
        loop
            invariant
                old(self).grows(self),
                base < self.nodes@.len(),
                depth < MAX_DEPTH,
                self.covers(old(self).pos as int, base as int),
                postfix_spec(old(self).src@, old(self).toks@, old(self).nv(), old(self).pos as nat, depth as nat)
                    == postfix_loop(self.src@, self.toks@, self.nv(), self.pos as nat, base as nat, depth as nat),
            ensures
                old(self).grows(self),
                base < self.nodes@.len(),
                self.covers(old(self).pos as int, base as int),
                postfix_spec(old(self).src@, old(self).toks@, old(self).nv(), old(self).pos as nat, depth as nat)
                    == Ok::<(Seq<NodeView>, nat, nat), ErrorView>((self.nv(), self.pos as nat, base as nat)),
            decreases self.toks@.len() - self.pos,
        {
            let ghost here = postfix_loop(self.src@, self.toks@, self.nv(), self.pos as nat, base as nat, depth as nat);
            let k = self.peek();
            if k == TokKind::Dot {
                let t = self.advance();
                let name_tok = self.expect(TokKind::Ident)?;
                let name = self.leaf(NodeKind::Ident, name_tok);
                let ch = vec![base, name];
                assert(ch@ =~= seq![base, name]);
                base = self.push_node(NodeKind::Attribute, ch, t.span);
            } else if k == TokKind::LBracket {
                let open = self.advance();
                if self.peek() == TokKind::RBracket {
                    let close = self.advance();
                    let ch = vec![base];
                    assert(ch@ =~= seq![base]);
                    base = self.push_node(NodeKind::Traverse, ch, open.span.cover(close.span));
                } else {
                    let cond = self.parse_binary(1, depth + 1)?;
                    let close = self.expect(TokKind::RBracket)?;
                    let ch = vec![base, cond];
                    assert(ch@ =~= seq![base, cond]);
                    base = self.push_node(NodeKind::Filter, ch, open.span.cover(close.span));
                }
            } else if k == TokKind::LBrace {
                let open = self.advance();
                let (mut fields, close) = self.parse_items(TokKind::RBrace, true, depth + 1)?;
                let ghost fs = fields@;
                fields.insert(0, base);
                assert(fields@ =~= seq![base] + fs);
                base = self.push_node(NodeKind::Projection, fields, open.span.cover(close.span));
            } else if k == TokKind::Arrow {
                let t = self.advance();
                if self.peek() == TokKind::Ident {
                    let name_tok = self.advance();
                    let name = self.leaf(NodeKind::Ident, name_tok);
                    let ch = vec![base, name];
                    assert(ch@ =~= seq![base, name]);
                    base = self.push_node(NodeKind::Deref, ch, t.span);
                } else {
                    let ch = vec![base];
                    assert(ch@ =~= seq![base]);
                    base = self.push_node(NodeKind::Deref, ch, t.span);
                }
            } else if k == TokKind::Ident && self.order_word() != 0 {
                let word = self.order_word();
                let t = self.advance();
                let kind = if word == 1 { NodeKind::Asc } else { NodeKind::Desc };
                let ch = vec![base];
                assert(ch@ =~= seq![base]);
                base = self.push_node(kind, ch, t.span);
            } else {
                assert(here == Ok::<(Seq<NodeView>, nat, nat), ErrorView>((self.nv(), self.pos as nat, base as nat)));
                break ;
            }
        }
        Ok(base)
    }

    /// The items of a bracketed list up to and including its closing token:
    /// expressions separated by commas, with an optional trailing comma. In an
    /// object, an item may be `...` or `key: value`.
    fn parse_items(&mut self, close: TokKind, in_object: bool, depth: usize) -> (r: Result<(Vec<usize>, Token), QueryError>)
        requires
            old(self).inv(),
            depth <= MAX_DEPTH,
            close != TokKind::Eof,
        ensures
            old(self).grows(final(self)),
            match r {
                Ok((items, t)) => t.span.valid(final(self).len as nat) && (forall|j: int|
                    0 <= j < items@.len() ==> #[trigger] items@[j] < final(self).nodes@.len())
                    && final(self).pos > old(self).pos && t == final(self).toks@[final(self).pos - 1],
                Err(e) => e.span_of().valid(final(self).len as nat) && !(e is EmptyQuery) && !(e is LexError),
            },
            final(self).items_outcome(r) == items_spec(old(self).src@, old(self).toks@, old(self).nv(), old(self).pos as nat, close, in_object, depth as nat, Seq::empty()),
        decreases MAX_DEPTH - depth, 0nat,
    {
        if depth >= MAX_DEPTH {
            return Err(QueryError::ResourceLimitExceeded { span: self.cur_span() });
        }
        let mut items: Vec<usize> = Vec::new();
        loop
            invariant
                old(self).grows(self),
                forall|j: int| 0 <= j < items@.len() ==> #[trigger] items@[j] < self.nodes@.len(),
                depth < MAX_DEPTH,
                close != TokKind::Eof,
                items_spec(old(self).src@, old(self).toks@, old(self).nv(), old(self).pos as nat, close, in_object, depth as nat, Seq::empty())
                    == items_spec(self.src@, self.toks@, self.nv(), self.pos as nat, close, in_object, depth as nat, items@),
            decreases self.toks@.len() - self.pos,
        {
            let ghost here = items_spec(self.src@, self.toks@, self.nv(), self.pos as nat, close, in_object, depth as nat, items@);
            let ghost p0 = self.pos;
            if self.peek() == close {
                let t = self.advance();
                return Ok((items, t));
            }
            let item;
            if in_object && self.peek() == TokKind::Ellipsis {
                let t = self.advance();
                item = self.leaf(NodeKind::Spread, t);
            } else {
                let key = self.parse_binary(1, depth + 1)?;
                if in_object && self.peek() == TokKind::Colon {
                    let t = self.advance();
                    let value = self.parse_binary(1, depth + 1)?;
                    let ch = vec![key, value];
                    assert(ch@ =~= seq![key, value]);
                    item = self.push_node(NodeKind::Field, ch, t.span);
                } else {
                    item = key;
                }
            }
            let ghost acc = items@;
            items.push(item);
            let k = self.peek();
            if k == TokKind::Comma {
                self.advance();
            } else if k != close {
                let expected = vec![TokKind::Comma, close];
                assert(expected@ =~= seq![TokKind::Comma, close]);
                return Err(QueryError::SyntaxError { span: self.cur_span(), expected });
            }
            assert(self.pos > p0);
            assert(items@ == acc.push(item));
        }
    }

    /// A single token, a bracketed list, a parenthesised expression or a call.
    #[verifier::rlimit(60)]
    fn parse_primary(&mut self, depth: usize) -> (r: Result<usize, QueryError>)
        requires
            old(self).inv(),
            depth <= MAX_DEPTH,
        ensures
            old(self).grows(final(self)),
            final(self).result_ok(r),
            final(self).covered_result(old(self).pos as int, r),
            final(self).outcome(r) == primary_spec(old(self).src@, old(self).toks@, old(self).nv(), old(self).pos as nat, depth as nat),
        decreases MAX_DEPTH - depth, 0nat,
    {
        if depth >= MAX_DEPTH {
            return self.too_deep();
        }
        let k = self.peek();
        match k {
            TokKind::Ident => {
                let t = self.advance();
                let w_true = [116u8, 114u8, 117u8, 101u8];
                let w_false = [102u8, 97u8, 108u8, 115u8, 101u8];
                let w_null = [110u8, 117u8, 108u8, 108u8];
                assert(w_true@ =~= seq![116u8, 114u8, 117u8, 101u8]);
                assert(w_false@ =~= seq![102u8, 97u8, 108u8, 115u8, 101u8]);
                assert(w_null@ =~= seq![110u8, 117u8, 108u8, 108u8]);
                if self.text_is(t.span, &w_true) {
                    Ok(self.leaf(NodeKind::True, t))
                } else if self.text_is(t.span, &w_false) {
                    Ok(self.leaf(NodeKind::False, t))
                } else if self.text_is(t.span, &w_null) {
                    Ok(self.leaf(NodeKind::Null, t))
                } else if self.peek() == TokKind::LParen {
                    self.advance();
                    let (mut args, close) = self.parse_items(TokKind::RParen, false, depth + 1)?;
                    let name = self.leaf(NodeKind::Ident, t);
                    let ghost rest = args@;
                    args.insert(0, name);
                    assert(args@ =~= seq![name] + rest);
                    Ok(self.push_node(NodeKind::Call, args, t.span.cover(close.span)))
                } else {
                    Ok(self.leaf(NodeKind::Ident, t))
                }
            },
            TokKind::Str => {
                let t = self.advance();
                Ok(self.leaf(NodeKind::Str, t))
            },
            TokKind::Num => {
                let t = self.advance();
                Ok(self.leaf(NodeKind::Num, t))
            },
            TokKind::Param => {
                let t = self.advance();
                Ok(self.leaf(NodeKind::Param, t))
            },
            TokKind::Star => {
                let t = self.advance();
                Ok(self.leaf(NodeKind::Everything, t))
            },
            TokKind::At => {
                let t = self.advance();
                Ok(self.leaf(NodeKind::This, t))
            },
            TokKind::Caret => {
                let t = self.advance();
                Ok(self.leaf(NodeKind::Parent, t))
            },
            TokKind::LParen => {
                let open = self.advance();
                let e = self.parse_binary(1, depth + 1)?;
                let close = self.expect(TokKind::RParen)?;
                let ch = vec![e];
                assert(ch@ =~= seq![e]);
                Ok(self.push_node(NodeKind::Group, ch, open.span.cover(close.span)))
            },
            TokKind::LBracket => {
                let open = self.advance();
                let (items, close) = self.parse_items(TokKind::RBracket, false, depth + 1)?;
                Ok(self.push_node(NodeKind::Array, items, open.span.cover(close.span)))
            },
            TokKind::LBrace => {
                let open = self.advance();
                let (items, close) = self.parse_items(TokKind::RBrace, true, depth + 1)?;
                Ok(self.push_node(NodeKind::Object, items, open.span.cover(close.span)))
            },
            _ => Err(QueryError::SyntaxError { span: self.cur_span(), expected: expr_starts() }),
        }
    }
}

} // verus!

verus! {

/// Reads a whole query into a syntax tree. Fails on an empty query, on a
/// malformed token, on a token the grammar cannot use, on anything left after
/// the expression, and on nesting deeper than the parser allows.
pub fn parse(src: &[u8]) -> (r: Result<Ast, QueryError>)
    ensures
        match r {
            Ok(ast) => ast.wf(src@.len()) && forall|k: int|
                0 <= k < src@.len() && !is_space(#[trigger] src@[k]) && !in_comment(ast.comments@, k)
                    ==> ast.nodes@[ast.root as int].span.start <= k < ast.nodes@[ast.root as int].span.end,
            Err(e) => {
                &&& e.span_of().valid(src@.len())
                &&& (e is EmptyQuery ==> blank(src@))
                &&& (e is LexError ==> lex_error_at(src@, e.span_of()))
            },
        },
        lex_spec(src@) is Err ==> r == Err::<Ast, QueryError>(QueryError::LexError { span: lex_spec(src@)->Err_0 }),
        lex_spec(src@) is Ok && lex_spec(src@)->Ok_0.0.len() == 1 ==> r is Err && r->Err_0 is EmptyQuery,
        match r {
            Ok(ast) => parse_spec(src@) == Ok::<(Seq<NodeView>, nat, Seq<Span>), ErrorView>(
                (nodes_view(ast.nodes@), ast.root as nat, ast.comments@),
            ),
            Err(e) => parse_spec(src@) == Err::<(Seq<NodeView>, nat, Seq<Span>), ErrorView>(error_view(e)),
        },
{
    let (toks, comments) = tokenize_with_comments(src)?;
    if toks[0].kind == TokKind::Eof {
        proof {
            assert(toks@.len() == 1);
            assert forall|k: int| 0 <= k < src@.len() implies is_space(#[trigger] src@[k]) || in_comment(comments@, k) by {
                assert(covered(src@, toks@, comments@, k));
                if in_token(toks@, k) {
                    let t = choose|t: int| 0 <= t < toks@.len() && #[trigger] toks@[t].span.start <= k < toks@[t].span.end;
                    assert(t == 0);
                }
            }
            assert(blank(src@));
        }
        return Err(QueryError::EmptyQuery { span: toks[0].span });
    }
    assert forall|k: int| 0 <= k < comments@.len() implies #[trigger] comments@[k].valid(src@.len()) by {
        assert(is_comment(src@, comments@[k]));
    }
    let mut p = Parser { src, toks, pos: 0, nodes: Vec::new(), len: src.len() };
    assert(p.nv() =~= Seq::<NodeView>::empty());
    let root = p.parse_binary(1, 0)?;
    if p.peek() != TokKind::Eof {
        let expected = vec![TokKind::Eof];
        assert(expected@ =~= seq![TokKind::Eof]);
        return Err(QueryError::SyntaxError { span: p.cur_span(), expected });
    }
    proof {
        let toks = p.toks@;
        let last = p.pos - 1;
        assert(p.pos == toks.len() - 1);
        assert forall|k: int|
            0 <= k < src@.len() && !is_space(#[trigger] src@[k]) && !in_comment(comments@, k) implies p.nodes@[root as int].span.start <= k < p.nodes@[root as int].span.end by {
            assert(covered(src@, toks, comments@, k));
            let t = choose|t: int| 0 <= t < toks.len() && #[trigger] toks[t].span.start <= k < toks[t].span.end;
            assert(t < toks.len() - 1);
            if t > 0 {
                assert(toks[0].span.end <= toks[t].span.start);
                assert(toks[0].span.start < toks[0].span.end);
            }
            if t < last {
                assert(toks[t].span.end <= toks[last].span.start);
                assert(toks[last].span.start < toks[last].span.end);
            }
        }
    }
    Ok(Ast { nodes: p.nodes, root, comments })
}

} // verus!
