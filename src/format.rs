//! The formatter: a tree becomes a document of layout primitives, which is
//! laid out within a line width.
use vstd::prelude::*;

use crate::ast::{Ast, BinOp, NodeKind, node_ok};
use crate::parser::{parse, parse_spec, parsed_as, error_view, NodeView, ErrorView};
use crate::span::Span;
use crate::lexer::{blank, lex_error_at, lex_spec};
use crate::token::QueryError;
use vstd::string::StringSliceAdditionalSpecFns;
use vstd::utf8::{decode_utf8, encode_utf8_decode_utf8, is_char_boundary};

verus! {

/// The line width used when the caller gives none.
pub const DEFAULT_WIDTH: usize = 80;

/// Spaces per indentation level.
pub const INDENT: usize = 2;

/// One layout primitive of a document. A document is a flat sequence of them
/// in which groups and indentation scopes open and close like brackets.
#[derive(Clone, Copy, Debug, PartialEq, Eq)]
pub enum DocOp {
    /// Fixed text.
    Text(&'static str),
    /// The query's own text over a span.
    Src(Span),
    /// A space on one line, or a line break.
    Line,
    /// Nothing on one line, or a line break.
    SoftLine,
    /// A required line break.
    HardLine,
    /// Breaks after this are indented one level deeper.
    Indent,
    /// Ends the innermost `Indent`.
    Dedent,
    /// Opens a group: laid out on one line when it fits, else broken.
    GroupStart,
    /// Closes the innermost group.
    GroupEnd,
}

/// Every span of the document lies in a text of `len` bytes.
pub open spec fn doc_ok(doc: Seq<DocOp>, len: nat) -> bool {
    forall|k: int| 0 <= k < doc.len() ==> match #[trigger] doc[k] {
        DocOp::Src(s) => s.valid(len),
        _ => true,
    }
}

/// The text of an operator kept on one line, with a space on each side
/// except for ranges.
pub open spec fn binop_text(op: BinOp) -> &'static str {
    match op {
        BinOp::Pair => " => ",
        BinOp::Pipe => " | ",
        BinOp::Or => " || ",
        BinOp::And => " && ",
        BinOp::Eq => " == ",
        BinOp::Neq => " != ",
        BinOp::Lt => " < ",
        BinOp::Le => " <= ",
        BinOp::Gt => " > ",
        BinOp::Ge => " >= ",
        BinOp::In => " in ",
        BinOp::Match => " match ",
        BinOp::Range => "..",
        BinOp::RangeExcl => "...",
        BinOp::Add => " + ",
        BinOp::Sub => " - ",
        BinOp::Mul => " * ",
        BinOp::Div => " / ",
        BinOp::Mod => " % ",
        BinOp::Pow => " ** ",
    }
}

fn binop_text_of(op: BinOp) -> (r: &'static str)
    ensures
        r == binop_text(op),
{
    match op {
        BinOp::Pair => " => ",
        BinOp::Pipe => " | ",
        BinOp::Or => " || ",
        BinOp::And => " && ",
        BinOp::Eq => " == ",
        BinOp::Neq => " != ",
        BinOp::Lt => " < ",
        BinOp::Le => " <= ",
        BinOp::Gt => " > ",
        BinOp::Ge => " >= ",
        BinOp::In => " in ",
        BinOp::Match => " match ",
        BinOp::Range => "..",
        BinOp::RangeExcl => "...",
        BinOp::Add => " + ",
        BinOp::Sub => " - ",
        BinOp::Mul => " * ",
        BinOp::Div => " / ",
        BinOp::Mod => " % ",
        BinOp::Pow => " ** ",
    }
}

/// Operators after which a line may break: all but the ranges.
pub open spec fn breakable(op: BinOp) -> bool {
    op != BinOp::Range && op != BinOp::RangeExcl
}

/// The text of an operator that may end a line: a space before it only
/// (none for the ranges, which never end one).
pub open spec fn binop_lead(op: BinOp) -> &'static str {
    match op {
        BinOp::Pair => " =>",
        BinOp::Pipe => " |",
        BinOp::Or => " ||",
        BinOp::And => " &&",
        BinOp::Eq => " ==",
        BinOp::Neq => " !=",
        BinOp::Lt => " <",
        BinOp::Le => " <=",
        BinOp::Gt => " >",
        BinOp::Ge => " >=",
        BinOp::In => " in",
        BinOp::Match => " match",
        BinOp::Range => "..",
        BinOp::RangeExcl => "...",
        BinOp::Add => " +",
        BinOp::Sub => " -",
        BinOp::Mul => " *",
        BinOp::Div => " /",
        BinOp::Mod => " %",
        BinOp::Pow => " **",
    }
}

fn binop_lead_of(op: BinOp) -> (r: &'static str)
    ensures
        r == binop_lead(op),
{
    match op {
        BinOp::Pair => " =>",
        BinOp::Pipe => " |",
        BinOp::Or => " ||",
        BinOp::And => " &&",
        BinOp::Eq => " ==",
        BinOp::Neq => " !=",
        BinOp::Lt => " <",
        BinOp::Le => " <=",
        BinOp::Gt => " >",
        BinOp::Ge => " >=",
        BinOp::In => " in",
        BinOp::Match => " match",
        BinOp::Range => "..",
        BinOp::RangeExcl => "...",
        BinOp::Add => " +",
        BinOp::Sub => " -",
        BinOp::Mul => " *",
        BinOp::Div => " /",
        BinOp::Mod => " %",
        BinOp::Pow => " **",
    }
}

/// The word of an ordering node, with the space before it.
pub open spec fn order_text(kind: NodeKind) -> &'static str {
    if kind == NodeKind::Asc {
        " asc"
    } else {
        " desc"
    }
}

/// The sign of a prefix operator node.
pub open spec fn sign(kind: NodeKind) -> &'static str {
    match kind {
        NodeKind::Not => "!",
        NodeKind::Neg => "-",
        _ => "+",
    }
}

/// The comments from the `next`-th on that start before `pos`, each
/// followed by a required line break, and the index of the first comment
/// left.
pub open spec fn comments_before(ast: Ast, pos: usize, next: nat) -> (Seq<DocOp>, nat)
    decreases ast.comments@.len() - next,
{
    if next < ast.comments@.len() && ast.comments@[next as int].start < pos {
        let rest = comments_before(ast, pos, next + 1);
        (seq![DocOp::Src(ast.comments@[next as int]), DocOp::HardLine] + rest.0, rest.1)
    } else {
        (Seq::empty(), next)
    }
}

/// The comments from the `next`-th on that start before `pos`, each on a
/// line of its own, and the index of the first comment left.
pub open spec fn trailing_comments(ast: Ast, pos: usize, next: nat) -> (Seq<DocOp>, nat)
    decreases ast.comments@.len() - next,
{
    if next < ast.comments@.len() && ast.comments@[next as int].start < pos {
        let rest = trailing_comments(ast, pos, next + 1);
        (seq![DocOp::Line, DocOp::Src(ast.comments@[next as int])] + rest.0, rest.1)
    } else {
        (Seq::empty(), next)
    }
}

/// Where the closing bracket of list node `i` starts: the last byte of its span.
pub open spec fn close_pos(ast: Ast, i: nat) -> usize {
    let e = ast.nodes@[i as int].span.end;
    if e > 0 {
        (e - 1) as usize
    } else {
        0
    }
}

/// The document of the subtree at `i`, with the comments from the `next`-th
/// on placed before the leaves they precede, and the index of the first
/// comment left.
pub open spec fn build_spec(ast: Ast, i: nat, next: nat) -> (Seq<DocOp>, nat)
    decreases i, 2nat, 0nat,
{
    let n = ast.nodes@[i as int];
    let c = n.children@;
    let two = c.len() == 2 && c[0] < i && c[1] < i;
    let has_first = c.len() >= 1 && c[0] < i;
    match n.kind {
        NodeKind::Binary(op) => if two {
            let l = build_spec(ast, c[0] as nat, next);
            let r = build_spec(ast, c[1] as nat, l.1);
            if breakable(op) {
                (seq![DocOp::GroupStart] + l.0 + seq![DocOp::Text(binop_lead(op)), DocOp::Line] + r.0
                    + seq![DocOp::GroupEnd], r.1)
            } else {
                (l.0 + seq![DocOp::Text(binop_text(op))] + r.0, r.1)
            }
        } else {
            (Seq::empty(), next)
        },
        NodeKind::Not | NodeKind::Neg | NodeKind::Pos => if c.len() == 1 && c[0] < i {
            let b = build_spec(ast, c[0] as nat, next);
            (seq![DocOp::Text(sign(n.kind))] + b.0, b.1)
        } else {
            (seq![DocOp::Text(sign(n.kind))], next)
        },
        NodeKind::Group => if c.len() == 1 && c[0] < i {
            let b = build_spec(ast, c[0] as nat, next);
            (seq![DocOp::Text("(")] + b.0 + seq![DocOp::Text(")")], b.1)
        } else {
            (seq![DocOp::Text("("), DocOp::Text(")")], next)
        },
        NodeKind::Filter => if two {
            let l = build_spec(ast, c[0] as nat, next);
            let r = build_spec(ast, c[1] as nat, l.1);
            (l.0 + seq![DocOp::GroupStart, DocOp::Text("["), DocOp::Indent, DocOp::SoftLine] + r.0
                + seq![DocOp::Dedent, DocOp::SoftLine, DocOp::Text("]"), DocOp::GroupEnd], r.1)
        } else {
            (Seq::empty(), next)
        },
        NodeKind::Traverse => if c.len() == 1 && c[0] < i {
            let b = build_spec(ast, c[0] as nat, next);
            (b.0 + seq![DocOp::Text("[]")], b.1)
        } else {
            (seq![DocOp::Text("[]")], next)
        },
        NodeKind::Projection => {
            let b = if has_first { build_spec(ast, c[0] as nat, next) } else { (Seq::empty(), next) };
            let l = list_spec(ast, i, 1, "{", "}", b.1);
            (b.0 + l.0, l.1)
        },
        NodeKind::Attribute => if two {
            let l = build_spec(ast, c[0] as nat, next);
            let r = build_spec(ast, c[1] as nat, l.1);
            (l.0 + seq![DocOp::Text(".")] + r.0, r.1)
        } else {
            (Seq::empty(), next)
        },
        NodeKind::Deref => {
            let b = if has_first { build_spec(ast, c[0] as nat, next) } else { (Seq::empty(), next) };
            if c.len() == 2 && c[1] < i {
                let r = build_spec(ast, c[1] as nat, b.1);
                (b.0 + seq![DocOp::Text("->")] + r.0, r.1)
            } else {
                (b.0 + seq![DocOp::Text("->")], b.1)
            }
        },
        NodeKind::Call => {
            let b = if has_first { build_spec(ast, c[0] as nat, next) } else { (Seq::empty(), next) };
            let l = list_spec(ast, i, 1, "(", ")", b.1);
            (b.0 + l.0, l.1)
        },
        NodeKind::Asc | NodeKind::Desc => {
            let b = if has_first { build_spec(ast, c[0] as nat, next) } else { (Seq::empty(), next) };
            (b.0 + seq![DocOp::Text(order_text(n.kind))], b.1)
        },
        NodeKind::Array => list_spec(ast, i, 0, "[", "]", next),
        NodeKind::Object => list_spec(ast, i, 0, "{", "}", next),
        NodeKind::Field => if two {
            let l = build_spec(ast, c[0] as nat, next);
            let r = build_spec(ast, c[1] as nat, l.1);
            (seq![DocOp::GroupStart] + l.0 + seq![DocOp::Text(":"), DocOp::Line] + r.0 + seq![DocOp::GroupEnd], r.1)
        } else {
            (Seq::empty(), next)
        },
        _ => {
            let cb = comments_before(ast, n.span.start, next);
            (cb.0 + seq![DocOp::Src(n.span)], cb.1)
        },
    }
}

/// Children `from..` of node `i` as a bracketed list: one group that keeps
/// the items on one line when it fits, else puts each on its own line,
/// indented one level.
pub open spec fn list_spec(ast: Ast, i: nat, from: nat, open: &'static str, close: &'static str, next: nat) -> (Seq<DocOp>, nat)
    decreases i, 1nat, 0nat,
{
    if from >= ast.nodes@[i as int].children@.len() {
        (seq![DocOp::Text(open), DocOp::Text(close)], next)
    } else {
        let items = items_spec(ast, i, from, from, next);
        let trail = trailing_comments(ast, close_pos(ast, i), items.1);
        let end = if trail.0.len() > 0 { DocOp::HardLine } else { DocOp::SoftLine };
        (seq![DocOp::GroupStart, DocOp::Text(open), DocOp::Indent, DocOp::SoftLine] + items.0 + trail.0
            + seq![DocOp::Dedent, end, DocOp::Text(close), DocOp::GroupEnd], trail.1)
    }
}

/// The items `j..` of a list that starts at child `from` of node `i`, each
/// after the first preceded by a comma and a line.
pub open spec fn items_spec(ast: Ast, i: nat, from: nat, j: nat, next: nat) -> (Seq<DocOp>, nat)
    decreases i, 0nat, ast.nodes@[i as int].children@.len() - j,
{
    let c = ast.nodes@[i as int].children@;
    if j < c.len() && c[j as int] < i {
        let sep = if j > from { seq![DocOp::Text(","), DocOp::Line] } else { Seq::empty() };
        let b = build_spec(ast, c[j as int] as nat, next);
        let rest = items_spec(ast, i, from, j + 1, b.1);
        (sep + b.0 + rest.0, rest.1)
    } else {
        (Seq::empty(), next)
    }
}

/// The document of a whole tree read from a text of `len` bytes. Each
/// comment goes on a line of its own before the leaf that follows it;
/// comments after the last leaf trail it.
pub open spec fn doc_spec(ast: Ast, len: usize) -> Seq<DocOp> {
    let b = build_spec(ast, ast.root as nat, 0);
    if b.1 < ast.comments@.len() {
        b.0 + seq![DocOp::Text(" ")] + comments_before(ast, len, b.1).0
    } else {
        b.0
    }
}

fn emit(doc: &mut Vec<DocOp>, op: DocOp, len: Ghost<nat>)
    requires
        doc_ok(old(doc)@, len@),
        match op {
            DocOp::Src(s) => s.valid(len@),
            _ => true,
        },
    ensures
        doc_ok(final(doc)@, len@),
        final(doc)@ == old(doc)@.push(op),
{
    doc.push(op);
    assert forall|k: int| 0 <= k < doc@.len() implies match #[trigger] doc@[k] {
        DocOp::Src(s) => s.valid(len@),
        _ => true,
    } by {
        if k < doc@.len() - 1 {
            assert(doc@[k] == old(doc)@[k]);
        }
    }
}

fn emit_comments_before(ast: &Ast, pos: usize, doc: &mut Vec<DocOp>, next: &mut usize, len: Ghost<nat>)
    requires
        ast.wf(len@),
        doc_ok(old(doc)@, len@),
    ensures
        doc_ok(final(doc)@, len@),
        final(doc)@ == old(doc)@ + comments_before(*ast, pos, *old(next) as nat).0,
        *final(next) as nat == comments_before(*ast, pos, *old(next) as nat).1,
{
    let ghost target = comments_before(*ast, pos, *next as nat);
    let ghost doc0 = doc@;
    assert(doc@ =~= doc0 + Seq::<DocOp>::empty());
    while *next < ast.comments.len() && ast.comments[*next].start < pos
        invariant
            ast.wf(len@),
            doc_ok(doc@, len@),
            doc@ + comments_before(*ast, pos, *next as nat).0 == doc0 + target.0,
            comments_before(*ast, pos, *next as nat).1 == target.1,
        decreases ast.comments@.len() - *next,
    {
        let ghost before = doc@;
        emit(doc, DocOp::Src(ast.comments[*next]), len);
        emit(doc, DocOp::HardLine, len);
        assert(doc@ + comments_before(*ast, pos, (*next + 1) as nat).0 =~= before + comments_before(*ast, pos, *next as nat).0);
        *next = *next + 1;
    }
    assert(doc@ =~= doc@ + comments_before(*ast, pos, *next as nat).0);
}

/// Emits each comment not yet emitted that starts before `pos`, each on a
/// line of its own.
fn emit_trailing_comments(ast: &Ast, pos: usize, doc: &mut Vec<DocOp>, next: &mut usize, len: Ghost<nat>)
    requires
        ast.wf(len@),
        doc_ok(old(doc)@, len@),
    ensures
        doc_ok(final(doc)@, len@),
        final(doc)@ == old(doc)@ + trailing_comments(*ast, pos, *old(next) as nat).0,
        *final(next) as nat == trailing_comments(*ast, pos, *old(next) as nat).1,
{
    let ghost target = trailing_comments(*ast, pos, *next as nat);
    let ghost doc0 = doc@;
    assert(doc@ =~= doc0 + Seq::<DocOp>::empty());
    while *next < ast.comments.len() && ast.comments[*next].start < pos
        invariant
            ast.wf(len@),
            doc_ok(doc@, len@),
            doc@ + trailing_comments(*ast, pos, *next as nat).0 == doc0 + target.0,
            trailing_comments(*ast, pos, *next as nat).1 == target.1,
        decreases ast.comments@.len() - *next,
    {
        let ghost before = doc@;
        emit(doc, DocOp::Line, len);
        emit(doc, DocOp::Src(ast.comments[*next]), len);
        assert(doc@ + trailing_comments(*ast, pos, (*next + 1) as nat).0 =~= before + trailing_comments(*ast, pos, *next as nat).0);
        *next = *next + 1;
    }
    assert(doc@ =~= doc@ + trailing_comments(*ast, pos, *next as nat).0);
}

/// Lays out children `from..` of node `i` as a bracketed list.
fn build_list(
    ast: &Ast,
    i: usize,
    from: usize,
    open: &'static str,
    close: &'static str,
    doc: &mut Vec<DocOp>,
    next: &mut usize,
    len: Ghost<nat>,
)
    requires
        ast.wf(len@),
        i < ast.nodes@.len(),
        doc_ok(old(doc)@, len@),
    ensures
        doc_ok(final(doc)@, len@),
        final(doc)@ == old(doc)@ + list_spec(*ast, i as nat, from as nat, open, close, *old(next) as nat).0,
        *final(next) as nat == list_spec(*ast, i as nat, from as nat, open, close, *old(next) as nat).1,
    decreases i, 1nat, 0nat,
{
    let n = &ast.nodes[i];
    proof {
        assert(node_ok(ast.nodes@, i as int, len@));
    }
    let ghost doc0 = doc@;
    let ghost target = list_spec(*ast, i as nat, from as nat, open, close, *next as nat);
    if from >= n.children.len() {
        emit(doc, DocOp::Text(open), len);
        emit(doc, DocOp::Text(close), len);
        assert(doc@ =~= doc0 + target.0);
        return ;
    }
    let ghost items = items_spec(*ast, i as nat, from as nat, from as nat, *next as nat);
    emit(doc, DocOp::GroupStart, len);
    emit(doc, DocOp::Text(open), len);
    emit(doc, DocOp::Indent, len);
    emit(doc, DocOp::SoftLine, len);
    let ghost doc1 = doc@;
    assert(doc1 =~= doc0 + seq![DocOp::GroupStart, DocOp::Text(open), DocOp::Indent, DocOp::SoftLine]);
    let mut j = from;
    assert(doc@ + items_spec(*ast, i as nat, from as nat, j as nat, *next as nat).0 =~= doc1 + items.0);
    while j < n.children.len()
        invariant
            ast.wf(len@),
            i < ast.nodes@.len(),
            n == ast.nodes@[i as int],
            node_ok(ast.nodes@, i as int, len@),
            doc_ok(doc@, len@),
            from <= j <= n.children@.len(),
            doc@ + items_spec(*ast, i as nat, from as nat, j as nat, *next as nat).0 == doc1 + items.0,
            items_spec(*ast, i as nat, from as nat, j as nat, *next as nat).1 == items.1,
        decreases n.children@.len() - j,
    {
        let ghost before = doc@;
        let ghost next0 = *next as nat;
        if j > from {
            emit(doc, DocOp::Text(","), len);
            emit(doc, DocOp::Line, len);
        }
        let ghost mid = doc@;
        build(ast, n.children[j], doc, next, len);
        let ghost sep = if j > from { seq![DocOp::Text(","), DocOp::Line] } else { Seq::<DocOp>::empty() };
        assert(mid =~= before + sep);
        assert(doc@ + items_spec(*ast, i as nat, from as nat, (j + 1) as nat, *next as nat).0 =~= before
            + items_spec(*ast, i as nat, from as nat, j as nat, next0).0);
        j = j + 1;
    }
    assert(items_spec(*ast, i as nat, from as nat, j as nat, *next as nat).0 =~= Seq::<DocOp>::empty());
    let pos = if n.span.end > 0 { n.span.end - 1 } else { 0 };
    let before_trail = *next;
    let has_trail = *next < ast.comments.len() && ast.comments[*next].start < pos;
    emit_trailing_comments(ast, pos, doc, next, len);
    emit(doc, DocOp::Dedent, len);
    if has_trail {
        assert(trailing_comments(*ast, pos, before_trail as nat).0.len() > 0);
        emit(doc, DocOp::HardLine, len);
    } else {
        assert(trailing_comments(*ast, pos, before_trail as nat).0 =~= Seq::<DocOp>::empty());
        emit(doc, DocOp::SoftLine, len);
    }
    emit(doc, DocOp::Text(close), len);
    emit(doc, DocOp::GroupEnd, len);
    assert(doc@ =~= doc0 + target.0);
}

/// Appends the document of the subtree at node `i`.
fn build(ast: &Ast, i: usize, doc: &mut Vec<DocOp>, next: &mut usize, len: Ghost<nat>)
    requires
        ast.wf(len@),
        i < ast.nodes@.len(),
        doc_ok(old(doc)@, len@),
    ensures
        doc_ok(final(doc)@, len@),
        final(doc)@ == old(doc)@ + build_spec(*ast, i as nat, *old(next) as nat).0,
        *final(next) as nat == build_spec(*ast, i as nat, *old(next) as nat).1,
    decreases i, 2nat, 0nat,
{
    let n = &ast.nodes[i];
    proof {
        assert(node_ok(ast.nodes@, i as int, len@));
    }
    let ghost doc0 = doc@;
    let ghost target = build_spec(*ast, i as nat, *next as nat);
    let c = &n.children;
    match n.kind {
        NodeKind::Binary(op) => {
            if c.len() == 2 {
                if breakable_of(op) {
                    emit(doc, DocOp::GroupStart, len);
                    build(ast, c[0], doc, next, len);
                    emit(doc, DocOp::Text(binop_lead_of(op)), len);
                    emit(doc, DocOp::Line, len);
                    build(ast, c[1], doc, next, len);
                    emit(doc, DocOp::GroupEnd, len);
                } else {
                    build(ast, c[0], doc, next, len);
                    emit(doc, DocOp::Text(binop_text_of(op)), len);
                    build(ast, c[1], doc, next, len);
                }
            }
        },
        NodeKind::Not | NodeKind::Neg | NodeKind::Pos => {
            let s = match n.kind {
                NodeKind::Not => "!",
                NodeKind::Neg => "-",
                _ => "+",
            };
            emit(doc, DocOp::Text(s), len);
            if c.len() == 1 {
                build(ast, c[0], doc, next, len);
            }
        },
        NodeKind::Group => {
            emit(doc, DocOp::Text("("), len);
            if c.len() == 1 {
                build(ast, c[0], doc, next, len);
            }
            emit(doc, DocOp::Text(")"), len);
        },
        NodeKind::Filter => {
            if c.len() == 2 {
                build(ast, c[0], doc, next, len);
                emit(doc, DocOp::GroupStart, len);
                emit(doc, DocOp::Text("["), len);
                emit(doc, DocOp::Indent, len);
                emit(doc, DocOp::SoftLine, len);
                build(ast, c[1], doc, next, len);
                emit(doc, DocOp::Dedent, len);
                emit(doc, DocOp::SoftLine, len);
                emit(doc, DocOp::Text("]"), len);
                emit(doc, DocOp::GroupEnd, len);
            }
        },
        NodeKind::Traverse => {
            if c.len() == 1 {
                build(ast, c[0], doc, next, len);
            }
            emit(doc, DocOp::Text("[]"), len);
        },
        NodeKind::Projection => {
            if c.len() >= 1 {
                build(ast, c[0], doc, next, len);
            }
            build_list(ast, i, 1, "{", "}", doc, next, len);
        },
        NodeKind::Attribute => {
            if c.len() == 2 {
                build(ast, c[0], doc, next, len);
                emit(doc, DocOp::Text("."), len);
                build(ast, c[1], doc, next, len);
            }
        },
        NodeKind::Deref => {
            if c.len() >= 1 {
                build(ast, c[0], doc, next, len);
            }
            emit(doc, DocOp::Text("->"), len);
            if c.len() == 2 {
                build(ast, c[1], doc, next, len);
            }
        },
        NodeKind::Call => {
            if c.len() >= 1 {
                build(ast, c[0], doc, next, len);
            }
            build_list(ast, i, 1, "(", ")", doc, next, len);
        },
        NodeKind::Asc | NodeKind::Desc => {
            if c.len() >= 1 {
                build(ast, c[0], doc, next, len);
            }
            let word = if n.kind == NodeKind::Asc { " asc" } else { " desc" };
            emit(doc, DocOp::Text(word), len);
        },
        NodeKind::Array => {
            build_list(ast, i, 0, "[", "]", doc, next, len);
        },
        NodeKind::Object => {
            build_list(ast, i, 0, "{", "}", doc, next, len);
        },
        NodeKind::Field => {
            if c.len() == 2 {
                emit(doc, DocOp::GroupStart, len);
                build(ast, c[0], doc, next, len);
                emit(doc, DocOp::Text(":"), len);
                emit(doc, DocOp::Line, len);
                build(ast, c[1], doc, next, len);
                emit(doc, DocOp::GroupEnd, len);
            }
        },
        _ => {
            emit_comments_before(ast, n.span.start, doc, next, len);
            emit(doc, DocOp::Src(n.span), len);
        },
    }
    assert(doc@ =~= doc0 + target.0);
}

fn breakable_of(op: BinOp) -> (r: bool)
    ensures
        r == breakable(op),
{
    match op {
        BinOp::Range | BinOp::RangeExcl => false,
        _ => true,
    }
}

/// The document of a whole tree.
pub fn to_doc(ast: &Ast, len: usize) -> (doc: Vec<DocOp>)
    requires
        ast.wf(len as nat),
    ensures
        doc_ok(doc@, len as nat),
        doc@ == doc_spec(*ast, len),
{
    let mut doc: Vec<DocOp> = Vec::new();
    let mut next: usize = 0;
    build(ast, ast.root, &mut doc, &mut next, Ghost(len as nat));
    assert(doc@ =~= build_spec(*ast, ast.root as nat, 0).0);
    if next < ast.comments.len() {
        emit(&mut doc, DocOp::Text(" "), Ghost(len as nat));
        emit_comments_before(ast, len, &mut doc, &mut next, Ghost(len as nat));
    }
    doc
}

/// The characters of the query over `s`, when both ends of `s` fall on
/// character boundaries.
pub open spec fn piece_spec(q: &str, s: Span) -> Option<Seq<char>> {
    let b = q.spec_bytes();
    if is_char_boundary(b, s.start as int) && is_char_boundary(
        b.subrange(s.start as int, b.len() as int),
        s.end - s.start,
    ) {
        Some(decode_utf8(b.subrange(s.start as int, s.end as int)))
    } else {
        None
    }
}

/// The query's text over `s`. Spans that the lexer made start and end at
/// ASCII bytes, so both ends fall on character boundaries.
fn source_piece<'a>(q: &'a str, s: Span) -> (r: Option<&'a str>)
    requires
        s.valid(q.spec_bytes().len()),
    ensures
        match r {
            Some(p) => piece_spec(q, s) == Some(p@) && p.spec_bytes().len() == s.end - s.start,
            None => piece_spec(q, s) is None,
        },
{
    if !q.is_char_boundary(s.start) {
        return None;
    }
    let (_, rest) = q.split_at(s.start);
    assert(rest.spec_bytes() =~= q.spec_bytes().subrange(s.start as int, q.spec_bytes().len() as int));
    if !rest.is_char_boundary(s.end - s.start) {
        return None;
    }
    let (piece, _) = rest.split_at(s.end - s.start);
    assert(piece.spec_bytes() =~= q.spec_bytes().subrange(s.start as int, s.end as int));
    proof {
        encode_utf8_decode_utf8(piece@);
    }
    Some(piece)
}

/// The width of an op laid out on one line; `None` for a required break.
pub open spec fn op_width(op: DocOp) -> Option<usize> {
    match op {
        DocOp::Text(t) => Some(t.spec_bytes().len() as usize),
        DocOp::Src(s) => Some(if s.end >= s.start { (s.end - s.start) as usize } else { 0 }),
        DocOp::Line => Some(1),
        DocOp::HardLine => None,
        _ => Some(0),
    }
}

/// The scan of `flat_width` from op `j`, at group depth `depth`, with width
/// `w` counted so far.
pub open spec fn flat_scan(doc: Seq<DocOp>, k: nat, j: nat, depth: usize, w: usize) -> Option<usize>
    decreases doc.len() - j,
{
    if j >= doc.len() {
        Some(w)
    } else {
        let op = doc[j as int];
        if depth == 0 && j > k && !(op is Text || op is Src) {
            Some(w)
        } else {
            let d = match op {
                DocOp::GroupStart => depth.saturating_add(1),
                DocOp::GroupEnd => if depth > 0 { (depth - 1) as usize } else { depth },
                _ => depth,
            };
            match op_width(op) {
                Some(x) => flat_scan(doc, k, j + 1, d, w.saturating_add(x)),
                None => None,
            }
        }
    }
}

fn flat_op_width(doc: &Vec<DocOp>, k: usize) -> (r: Option<usize>)
    requires
        k < doc@.len(),
    ensures
        r == op_width(doc@[k as int]),
{
    match doc[k] {
        DocOp::Text(t) => Some(t.len()),
        DocOp::Src(s) => Some(if s.end >= s.start { s.end - s.start } else { 0 }),
        DocOp::Line => Some(1),
        DocOp::HardLine => None,
        _ => Some(0),
    }
}

/// The width of the group that opens at `k` laid out on one line, together
/// with the text that follows it up to the next possible break; `None` when
/// the group holds a required break.
fn flat_width(doc: &Vec<DocOp>, k: usize) -> (r: Option<usize>)
    requires
        k < doc@.len(),
    ensures
        r == flat_scan(doc@, k as nat, k as nat, 0, 0),
{
    let mut w: usize = 0;
    let mut depth: usize = 0;
    let mut j = k;
    while j < doc.len()
        invariant
            k <= j <= doc@.len(),
            flat_scan(doc@, k as nat, k as nat, 0, 0) == flat_scan(doc@, k as nat, j as nat, depth, w),
        decreases doc@.len() - j,
    {
        let op = doc[j];
        if depth == 0 && j > k {
            match op {
                DocOp::Text(_) | DocOp::Src(_) => {},
                _ => {
                    return Some(w);
                },
            }
        }
        match op {
            DocOp::GroupStart => {
                depth = depth.saturating_add(1);
            },
            DocOp::GroupEnd => {
                if depth > 0 {
                    depth = depth - 1;
                }
            },
            _ => {},
        }
        match flat_op_width(doc, j) {
            Some(x) => {
                w = w.saturating_add(x);
            },
            None => {
                return None;
            },
        }
        j = j + 1;
    }
    Some(w)
}

/// `level` levels of indentation.
pub open spec fn indentation(level: nat) -> Seq<char>
    decreases level,
{
    if level == 0 {
        Seq::empty()
    } else {
        indentation((level - 1) as nat) + "  "@
    }
}

/// The column after a line break indented `level` levels.
pub open spec fn indent_col(level: usize) -> usize {
    if level <= usize::MAX / INDENT {
        (level * INDENT) as usize
    } else {
        usize::MAX
    }
}

/// Ends the current line and indents the next one `level` levels.
fn newline(out: &mut String, level: usize) -> (col: usize)
    ensures
        final(out)@ == old(out)@ + "\n"@ + indentation(level as nat),
        col == indent_col(level),
{
    out.append("\n");
    let ghost start = out@;
    let mut k: usize = 0;
    while k < level
        invariant
            k <= level,
            out@ == start + indentation(k as nat),
        decreases level - k,
    {
        out.append("  ");
        k = k + 1;
        assert(out@ =~= start + indentation(k as nat));
    }
    assert(out@ =~= old(out)@ + "\n"@ + indentation(level as nat));
    if level <= usize::MAX / INDENT {
        level * INDENT
    } else {
        usize::MAX
    }
}

/// The state of the layout after some ops: the text so far, the current
/// column, the indentation level, and for each open group whether it is
/// laid out on one line.
pub type LayoutState = (Seq<char>, usize, usize, Seq<bool>);

/// The layout state after op `k`, from the state `st` before it.
pub open spec fn layout_step(q: &str, doc: Seq<DocOp>, width: usize, k: nat, st: LayoutState) -> LayoutState {
    let (out, col, level, modes) = st;
    let flat = modes.len() > 0 && modes.last();
    match doc[k as int] {
        DocOp::Text(t) => (out + t@, col.saturating_add(t.spec_bytes().len() as usize), level, modes),
        DocOp::Src(s) => match piece_spec(q, s) {
            Some(p) => (out + p, col.saturating_add((s.end - s.start) as usize), level, modes),
            None => st,
        },
        DocOp::Line => if flat {
            (out + " "@, col.saturating_add(1), level, modes)
        } else {
            (out + "\n"@ + indentation(level as nat), indent_col(level), level, modes)
        },
        DocOp::SoftLine => if flat {
            st
        } else {
            (out + "\n"@ + indentation(level as nat), indent_col(level), level, modes)
        },
        DocOp::HardLine => (out + "\n"@ + indentation(level as nat), indent_col(level), level, modes),
        DocOp::Indent => (out, col, level.saturating_add(1), modes),
        DocOp::Dedent => (out, col, if level > 0 { (level - 1) as usize } else { level }, modes),
        DocOp::GroupStart => {
            let fits = if flat {
                true
            } else {
                match flat_scan(doc, k, k, 0, 0) {
                    Some(w) => col <= width && w <= width - col,
                    None => false,
                }
            };
            (out, col, level, modes.push(fits))
        },
        DocOp::GroupEnd => (out, col, level, if modes.len() > 0 { modes.drop_last() } else { modes }),
    }
}

/// The layout state after the first `k` ops.
pub open spec fn layout_run(q: &str, doc: Seq<DocOp>, width: usize, k: nat) -> LayoutState
    decreases k,
{
    if k == 0 {
        (Seq::empty(), 0, 0, Seq::empty())
    } else {
        layout_step(q, doc, width, (k - 1) as nat, layout_run(q, doc, width, (k - 1) as nat))
    }
}

/// The text a document lays out to.
pub open spec fn layout_spec(q: &str, doc: Seq<DocOp>, width: usize) -> Seq<char> {
    layout_run(q, doc, width, doc.len()).0
}

/// Renders a document within `width` columns: each group goes on one line
/// when it and the text right after it fit in what is left of the current
/// line, and is broken otherwise, independently of the groups around it.
pub fn layout(q: &str, doc: &Vec<DocOp>, width: usize) -> (out: String)
    requires
        doc_ok(doc@, q.spec_bytes().len()),
    ensures
        out@ == layout_spec(q, doc@, width),
{
    let mut out = String::new();
    let mut col: usize = 0;
    let mut level: usize = 0;
    let mut modes: Vec<bool> = Vec::new();
    let mut k: usize = 0;
    while k < doc.len()
        invariant
            k <= doc@.len(),
            doc_ok(doc@, q.spec_bytes().len()),
            (out@, col, level, modes@) == layout_run(q, doc@, width, k as nat),
        decreases doc@.len() - k,
    {
        let flat = modes.len() > 0 && modes[modes.len() - 1];
        match doc[k] {
            DocOp::Text(t) => {
                out.append(t);
                col = col.saturating_add(t.len());
            },
            DocOp::Src(s) => {
                assert(match doc@[k as int] {
                    DocOp::Src(s) => s.valid(q.spec_bytes().len()),
                    _ => true,
                });
                if let Some(p) = source_piece(q, s) {
                    out.append(p);
                    col = col.saturating_add(p.len());
                }
            },
            DocOp::Line => {
                if flat {
                    out.append(" ");
                    col = col.saturating_add(1);
                } else {
                    col = newline(&mut out, level);
                }
            },
            DocOp::SoftLine => {
                if !flat {
                    col = newline(&mut out, level);
                }
            },
            DocOp::HardLine => {
                col = newline(&mut out, level);
            },
            DocOp::Indent => {
                level = level.saturating_add(1);
            },
            DocOp::Dedent => {
                if level > 0 {
                    level = level - 1;
                }
            },
            DocOp::GroupStart => {
                let fits = if flat {
                    true
                } else {
                    match flat_width(doc, k) {
                        Some(w) => col <= width && w <= width - col,
                        None => false,
                    }
                };
                modes.push(fits);
            },
            DocOp::GroupEnd => {
                if modes.len() > 0 {
                    modes.pop();
                }
            },
        }
        k = k + 1;
    }
    out
}

/// Formats a query within `width` columns. Fails exactly when parsing fails,
/// with the parser's error; a query that parses always has a rendering.
pub fn format_query(query: &str, width: usize) -> (r: Result<String, QueryError>)
    ensures
        match r {
            Ok(s) => exists|ast: Ast| #[trigger] parsed_as(query.spec_bytes(), ast) && ast.wf(query.spec_bytes().len()) && s@ == layout_spec(
                query,
                doc_spec(ast, query.spec_bytes().len() as usize),
                width,
            ),
            Err(e) => {
                &&& parse_spec(query.spec_bytes()) == Err::<(Seq<NodeView>, nat, Seq<Span>), ErrorView>(error_view(e))
                &&& e.span_of().valid(query.spec_bytes().len())
                &&& (e is EmptyQuery ==> blank(query.spec_bytes()))
                &&& (e is LexError ==> lex_error_at(query.spec_bytes(), e.span_of()))
            },
        },
        r is Ok <==> parse_spec(query.spec_bytes()) is Ok,
        lex_spec(query.spec_bytes()) is Err ==> r == Err::<String, QueryError>(
            QueryError::LexError { span: lex_spec(query.spec_bytes())->Err_0 },
        ),
        lex_spec(query.spec_bytes()) is Ok && lex_spec(query.spec_bytes())->Ok_0.0.len() == 1 ==> r is Err
            && r->Err_0 is EmptyQuery,
{
    let src = query.as_bytes();
    let ast = parse(src)?;
    assert(parsed_as(query.spec_bytes(), ast));
    Ok(format_tree(&ast, query, width))
}

/// Renders a tree parsed from `query` within `width` columns. Every
/// well-formed tree has a rendering: this cannot fail.
pub fn format_tree(ast: &Ast, query: &str, width: usize) -> (r: String)
    requires
        ast.wf(query.spec_bytes().len()),
    ensures
        r@ == layout_spec(query, doc_spec(*ast, query.spec_bytes().len() as usize), width),
{
    let doc = to_doc(ast, query.as_bytes().len());
    layout(query, &doc, width)
}

/// Formats a query within `width` columns, or `DEFAULT_WIDTH` when none is given.
pub fn format(query: &str, width: Option<usize>) -> (r: Result<String, QueryError>)
    ensures
        match r {
            Ok(s) => exists|ast: Ast| #[trigger] parsed_as(query.spec_bytes(), ast) && ast.wf(query.spec_bytes().len()) && s@ == layout_spec(
                query,
                doc_spec(ast, query.spec_bytes().len() as usize),
                match width {
                    Some(w) => w,
                    None => DEFAULT_WIDTH,
                },
            ),
            Err(e) => {
                &&& parse_spec(query.spec_bytes()) == Err::<(Seq<NodeView>, nat, Seq<Span>), ErrorView>(error_view(e))
                &&& e.span_of().valid(query.spec_bytes().len())
                &&& (e is EmptyQuery ==> blank(query.spec_bytes()))
                &&& (e is LexError ==> lex_error_at(query.spec_bytes(), e.span_of()))
            },
        },
        r is Ok <==> parse_spec(query.spec_bytes()) is Ok,
        lex_spec(query.spec_bytes()) is Err ==> r == Err::<String, QueryError>(
            QueryError::LexError { span: lex_spec(query.spec_bytes())->Err_0 },
        ),
        lex_spec(query.spec_bytes()) is Ok && lex_spec(query.spec_bytes())->Ok_0.0.len() == 1 ==> r is Err
            && r->Err_0 is EmptyQuery,
{
    let w = match width {
        Some(w) => w,
        None => DEFAULT_WIDTH,
    };
    format_query(query, w)
}

} // verus!
