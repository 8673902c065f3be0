//! The syntax tree, held in an arena, and the containment of spans along
//! its paths.
use vstd::prelude::*;

use crate::span::Span;

verus! {

/// Binary operators, each with a fixed precedence (see `BinOp::prec`).
#[derive(Clone, Copy, Debug, PartialEq, Eq, Structural)]
pub enum BinOp {
    Pair,
    Pipe,
    Or,
    And,
    Eq,
    Neq,
    Lt,
    Le,
    Gt,
    Ge,
    In,
    Match,
    Range,
    RangeExcl,
    Add,
    Sub,
    Mul,
    Div,
    Mod,
    Pow,
}

/// The variants of the syntax tree. Leaves take their text from their span.
#[derive(Clone, Copy, Debug, PartialEq, Eq, Structural)]
pub enum NodeKind {
    /// `*`
    Everything,
    /// `@`
    This,
    /// `^`
    Parent,
    Ident,
    Param,
    Str,
    Num,
    True,
    False,
    Null,
    /// children: left, right
    Binary(BinOp),
    /// `!x`; child: operand
    Not,
    /// `-x`; child: operand
    Neg,
    /// `+x`; child: operand
    Pos,
    /// `(x)`; child: the inner expression
    Group,
    /// `base[cond]`; children: base, condition
    Filter,
    /// `base[]`; child: base
    Traverse,
    /// `base{...}`; children: base, then the fields
    Projection,
    /// `base.name`; children: base, name
    Attribute,
    /// `base->` or `base->name`; children: base, then the name if any
    Deref,
    /// `name(args)`; children: name, then the arguments
    Call,
    /// `[a, b]`; children: the elements
    Array,
    /// `{...}`; children: the fields
    Object,
    /// `key: value` inside an object; children: key, value
    Field,
    /// `...` inside an object
    Spread,
    /// `x asc` in an ordering; child: x
    Asc,
    /// `x desc` in an ordering; child: x
    Desc,
}

/// One node of the tree. Its children are indices of nodes built before it.
#[derive(Clone, Debug)]
pub struct Node {
    pub kind: NodeKind,
    pub span: Span,
    pub children: Vec<usize>,
}

/// A syntax tree held in an arena: every node comes after its children, and
/// `root` is the whole query. The spans of the query's comments ride along
/// for the formatter.
#[derive(Clone, Debug)]
pub struct Ast {
    pub nodes: Vec<Node>,
    pub root: usize,
    pub comments: Vec<Span>,
}

/// Node `i` lies in a text of `len` bytes, and each of its children comes
/// before it in the arena and lies inside its span.
pub open spec fn node_ok(nodes: Seq<Node>, i: int, len: nat) -> bool {
    &&& nodes[i].span.valid(len)
    &&& forall|j: int|
        0 <= j < nodes[i].children@.len() ==> {
            let c = #[trigger] nodes[i].children@[j];
            &&& c < i
            &&& nodes[c as int].span.within(nodes[i].span)
        }
}

pub open spec fn arena_ok(nodes: Seq<Node>, len: nat) -> bool {
    forall|i: int| 0 <= i < nodes.len() ==> #[trigger] node_ok(nodes, i, len)
}

impl Ast {
    /// The tree read from a text of `len` bytes is well formed.
    pub open spec fn wf(&self, len: nat) -> bool {
        &&& arena_ok(self.nodes@, len)
        &&& self.root < self.nodes@.len()
        &&& forall|k: int| 0 <= k < self.comments@.len() ==> #[trigger] self.comments@[k].valid(len)
    }

    pub open spec fn is_child(&self, p: int, c: int) -> bool {
        exists|j: int| 0 <= j < self.nodes@[p].children@.len() && self.nodes@[p].children@[j] == c
    }

    /// `path` walks down the tree from `path[0]`, one child at a time.
    pub open spec fn is_path(&self, path: Seq<int>) -> bool {
        &&& path.len() >= 1
        &&& forall|k: int| 0 <= k < path.len() ==> 0 <= #[trigger] path[k] < self.nodes@.len()
        &&& forall|k: int| 0 <= k < path.len() - 1 ==> #[trigger] self.is_child(path[k], path[k + 1])
    }
}

/// Every descendant of a node lies inside the node's span.
pub proof fn lemma_descendant_within(ast: &Ast, len: nat, path: Seq<int>)
    requires
        ast.wf(len),
        ast.is_path(path),
    ensures
        ast.nodes@[path.last()].span.within(ast.nodes@[path[0]].span),
    decreases path.len(),
{
    if path.len() > 1 {
        let rest = path.drop_first();
        assert(ast.is_path(rest)) by {
            assert forall|k: int| 0 <= k < rest.len() - 1 implies #[trigger] ast.is_child(rest[k], rest[k + 1]) by {
                let k1 = k + 1;
                assert(ast.is_child(path[k1], path[k1 + 1]));
                assert(rest[k] == path[k1] && rest[k + 1] == path[k1 + 1]);
            }
        }
        lemma_descendant_within(ast, len, rest);
        assert(ast.is_child(path[0], path[1]));
        let j = choose|j: int| 0 <= j < ast.nodes@[path[0]].children@.len() && ast.nodes@[path[0]].children@[j] == path[1];
        assert(node_ok(ast.nodes@, path[0], len));
        assert(ast.nodes@[path[0]].children@[j] == path[1]);
    }
}

} // verus!
