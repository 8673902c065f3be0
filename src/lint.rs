//! The lint engine: rules run on every node of a pre-order walk, and the
//! findings sorted by position and rule.
use vstd::prelude::*;

use crate::ast::{Ast, BinOp, NodeKind, node_ok};
use crate::parser::{parse, parse_spec, parsed_as, error_view, nodes_view, NodeView, ErrorView};
use crate::span::Span;
use crate::lexer::{blank, lex_error_at, lex_spec};
use crate::token::QueryError;
use vstd::string::StringSliceAdditionalSpecFns;

verus! {

broadcast use vstd::seq_lib::to_multiset_build, vstd::seq_lib::to_multiset_insert;

/// How serious a finding is.
#[derive(Clone, Copy, Debug, PartialEq, Eq, Structural)]
pub enum Severity {
    Error,
    Warning,
    Info,
}

/// The registered lint rules, in registration order.
#[derive(Clone, Copy, Debug, PartialEq, Eq, Structural)]
pub enum Rule {
    /// `*` that no filter narrows: the query reads every document.
    UnfilteredEverything,
    /// A dereference (`->`) inside a filter condition: a join per document.
    JoinInFilter,
    /// `!!x`.
    DoubleNegation,
    /// `!(a == b)`, which reads better as `a != b`.
    NegatedEquality,
}

/// What a rule may know of a node's ancestors.
#[derive(Clone, Copy, Debug, PartialEq, Eq, Structural)]
pub struct Context {
    /// The node lies in the condition of some filter.
    pub in_filter: bool,
    /// The node is the base that a filter applies to.
    pub filtered: bool,
}

/// One diagnostic: the rule that raised it and the node it points at.
#[derive(Clone, Copy, Debug, PartialEq, Eq, Structural)]
pub struct Finding {
    pub rule: Rule,
    pub span: Span,
}

impl Rule {
    pub open spec fn rank_spec(self) -> nat {
        match self {
            Rule::UnfilteredEverything => 0,
            Rule::JoinInFilter => 1,
            Rule::DoubleNegation => 2,
            Rule::NegatedEquality => 3,
        }
    }

    /// The rule's place in registration order.
    pub fn rank(&self) -> (r: usize)
        ensures
            r == self.rank_spec(),
    {
        match self {
            Rule::UnfilteredEverything => 0,
            Rule::JoinInFilter => 1,
            Rule::DoubleNegation => 2,
            Rule::NegatedEquality => 3,
        }
    }

    pub open spec fn severity_spec(self) -> Severity {
        match self {
            Rule::UnfilteredEverything => Severity::Warning,
            Rule::JoinInFilter => Severity::Warning,
            Rule::DoubleNegation => Severity::Info,
            Rule::NegatedEquality => Severity::Info,
        }
    }

    pub fn severity(&self) -> (r: Severity)
        ensures
            r == self.severity_spec(),
    {
        match self {
            Rule::UnfilteredEverything => Severity::Warning,
            Rule::JoinInFilter => Severity::Warning,
            Rule::DoubleNegation => Severity::Info,
            Rule::NegatedEquality => Severity::Info,
        }
    }

    pub open spec fn id_spec(self) -> Seq<char> {
        match self {
            Rule::UnfilteredEverything => "unfiltered-everything"@,
            Rule::JoinInFilter => "join-in-filter"@,
            Rule::DoubleNegation => "double-negation"@,
            Rule::NegatedEquality => "negated-equality"@,
        }
    }

    /// The rule's identifier as callers see it.
    pub fn id(&self) -> (r: &'static str)
        ensures
            r@ == self.id_spec(),
    {
        match self {
            Rule::UnfilteredEverything => "unfiltered-everything",
            Rule::JoinInFilter => "join-in-filter",
            Rule::DoubleNegation => "double-negation",
            Rule::NegatedEquality => "negated-equality",
        }
    }

    pub open spec fn message_spec(self) -> Seq<char> {
        match self {
            Rule::UnfilteredEverything => "`*` without a filter reads every document in the dataset"@,
            Rule::JoinInFilter => "a dereference inside a filter runs a join for every document"@,
            Rule::DoubleNegation => "a double negation can be removed"@,
            Rule::NegatedEquality => "`!(a == b)` can be written `a != b`"@,
        }
    }

    /// A human-readable explanation of a finding of this rule.
    pub fn message(&self) -> (r: &'static str)
        ensures
            r@ == self.message_spec(),
    {
        match self {
            Rule::UnfilteredEverything => "`*` without a filter reads every document in the dataset",
            Rule::JoinInFilter => "a dereference inside a filter runs a join for every document",
            Rule::DoubleNegation => "a double negation can be removed",
            Rule::NegatedEquality => "`!(a == b)` can be written `a != b`",
        }
    }

    /// The rule fires on node `i` of `ast` seen in context `ctx`.
    pub open spec fn fires(self, ast: Ast, i: int, ctx: Context) -> bool {
        let n = ast.nodes@[i];
        match self {
            Rule::UnfilteredEverything => n.kind == NodeKind::Everything && !ctx.filtered,
            Rule::JoinInFilter => n.kind == NodeKind::Deref && ctx.in_filter,
            Rule::DoubleNegation => n.kind == NodeKind::Not && n.children@.len() == 1
                && ast.nodes@[n.children@[0] as int].kind == NodeKind::Not,
            Rule::NegatedEquality => n.kind == NodeKind::Not && n.children@.len() == 1 && {
                let g = ast.nodes@[n.children@[0] as int];
                &&& g.kind == NodeKind::Group
                &&& g.children@.len() == 1
                &&& ast.nodes@[g.children@[0] as int].kind == NodeKind::Binary(BinOp::Eq)
            },
        }
    }

    /// Inspects one node: a finding at the node's span exactly when the rule fires.
    pub fn check(&self, ast: &Ast, i: usize, ctx: Context, len: Ghost<nat>) -> (r: Option<Finding>)
        requires
            ast.wf(len@),
            i < ast.nodes@.len(),
        ensures
            r is Some <==> self.fires(*ast, i as int, ctx),
            r is Some ==> r->0 == (Finding { rule: *self, span: ast.nodes@[i as int].span }),
    {
        let n = &ast.nodes[i];
        proof {
            assert(node_ok(ast.nodes@, i as int, len@));
        }
        let fires = match self {
            Rule::UnfilteredEverything => n.kind == NodeKind::Everything && !ctx.filtered,
            Rule::JoinInFilter => n.kind == NodeKind::Deref && ctx.in_filter,
            Rule::DoubleNegation => n.kind == NodeKind::Not && n.children.len() == 1
                && ast.nodes[n.children[0]].kind == NodeKind::Not,
            Rule::NegatedEquality => {
                if n.kind == NodeKind::Not && n.children.len() == 1 {
                    let g = &ast.nodes[n.children[0]];
                    proof {
                        assert(node_ok(ast.nodes@, n.children@[0] as int, len@));
                    }
                    g.kind == NodeKind::Group && g.children.len() == 1 && ast.nodes[g.children[0]].kind
                        == NodeKind::Binary(BinOp::Eq)
                } else {
                    false
                }
            },
        };
        if fires {
            Some(Finding { rule: *self, span: n.span })
        } else {
            None
        }
    }
}

/// `a` comes no later than `b`: by start of span, then by registration order.
pub open spec fn finding_le(a: Finding, b: Finding) -> bool {
    a.span.start < b.span.start || (a.span.start == b.span.start && a.rule.rank_spec()
        <= b.rule.rank_spec())
}

pub open spec fn sorted(s: Seq<Finding>) -> bool {
    forall|i: int, j: int| 0 <= i < j < s.len() ==> finding_le(#[trigger] s[i], #[trigger] s[j])
}

/// The finding was raised by a rule that fires on a node with that span.
pub open spec fn justified(ast: Ast, f: Finding) -> bool {
    exists|i: int, ctx: Context|
        0 <= i < ast.nodes@.len() && #[trigger] f.rule.fires(ast, i, ctx) && f.span == ast.nodes@[i].span
}

/// The finding of rule `r` on node `i` in context `ctx`, if it fires.
pub open spec fn hit(ast: Ast, r: Rule, i: int, ctx: Context) -> Seq<Finding> {
    if r.fires(ast, i, ctx) {
        seq![Finding { rule: r, span: ast.nodes@[i].span }]
    } else {
        Seq::empty()
    }
}

/// The findings of every rule on node `i`, in registration order.
pub open spec fn node_hits(ast: Ast, i: int, ctx: Context) -> Seq<Finding> {
    hit(ast, Rule::UnfilteredEverything, i, ctx) + hit(ast, Rule::JoinInFilter, i, ctx) + hit(
        ast,
        Rule::DoubleNegation,
        i,
        ctx,
    ) + hit(ast, Rule::NegatedEquality, i, ctx)
}

/// The context of child `j` of a node of kind `kind` seen in context `ctx`.
pub open spec fn child_context(kind: NodeKind, ctx: Context, j: int) -> Context {
    if kind == NodeKind::Filter && j == 0 {
        Context { in_filter: ctx.in_filter, filtered: true }
    } else if kind == NodeKind::Filter && j == 1 {
        Context { in_filter: true, filtered: false }
    } else {
        Context { in_filter: ctx.in_filter, filtered: false }
    }
}

/// The findings of a pre-order walk of the subtree at `i`.
pub open spec fn visit_spec(ast: Ast, i: nat, ctx: Context) -> Seq<Finding>
    decreases i, ast.nodes@[i as int].children@.len() + 1,
{
    node_hits(ast, i as int, ctx) + children_spec(ast, i, ctx, 0)
}

/// The findings of the subtrees of children `j..` of node `i`.
pub open spec fn children_spec(ast: Ast, i: nat, ctx: Context, j: nat) -> Seq<Finding>
    decreases i, ast.nodes@[i as int].children@.len() - j,
{
    let n = ast.nodes@[i as int];
    if j < n.children@.len() && n.children@[j as int] < i {
        visit_spec(ast, n.children@[j as int] as nat, child_context(n.kind, ctx, j as int))
            + children_spec(ast, i, ctx, j + 1)
    } else {
        Seq::empty()
    }
}

/// Where a stable insertion puts `f` into `s`: after every finding that
/// does not come later than it, searching from `p`.
pub open spec fn insert_pos(s: Seq<Finding>, f: Finding, p: nat) -> nat
    decreases s.len() - p,
{
    if p >= s.len() {
        s.len()
    } else if !finding_le(s[p as int], f) {
        p
    } else {
        insert_pos(s, f, p + 1)
    }
}

/// Stable insertion sort of `s` by start of span, then registration order.
pub open spec fn sort_spec(s: Seq<Finding>) -> Seq<Finding>
    decreases s.len(),
{
    if s.len() == 0 {
        s
    } else {
        let r = sort_spec(s.drop_last());
        r.insert(insert_pos(r, s.last(), 0) as int, s.last())
    }
}

/// What linting a tree yields: the findings of a pre-order walk from the
/// root, stably sorted.
pub open spec fn lint_spec(ast: Ast) -> Seq<Finding> {
    sort_spec(visit_spec(ast, ast.root as nat, Context { in_filter: false, filtered: false }))
}

fn finding_lt(a: &Finding, b: &Finding) -> (r: bool)
    ensures
        r == !finding_le(*b, *a),
{
    a.span.start < b.span.start || (a.span.start == b.span.start && a.rule.rank() < b.rule.rank())
}

/// Orders findings by start of span, then registration order; findings with
/// the same key keep their order.
pub fn sort_findings(v: Vec<Finding>) -> (r: Vec<Finding>)
    ensures
        sorted(r@),
        r@.to_multiset() == v@.to_multiset(),
        r@ == sort_spec(v@),
{
    let mut out: Vec<Finding> = Vec::new();
    let mut k: usize = 0;
    assert(out@ =~= v@.subrange(0, 0));
    while k < v.len()
        invariant
            k <= v@.len(),
            sorted(out@),
            out@.to_multiset() == v@.subrange(0, k as int).to_multiset(),
            out@ == sort_spec(v@.subrange(0, k as int)),
        decreases v@.len() - k,
    {
        let f = v[k];
        let mut p: usize = 0;
        while p < out.len() && !finding_lt(&f, &out[p])
            invariant
                p <= out@.len(),
                forall|q: int| 0 <= q < p ==> finding_le(#[trigger] out@[q], f),
                insert_pos(out@, f, 0) == insert_pos(out@, f, p as nat),
            decreases out@.len() - p,
        {
            p = p + 1;
        }
        let ghost before = out@;
        out.insert(p, f);
        assert(sorted(out@)) by {
            assert forall|i: int, j: int| 0 <= i < j < out@.len() implies finding_le(#[trigger] out@[i], #[trigger] out@[j]) by {
                if j < p {
                    assert(out@[i] == before[i] && out@[j] == before[j]);
                } else if j == p {
                    assert(out@[i] == before[i]);
                } else if i < p {
                    assert(out@[i] == before[i] && out@[j] == before[j - 1]);
                    assert(finding_le(before[i], f));
                    assert(finding_le(before[p as int], before[j - 1]) || p == j - 1);
                } else if i == p {
                    assert(out@[j] == before[j - 1]);
                    assert(finding_le(before[p as int], before[j - 1]) || p == j - 1);
                } else {
                    assert(out@[i] == before[i - 1] && out@[j] == before[j - 1]);
                }
            }
        }
        assert(insert_pos(before, f, 0) == p);
        assert(v@.subrange(0, k + 1) == v@.subrange(0, k as int).push(f));
        assert(v@.subrange(0, k + 1).drop_last() =~= v@.subrange(0, k as int));
        k = k + 1;
    }
    assert(v@.subrange(0, v@.len() as int) == v@);
    out
}

fn apply(rule: Rule, ast: &Ast, i: usize, ctx: Context, out: &mut Vec<Finding>, len: Ghost<nat>)
    requires
        ast.wf(len@),
        i < ast.nodes@.len(),
        forall|k: int| 0 <= k < old(out)@.len() ==> justified(*ast, #[trigger] old(out)@[k]),
    ensures
        forall|k: int| 0 <= k < final(out)@.len() ==> justified(*ast, #[trigger] final(out)@[k]),
        final(out)@ == old(out)@ + hit(*ast, rule, i as int, ctx),
{
    if let Some(f) = rule.check(ast, i, ctx, len) {
        out.push(f);
        assert(justified(*ast, f)) by {
            assert(f.rule.fires(*ast, i as int, ctx));
        }
        assert forall|k: int| 0 <= k < out@.len() implies justified(*ast, #[trigger] out@[k]) by {
            if k < out@.len() - 1 {
                assert(justified(*ast, old(out)@[k]));
            }
        }
        assert(out@ =~= old(out)@ + hit(*ast, rule, i as int, ctx));
    } else {
        assert(out@ =~= old(out)@ + hit(*ast, rule, i as int, ctx));
    }
}

/// Visits node `i` and then its subtrees, in pre-order, running every rule
/// on every node in registration order.
fn visit(ast: &Ast, i: usize, ctx: Context, out: &mut Vec<Finding>, len: Ghost<nat>)
    requires
        ast.wf(len@),
        i < ast.nodes@.len(),
        forall|k: int| 0 <= k < old(out)@.len() ==> justified(*ast, #[trigger] old(out)@[k]),
    ensures
        forall|k: int| 0 <= k < final(out)@.len() ==> justified(*ast, #[trigger] final(out)@[k]),
        final(out)@ == old(out)@ + visit_spec(*ast, i as nat, ctx),
    decreases i,
{
    let ghost out0 = out@;
    apply(Rule::UnfilteredEverything, ast, i, ctx, out, len);
    apply(Rule::JoinInFilter, ast, i, ctx, out, len);
    apply(Rule::DoubleNegation, ast, i, ctx, out, len);
    apply(Rule::NegatedEquality, ast, i, ctx, out, len);
    let n = &ast.nodes[i];
    proof {
        assert(node_ok(ast.nodes@, i as int, len@));
    }
    let is_filter = n.kind == NodeKind::Filter;
    let mut j: usize = 0;
    assert(out@ + children_spec(*ast, i as nat, ctx, 0) =~= out0 + visit_spec(*ast, i as nat, ctx));
    while j < n.children.len()
        invariant
            ast.wf(len@),
            i < ast.nodes@.len(),
            n == ast.nodes@[i as int],
            node_ok(ast.nodes@, i as int, len@),
            forall|k: int| 0 <= k < out@.len() ==> justified(*ast, #[trigger] out@[k]),
            j <= n.children@.len(),
            is_filter == (n.kind == NodeKind::Filter),
            out@ + children_spec(*ast, i as nat, ctx, j as nat) == out0 + visit_spec(*ast, i as nat, ctx),
        decreases n.children@.len() - j,
    {
        let c = n.children[j];
        let child_ctx = if is_filter && j == 0 {
            Context { in_filter: ctx.in_filter, filtered: true }
        } else if is_filter && j == 1 {
            Context { in_filter: true, filtered: false }
        } else {
            Context { in_filter: ctx.in_filter, filtered: false }
        };
        assert(child_ctx == child_context(n.kind, ctx, j as int));
        let ghost before = out@;
        visit(ast, c, child_ctx, out, len);
        assert(children_spec(*ast, i as nat, ctx, j as nat) == visit_spec(*ast, c as nat, child_ctx)
            + children_spec(*ast, i as nat, ctx, (j + 1) as nat));
        assert(out@ + children_spec(*ast, i as nat, ctx, (j + 1) as nat) =~= before + children_spec(*ast, i as nat, ctx, j as nat));
        j = j + 1;
    }
    assert(children_spec(*ast, i as nat, ctx, j as nat) =~= Seq::empty());
    assert(out@ =~= out@ + children_spec(*ast, i as nat, ctx, j as nat));
}

/// Runs every rule over a well-formed tree. Each finding comes from a rule
/// that fires on a node with the finding's span, and the findings are
/// ordered by start of span, then by registration order of their rules.
pub fn lint_tree(ast: &Ast, len: usize) -> (r: Vec<Finding>)
    requires
        ast.wf(len as nat),
    ensures
        r@ == lint_spec(*ast),
        sorted(r@),
        forall|k: int| 0 <= k < r@.len() ==> justified(*ast, #[trigger] r@[k]),
{
    let mut out: Vec<Finding> = Vec::new();
    visit(ast, ast.root, Context { in_filter: false, filtered: false }, &mut out, Ghost(len as nat));
    let r = sort_findings(out);
    proof {
        broadcast use vstd::seq_lib::group_to_multiset_ensures;
        assert forall|k: int| 0 <= k < r@.len() implies justified(*ast, #[trigger] r@[k]) by {
            assert(r@.contains(r@[k]));
            assert(r@.to_multiset().count(r@[k]) > 0);
            assert(out@.contains(r@[k]));
        }
    }
    r
}

/// Two well-formed trees with the same nodes agree at every index.
proof fn lemma_same_nodes(a1: Ast, a2: Ast, len: nat)
    requires
        a1.wf(len),
        a2.wf(len),
        nodes_view(a1.nodes@) == nodes_view(a2.nodes@),
    ensures
        a1.nodes@.len() == a2.nodes@.len(),
        forall|x: int| 0 <= x < a1.nodes@.len() ==> {
            &&& (#[trigger] a1.nodes@[x]).kind == a2.nodes@[x].kind
            &&& a1.nodes@[x].span == a2.nodes@[x].span
            &&& a1.nodes@[x].children@ == a2.nodes@[x].children@
        },
{
    assert(nodes_view(a1.nodes@).len() == a1.nodes@.len());
    assert forall|x: int| 0 <= x < a1.nodes@.len() implies {
        &&& (#[trigger] a1.nodes@[x]).kind == a2.nodes@[x].kind
        &&& a1.nodes@[x].span == a2.nodes@[x].span
        &&& a1.nodes@[x].children@ == a2.nodes@[x].children@
    } by {
        assert(nodes_view(a1.nodes@)[x] == nodes_view(a2.nodes@)[x]);
    }
}

proof fn lemma_visit_same(a1: Ast, a2: Ast, len: nat, i: nat, ctx: Context)
    requires
        a1.wf(len),
        a2.wf(len),
        a1.nodes@.len() == a2.nodes@.len(),
        forall|x: int| 0 <= x < a1.nodes@.len() ==> {
            &&& (#[trigger] a1.nodes@[x]).kind == a2.nodes@[x].kind
            &&& a1.nodes@[x].span == a2.nodes@[x].span
            &&& a1.nodes@[x].children@ == a2.nodes@[x].children@
        },
        i < a1.nodes@.len(),
    ensures
        visit_spec(a1, i, ctx) == visit_spec(a2, i, ctx),
    decreases i, 1nat, 0nat,
{
    assert(node_ok(a1.nodes@, i as int, len));
    let n = a1.nodes@[i as int];
    assert(a1.nodes@[i as int].kind == a2.nodes@[i as int].kind);
    if n.children@.len() == 1 {
        let c = n.children@[0] as int;
        assert(a1.nodes@[c].kind == a2.nodes@[c].kind);
        assert(node_ok(a1.nodes@, c, len));
        if a1.nodes@[c].children@.len() == 1 {
            let g = a1.nodes@[c].children@[0] as int;
            assert(a1.nodes@[g].kind == a2.nodes@[g].kind);
        }
    }
    assert(node_hits(a1, i as int, ctx) == node_hits(a2, i as int, ctx));
    lemma_children_same(a1, a2, len, i, ctx, 0);
}

proof fn lemma_children_same(a1: Ast, a2: Ast, len: nat, i: nat, ctx: Context, j: nat)
    requires
        a1.wf(len),
        a2.wf(len),
        a1.nodes@.len() == a2.nodes@.len(),
        forall|x: int| 0 <= x < a1.nodes@.len() ==> {
            &&& (#[trigger] a1.nodes@[x]).kind == a2.nodes@[x].kind
            &&& a1.nodes@[x].span == a2.nodes@[x].span
            &&& a1.nodes@[x].children@ == a2.nodes@[x].children@
        },
        i < a1.nodes@.len(),
    ensures
        children_spec(a1, i, ctx, j) == children_spec(a2, i, ctx, j),
    decreases i, 0nat, a1.nodes@[i as int].children@.len() - j,
{
    assert(node_ok(a1.nodes@, i as int, len));
    assert(a1.nodes@[i as int].children@ == a2.nodes@[i as int].children@);
    let c = a1.nodes@[i as int].children@;
    if j < c.len() && c[j as int] < i {
        lemma_visit_same(a1, a2, len, c[j as int] as nat, child_context(a1.nodes@[i as int].kind, ctx, j as int));
        lemma_children_same(a1, a2, len, i, ctx, j + 1);
    }
}

/// Linting is deterministic: any two trees that a query parses to give the
/// same findings, in the same order.
pub proof fn lemma_lint_deterministic(src: Seq<u8>, a1: Ast, a2: Ast)
    requires
        a1.wf(src.len()),
        a2.wf(src.len()),
        parsed_as(src, a1),
        parsed_as(src, a2),
    ensures
        lint_spec(a1) == lint_spec(a2),
{
    lemma_same_nodes(a1, a2, src.len());
    lemma_visit_same(a1, a2, src.len(), a1.root as nat, Context { in_filter: false, filtered: false });
}

/// Lints a query. Fails exactly as parsing fails; otherwise the findings are
/// those of `lint_tree` on the parsed tree: each lies within the query, is
/// raised by a rule that fires on a node of the tree, and they come in order.
pub fn lint(query: &str) -> (r: Result<Vec<Finding>, QueryError>)
    ensures
        match r {
            Ok(fs) => sorted(fs@) && exists|ast: Ast| #[trigger] parsed_as(query.spec_bytes(), ast)
                && ast.wf(query.spec_bytes().len())
                && fs@ == lint_spec(ast)
                && forall|k: int| 0 <= k < fs@.len() ==> justified(ast, #[trigger] fs@[k]),
            Err(e) => {
                &&& parse_spec(query.spec_bytes()) == Err::<(Seq<NodeView>, nat, Seq<Span>), ErrorView>(error_view(e))
                &&& e.span_of().valid(query.spec_bytes().len())
                &&& (e is EmptyQuery ==> blank(query.spec_bytes()))
                &&& (e is LexError ==> lex_error_at(query.spec_bytes(), e.span_of()))
            },
        },
        r is Ok <==> parse_spec(query.spec_bytes()) is Ok,
        lex_spec(query.spec_bytes()) is Err ==> r == Err::<Vec<Finding>, QueryError>(
            QueryError::LexError { span: lex_spec(query.spec_bytes())->Err_0 },
        ),
        lex_spec(query.spec_bytes()) is Ok && lex_spec(query.spec_bytes())->Ok_0.0.len() == 1 ==> r is Err
            && r->Err_0 is EmptyQuery,
{
    let src = query.as_bytes();
    let ast = parse(src)?;
    assert(parsed_as(query.spec_bytes(), ast));
    let fs = lint_tree(&ast, src.len());
    Ok(fs)
}

impl Severity {
    pub open spec fn name_spec(self) -> Seq<char> {
        match self {
            Severity::Error => "error"@,
            Severity::Warning => "warning"@,
            Severity::Info => "info"@,
        }
    }

    /// The lowercase name callers see.
    pub fn name(&self) -> (r: &'static str)
        ensures
            r@ == self.name_spec(),
    {
        match self {
            Severity::Error => "error",
            Severity::Warning => "warning",
            Severity::Info => "info",
        }
    }
}

/// A finding as callers receive it: the rule's identifier and message, the
/// severity by its lowercase name, and the span's two ends.
#[derive(Clone, Debug, PartialEq, Eq)]
pub struct JsFinding {
    pub rule_id: String,
    pub message: String,
    pub severity: String,
    pub start: usize,
    pub end: usize,
}

impl JsFinding {
    pub fn from_finding(f: &Finding) -> (r: JsFinding)
        ensures
            r.rule_id@ == f.rule.id_spec(),
            r.message@ == f.rule.message_spec(),
            r.severity@ == f.rule.severity_spec().name_spec(),
            r.start == f.span.start,
            r.end == f.span.end,
    {
        JsFinding {
            rule_id: f.rule.id().to_owned(),
            message: f.rule.message().to_owned(),
            severity: f.rule.severity().name().to_owned(),
            start: f.span.start,
            end: f.span.end,
        }
    }
}

/// Every finding of a list, in the same order, as callers receive it.
pub fn to_js_findings(fs: &Vec<Finding>) -> (r: Vec<JsFinding>)
    ensures
        r@.len() == fs@.len(),
        forall|k: int| 0 <= k < r@.len() ==> {
            &&& (#[trigger] r@[k]).start == fs@[k].span.start
            &&& r@[k].end == fs@[k].span.end
            &&& r@[k].rule_id@ == fs@[k].rule.id_spec()
            &&& r@[k].message@ == fs@[k].rule.message_spec()
            &&& r@[k].severity@ == fs@[k].rule.severity_spec().name_spec()
        },
{
    let mut r: Vec<JsFinding> = Vec::new();
    let mut k: usize = 0;
    while k < fs.len()
        invariant
            k <= fs@.len(),
            r@.len() == k,
            forall|m: int| 0 <= m < k ==> {
                &&& (#[trigger] r@[m]).start == fs@[m].span.start
                &&& r@[m].end == fs@[m].span.end
                &&& r@[m].rule_id@ == fs@[m].rule.id_spec()
                &&& r@[m].message@ == fs@[m].rule.message_spec()
                &&& r@[m].severity@ == fs@[m].rule.severity_spec().name_spec()
            },
        decreases fs@.len() - k,
    {
        r.push(JsFinding::from_finding(&fs[k]));
        k = k + 1;
    }
    r
}

} // verus!
