use groq_wasm::ast::{BinOp, NodeKind};
use groq_wasm::lexer::tokenize;
use groq_wasm::parser::{parse, MAX_DEPTH};
use groq_wasm::token::{QueryError, TokKind};

#[test]
fn tokens_have_spans() {
    let toks = tokenize("a.b == 1.5e3 // note\n'x\\'y'".as_bytes()).unwrap();
    let kinds: Vec<TokKind> = toks.iter().map(|t| t.kind).collect();
    assert_eq!(kinds, vec![TokKind::Ident, TokKind::Dot, TokKind::Ident, TokKind::EqEq, TokKind::Num, TokKind::Str, TokKind::Eof]);
    assert_eq!((toks[4].span.start, toks[4].span.end), (7, 12));
    assert_eq!((toks[5].span.start, toks[5].span.end), (21, 27));
    assert_eq!((toks[6].span.start, toks[6].span.end), (27, 27));
}

#[test]
fn lexer_errors() {
    assert_eq!(tokenize("\"abc".as_bytes()).unwrap_err().span(), groq_wasm::span::Span { start: 0, end: 4 });
    assert!(matches!(tokenize("\"a\\q\"".as_bytes()), Err(QueryError::LexError { .. })));
    assert!(matches!(tokenize("a # b".as_bytes()), Err(QueryError::LexError { .. })));
}

#[test]
fn empty_query_is_refused() {
    assert!(matches!(parse("".as_bytes()), Err(QueryError::EmptyQuery { .. })));
    assert!(matches!(parse("  // only a comment".as_bytes()), Err(QueryError::EmptyQuery { .. })));
}

#[test]
fn trailing_garbage_is_refused() {
    match parse("a b".as_bytes()) {
        Err(QueryError::SyntaxError { span, expected }) => {
            assert_eq!((span.start, span.end), (2, 3));
            assert_eq!(expected, vec![TokKind::Eof]);
        },
        other => panic!("unexpected {:?}", other),
    }
}

#[test]
fn deep_nesting_is_refused() {
    let q = format!("{}1{}", "(".repeat(MAX_DEPTH), ")".repeat(MAX_DEPTH));
    assert!(matches!(parse(q.as_bytes()), Err(QueryError::ResourceLimitExceeded { .. })));
    assert!(parse("((((1))))".as_bytes()).is_ok());
}

#[test]
fn precedence() {
    let ast = parse("a || b && c == d + e * f".as_bytes()).unwrap();
    let root = &ast.nodes[ast.root];
    assert_eq!(root.kind, NodeKind::Binary(BinOp::Or));
    let rhs = &ast.nodes[root.children[1]];
    assert_eq!(rhs.kind, NodeKind::Binary(BinOp::And));
    let pipe = parse("*[a] | order(b)".as_bytes()).unwrap();
    assert_eq!(pipe.nodes[pipe.root].kind, NodeKind::Binary(BinOp::Pipe));
    let neg = parse("-2 ** 2".as_bytes()).unwrap();
    assert_eq!(neg.nodes[neg.root].kind, NodeKind::Neg);
}

#[test]
fn descendants_lie_within_their_ancestors() {
    let q = "*[_type == \"post\" && count(tags[]) > 1]{title, \"a\": author->{name}}";
    let ast = parse(q.as_bytes()).unwrap();
    assert_eq!((ast.nodes[ast.root].span.start, ast.nodes[ast.root].span.end), (0, q.len()));
    for n in &ast.nodes {
        assert!(n.span.start <= n.span.end && n.span.end <= q.len());
        for &c in &n.children {
            let cs = ast.nodes[c].span;
            assert!(n.span.start <= cs.start && cs.end <= n.span.end);
        }
    }
}

#[test]
fn comments_are_collected() {
    let (toks, comments) = groq_wasm::lexer::tokenize_with_comments("a // x\n// y".as_bytes()).unwrap();
    assert_eq!(toks.len(), 2);
    let spans: Vec<(usize, usize)> = comments.iter().map(|c| (c.start, c.end)).collect();
    assert_eq!(spans, vec![(2, 6), (7, 11)]);
    let ast = parse("a // x".as_bytes()).unwrap();
    assert_eq!(ast.comments.len(), 1);
}

#[test]
fn lexical_error_kinds() {
    let span_of = |q: &str| match tokenize(q.as_bytes()) {
        Err(QueryError::LexError { span }) => (span.start, span.end),
        other => panic!("unexpected {:?}", other),
    };
    assert_eq!(span_of("$ x"), (0, 1));
    assert_eq!(span_of("a = b"), (2, 3));
    assert_eq!(span_of("a & b"), (2, 3));
    assert_eq!(span_of("'ab\\x'"), (3, 5));
    assert_eq!(span_of("'ab\\"), (0, 4));
}

#[test]
fn error_spans_are_reported() {
    let e = parse("*[a] ]".as_bytes()).unwrap_err();
    assert_eq!(e.span(), groq_wasm::span::Span { start: 5, end: 6 });
    assert!(matches!(parse("{a: }".as_bytes()), Err(QueryError::SyntaxError { .. })));
}
