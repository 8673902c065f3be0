use groq_wasm::lint::{lint_tree, to_js_findings, Rule, Severity};
use groq_wasm::parser::parse;
use groq_wasm::token::{QueryError, TokKind};
use groq_wasm::{lint, JsFinding};

#[test]
fn test_lint_valid_query() {
    let result = lint("*[_type == \"post\"]");
    assert!(result.is_ok());
    let findings = result.unwrap();
    assert!(findings.is_empty());
}

#[test]
fn lint_unfiltered_everything() {
    let fs = lint("*{title}").unwrap();
    assert_eq!(fs.len(), 1);
    assert_eq!(fs[0].rule, Rule::UnfilteredEverything);
    assert_eq!((fs[0].span.start, fs[0].span.end), (0, 1));
    assert_eq!(fs[0].rule.severity(), Severity::Warning);
}

#[test]
fn lint_join_in_filter() {
    let fs = lint("*[author->name == \"x\"]").unwrap();
    assert_eq!(fs.len(), 1);
    assert_eq!(fs[0].rule, Rule::JoinInFilter);
    assert_eq!((fs[0].span.start, fs[0].span.end), (2, 14));
}

#[test]
fn lint_double_negation_and_negated_equality() {
    let fs = lint("*[!!a && !(b == 1)]").unwrap();
    let rules: Vec<Rule> = fs.iter().map(|f| f.rule).collect();
    assert_eq!(rules, vec![Rule::DoubleNegation, Rule::NegatedEquality]);
    assert_eq!(fs[0].span.start, 2);
    assert_eq!(fs[1].span.start, 9);
    assert_eq!(fs[1].rule.severity(), Severity::Info);
}

#[test]
fn lint_findings_sorted_by_start_then_rule() {
    let fs = lint("[*, *[a->b]]").unwrap();
    let keys: Vec<(usize, Rule)> = fs.iter().map(|f| (f.span.start, f.rule)).collect();
    assert_eq!(keys, vec![(1, Rule::UnfilteredEverything), (6, Rule::JoinInFilter)]);
}

#[test]
fn lint_is_deterministic() {
    let q = "*[!!a && ref->x == 1]{title, \"n\": !(a == b)}";
    assert_eq!(lint(q), lint(q));
}

#[test]
fn lint_syntax_error_at_end() {
    let err = lint("*[_type==").unwrap_err();
    match err {
        QueryError::SyntaxError { span, expected } => {
            assert_eq!((span.start, span.end), (9, 9));
            assert!(expected.contains(&TokKind::Str));
            assert!(expected.contains(&TokKind::Ident));
        },
        other => panic!("unexpected error {:?}", other),
    }
}

#[test]
fn lint_tree_matches_lint() {
    let q = "*{a}";
    let ast = parse(q.as_bytes()).unwrap();
    assert_eq!(lint_tree(&ast, q.len()), lint(q).unwrap());
}

#[test]
fn js_findings_carry_names() {
    let fs = lint("*[a->b]{x}").unwrap();
    let js = to_js_findings(&fs);
    assert_eq!(
        js,
        vec![JsFinding {
            rule_id: "join-in-filter".to_string(),
            message: Rule::JoinInFilter.message().to_string(),
            severity: "warning".to_string(),
            start: 2,
            end: 6,
        }]
    );
    let info = JsFinding::from_finding(&lint("!!a").unwrap()[0]);
    assert_eq!(info.severity, "info");
    assert_eq!(info.rule_id, "double-negation");
    assert_eq!((info.start, info.end), (0, 3));
}
