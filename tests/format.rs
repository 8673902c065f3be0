use groq_wasm::format::DEFAULT_WIDTH;
use groq_wasm::format_query;
use groq_wasm::parser::parse;
use groq_wasm::token::{QueryError, TokKind};

#[test]
fn test_format_query() {
    let result = groq_wasm::format::format("*[_type==\"post\"]{title}", Some(80));
    assert!(result.is_ok());
}

#[test]
fn format_normalizes_spacing() {
    assert_eq!(format_query("*[_type==\"post\"]{title}", 80).unwrap(), "*[_type == \"post\"]{title}");
    assert_eq!(groq_wasm::format::format("*[_type==\"post\"]{title}", None).unwrap(), "*[_type == \"post\"]{title}");
    assert_eq!(DEFAULT_WIDTH, 80);
}

#[test]
fn format_breaks_projection_one_field_per_line() {
    let out = format_query("*[a]{alpha,beta,gamma,delta,eps}", 10).unwrap();
    assert_eq!(out, "*[a]{\n  alpha,\n  beta,\n  gamma,\n  delta,\n  eps\n}");
}

#[test]
fn format_inner_group_stays_flat_when_it_fits() {
    let out = format_query("{\"aaaa\": f(x,y), \"bbbb\": [1,2], \"cccc\": c}", 20).unwrap();
    assert_eq!(out, "{\n  \"aaaa\": f(x, y),\n  \"bbbb\": [1, 2],\n  \"cccc\": c\n}");
}

#[test]
fn format_operators_and_forms() {
    let q = "*[_type in [\"a\",\"b\"]&&!(x>=1)||$p match \"z*\"][0..10]|order(n){...,\"r\":ref->name,-a**2}";
    let out = format_query(q, 200).unwrap();
    assert_eq!(
        out,
        "*[_type in [\"a\", \"b\"] && !(x >= 1) || $p match \"z*\"][0..10] | order(n){..., \"r\": ref->name, -a ** 2}"
    );
}

#[test]
fn format_is_idempotent() {
    for q in [
        "*[_type==\"post\"]{title}",
        "*[a]{alpha,beta,gamma,delta,eps}",
        "{\"aaaa\": f(x,y), \"bbbb\": [1,2], \"cccc\": c}",
        "count(*[a->b==1])",
    ] {
        for w in [10usize, 20, 80] {
            let once = format_query(q, w).unwrap();
            let twice = format_query(&once, w).unwrap();
            assert_eq!(once, twice);
        }
    }
}

fn shape(q: &str) -> Vec<(groq_wasm::ast::NodeKind, Vec<usize>)> {
    let ast = parse(q.as_bytes()).unwrap();
    ast.nodes.iter().map(|n| (n.kind, n.children.clone())).collect()
}

#[test]
fn format_preserves_meaning() {
    for q in ["*[_type==\"post\"]{title}", "*[a]{alpha,beta,gamma,delta,eps}", "a|b[c]->d.e"] {
        let out = format_query(q, 10).unwrap();
        assert_eq!(shape(q), shape(&out));
    }
}

#[test]
fn format_respects_width() {
    let q = "*[a]{title, \"author\": author->name, body, tags, publishedAt, \"n\": count(*[defined(x)])}";
    let out = format_query(q, 30).unwrap();
    for line in out.lines() {
        assert!(line.len() <= 30, "line too long: {:?}", line);
    }
}

#[test]
fn format_keeps_long_string_whole() {
    let long = "\"aaaaaaaaaaaaaaaaaaaaaaaaaaaaaa\"";
    let out = format_query(long, 10).unwrap();
    assert_eq!(out, long);
}

#[test]
fn format_syntax_error_at_end() {
    match groq_wasm::format::format("*[_type==", Some(80)).unwrap_err() {
        QueryError::SyntaxError { span, expected } => {
            assert_eq!((span.start, span.end), (9, 9));
            assert!(expected.contains(&TokKind::Str));
            assert!(expected.contains(&TokKind::Ident));
        },
        other => panic!("unexpected error {:?}", other),
    }
}

#[test]
fn format_keeps_comments() {
    assert_eq!(format_query("*[a] // keep\n", 80).unwrap(), "*[a] // keep\n");
    let out = format_query("{a, // first\n b}", 80).unwrap();
    assert_eq!(out, "{\n  a,\n  // first\n  b\n}");
    assert_eq!(format_query(&out, 80).unwrap(), out);
}

#[test]
fn format_breaks_long_filter() {
    let q = "*[_type == \"post\" && defined(slug) && !(_id in path(\"drafts.**\"))]{title}";
    let out = format_query(q, 40).unwrap();
    assert_eq!(
        out,
        "*[\n  _type == \"post\" && defined(slug) &&\n  !(_id in path(\"drafts.**\"))\n]{title}"
    );
    for line in out.lines() {
        assert!(line.len() <= 40);
    }
    assert_eq!(format_query(&out, 40).unwrap(), out);
}

#[test]
fn format_orderings() {
    let out = format_query("*[_type=='a']|order(publishedAt   desc,title asc)[0...10]", 80).unwrap();
    assert_eq!(out, "*[_type == 'a'] | order(publishedAt desc, title asc)[0...10]");
    assert_eq!(format_query(&out, 80).unwrap(), out);
    let narrow = format_query(&out, 20).unwrap();
    assert_eq!(narrow, "*[_type == 'a'] |\norder(\n  publishedAt desc,\n  title asc\n)[0...10]");
    assert_eq!(shape(&out), shape(&narrow));
}

#[test]
fn format_breaks_comparisons_and_fields() {
    assert_eq!(format_query("aaaaaa==bbbbbb", 10).unwrap(), "aaaaaa ==\nbbbbbb");
    let out = format_query("{\"title\": coalesce(a, b)}", 16).unwrap();
    assert_eq!(out, "{\n  \"title\":\n  coalesce(a, b)\n}");
    assert_eq!(format_query(&out, 16).unwrap(), out);
}

#[test]
fn format_keeps_comment_before_closing_bracket() {
    let out = format_query("{a // c\n}", 80).unwrap();
    assert_eq!(out, "{\n  a\n  // c\n}");
    assert_eq!(format_query(&out, 80).unwrap(), out);
}
