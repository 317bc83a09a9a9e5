use nativum::expr::{BinOp, Expr, UnaryOp};
use nativum::expr_parse::parse_expr;
use nativum::span::Span;

fn p(s: &str) -> Expr {
    parse_expr(s, Span::dummy()).unwrap()
}

#[test]
fn parses_comparison_and_path() {
    match p("f == filter") {
        Expr::Binary { op: BinOp::Eq, .. } => {}
        other => panic!("{other:?}"),
    }
    match p("h.streak") {
        Expr::Field { name, .. } => assert_eq!(name, "streak"),
        other => panic!("{other:?}"),
    }
}

#[test]
fn parses_call_and_concat() {
    match p("plural(n, 'item', 'items')") {
        Expr::Call { name, args, .. } => {
            assert_eq!(name, "plural");
            assert_eq!(args.len(), 3);
        }
        other => panic!("{other:?}"),
    }
    match p("count ++ ' open'") {
        Expr::Binary { op: BinOp::Concat, .. } => {}
        other => panic!("{other:?}"),
    }
}

#[test]
fn precedence_of_and_over_or() {
    match p("a or b and c") {
        Expr::Binary { op: BinOp::Or, right, .. } => match *right {
            Expr::Binary { op: BinOp::And, .. } => {}
            other => panic!("{other:?}"),
        },
        other => panic!("{other:?}"),
    }
}

#[test]
fn unary_and_literals() {
    match p("not done") {
        Expr::Unary { op: UnaryOp::Not, .. } => {}
        other => panic!("{other:?}"),
    }
    match p("-3.5") {
        Expr::Unary { op: UnaryOp::Neg, expr, .. } => match *expr {
            Expr::Number(text, _) => assert_eq!(text, "3.5"),
            other => panic!("{other:?}"),
        },
        other => panic!("{other:?}"),
    }
    match p("true") {
        Expr::Bool(true, _) => {}
        other => panic!("{other:?}"),
    }
    match p("null") {
        Expr::Null(_) => {}
        other => panic!("{other:?}"),
    }
}

#[test]
fn index_and_object() {
    match p("items[0]") {
        Expr::Index { .. } => {}
        other => panic!("{other:?}"),
    }
    match p("{streak: 10, name: 'x'}") {
        Expr::Object { fields, .. } => {
            assert_eq!(fields.len(), 2);
            assert_eq!(fields[0].0, "streak");
        }
        other => panic!("{other:?}"),
    }
}

#[test]
fn root_idents_in_order() {
    let e = p("h.name ++ plural(count, 'a', other)");
    let mut roots = Vec::new();
    e.root_idents(&mut roots);
    assert_eq!(roots, vec!["h".to_string(), "count".to_string(), "other".to_string()]);
}

#[test]
fn trailing_input_is_an_error() {
    let err = parse_expr("a b", Span::dummy()).unwrap_err();
    assert!(err.describe().contains("unexpected trailing input"), "{}", err.describe());
}

#[test]
fn clone_is_deep() {
    let e = p("set_where(habits, 'id', 1, {streak: 10})");
    let c = e.clone();
    match c {
        Expr::Call { name, args, .. } => {
            assert_eq!(name, "set_where");
            assert_eq!(args.len(), 4);
        }
        other => panic!("{other:?}"),
    }
}
