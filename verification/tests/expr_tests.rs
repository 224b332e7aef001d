use language_project_template::ast::{Expr, ExprInfixOp, ExprKind, ExprLiteral, OpInfix};
use language_project_template::span::Span;

fn num(text: &[u8], start: usize, end: usize) -> Expr {
    Expr::new(
        ExprKind::Literal(Box::new(ExprLiteral::Number(text.to_vec()))),
        Span::new(start, end),
    )
}

#[test]
fn test_expr_new_number() {
    let expr = num(b"1.0", 0, 5);

    assert_eq!(
        ExprKind::Literal(Box::new(ExprLiteral::Number(b"1.0".to_vec()))),
        *expr.kind()
    );
    assert_eq!(Span::new(0, 5), expr.span());
}

#[test]
fn test_expr_new_infix_op() {
    let expr = Expr::new(
        ExprKind::from((num(b"1.0", 0, 1), OpInfix::Add, num(b"2.0", 2, 3))),
        Span::new(0, 3),
    );

    assert_eq!(
        ExprKind::InfixOp(Box::new(ExprInfixOp {
            lt: Box::new(num(b"1.0", 0, 1)),
            op: OpInfix::Add,
            rt: Box::new(num(b"2.0", 2, 3)),
        })),
        *expr.kind()
    );
    assert_eq!(Span::new(0, 3), expr.span());
}

#[test]
fn test_expr_error() {
    let expr = Expr::error();

    assert_eq!(ExprKind::Error, *expr.kind());
    assert_eq!(Span::new(0, 0), expr.span());
}

#[test]
fn test_expr_span() {
    let expr = Expr::new(ExprKind::Error, Span::new(2, 7));
    assert_eq!(Span::new(2, 7), expr.span());
}

#[test]
fn test_expr_start() {
    let expr = Expr::new(ExprKind::Error, Span::new(2, 7));
    assert_eq!(2, expr.start());
}

#[test]
fn test_expr_end() {
    let expr = Expr::new(ExprKind::Error, Span::new(2, 7));
    assert_eq!(7, expr.end());
}

#[test]
fn test_expr_kind() {
    let kind = ExprKind::Literal(Box::new(ExprLiteral::Number(b"1.0".to_vec())));
    let expr = Expr::new(kind.clone(), Span::new(0, 5));
    assert_eq!(kind, *expr.kind());
}
