use language_project_template::ast::{Expr, ExprKind, ExprLiteral, OpInfix};
use language_project_template::errors::{ExprError, LexicalError, SyntaxError};
use language_project_template::parser::parse;
use language_project_template::span::Span;

fn num(text: &[u8], start: usize, end: usize) -> Expr {
    Expr::new(
        ExprKind::Literal(Box::new(ExprLiteral::Number(text.to_vec()))),
        Span::new(start, end),
    )
}

fn infix(lt: Expr, op: OpInfix, rt: Expr, start: usize, end: usize) -> Expr {
    Expr::new(ExprKind::from((lt, op, rt)), Span::new(start, end))
}

#[test]
fn invalid_parse_produces_error() {
    let result = parse("(").err().unwrap();

    assert_eq!(
        vec![(
            ExprError::SyntaxError(SyntaxError::UnrecognizedEOF {
                expected: vec!["\"(\"".to_string(), "number".to_string()]
            }),
            Span::new(1, 1)
        )],
        result
    );
}

#[test]
fn precedence_binds_multiplication_tighter() {
    // 1 + 2 * 3 groups as 1 + (2 * 3), not (1 + 2) * 3
    let expr = parse("1 + 2 * 3").unwrap();
    assert_eq!(
        infix(
            num(b"1", 0, 1),
            OpInfix::Add,
            infix(num(b"2", 4, 5), OpInfix::Multiply, num(b"3", 8, 9), 4, 9),
            0,
            9,
        ),
        expr
    );
}

#[test]
fn parentheses_override_precedence() {
    // (1 + 2) * 3 groups as (1 + 2) * 3; the inner sum keeps its own span
    let expr = parse("(1 + 2) * 3").unwrap();
    assert_eq!(
        infix(
            infix(num(b"1", 1, 2), OpInfix::Add, num(b"2", 5, 6), 1, 6),
            OpInfix::Multiply,
            num(b"3", 10, 11),
            0,
            11,
        ),
        expr
    );
}

#[test]
fn left_associativity() {
    // 8 - 2 - 1 groups as (8 - 2) - 1
    let expr = parse("8 - 2 - 1").unwrap();
    assert_eq!(
        infix(
            infix(num(b"8", 0, 1), OpInfix::Subtract, num(b"2", 4, 5), 0, 5),
            OpInfix::Subtract,
            num(b"1", 8, 9),
            0,
            9,
        ),
        expr
    );
}

#[test]
fn division_parses_as_infix() {
    let expr = parse("6 / 2").unwrap();
    assert_eq!(
        infix(num(b"6", 0, 1), OpInfix::Divide, num(b"2", 4, 5), 0, 5),
        expr
    );
}

#[test]
fn wholly_parenthesized_input_keeps_the_inner_span() {
    // the parenthesized-expression rule: the node is the inner expression,
    // its span untouched by the surrounding parentheses
    assert_eq!(num(b"3", 2, 3), parse("((3))").unwrap());
    assert_eq!(Span::new(1, 2), parse("(1)").unwrap().span());
}

#[test]
fn root_span_is_the_trimmed_extent() {
    assert_eq!(Span::new(2, 3), parse("  7  ").unwrap().span());
    assert_eq!(Span::new(1, 10), parse("\t1 + 2 * 3\n").unwrap().span());
}

#[test]
fn parse_is_deterministic() {
    let ok_first = parse("1 + 2 * 3");
    let ok_second = parse("1 + 2 * 3");
    assert_eq!(ok_first, ok_second);

    let err_first = parse("1 + @ )");
    let err_second = parse("1 + @ )");
    assert!(err_first.is_err());
    assert_eq!(err_first, err_second);
}

#[test]
fn unexpected_token_lists_what_an_expression_may_start_with() {
    let result = parse("1 + * 2").err().unwrap();
    assert_eq!(
        vec![(
            ExprError::SyntaxError(SyntaxError::UnrecognizedToken {
                token: "\"*\"".to_string(),
                expected: vec!["\"(\"".to_string(), "number".to_string()],
            }),
            Span::new(4, 5)
        )],
        result
    );
}

#[test]
fn unexpected_token_after_a_group_lists_its_continuations() {
    let result = parse("(1 2").err().unwrap();
    assert_eq!(
        vec![(
            ExprError::SyntaxError(SyntaxError::UnrecognizedToken {
                token: "number".to_string(),
                expected: vec![
                    "\")\"".to_string(),
                    "\"*\"".to_string(),
                    "\"+\"".to_string(),
                    "\"-\"".to_string(),
                    "\"/\"".to_string(),
                ],
            }),
            Span::new(3, 4)
        )],
        result
    );
}

#[test]
fn trailing_token_is_an_extra_token_error() {
    let result = parse("1 2").err().unwrap();
    assert_eq!(
        vec![(
            ExprError::SyntaxError(SyntaxError::ExtraToken { token: "number".to_string() }),
            Span::new(2, 3)
        )],
        result
    );
}

#[test]
fn lexical_and_syntax_errors_are_both_reported() {
    // one invalid character, then one trailing token: both errors, in order
    // of discovery
    let result = parse("@\n1 2").err().unwrap();
    assert_eq!(
        vec![
            (
                ExprError::LexicalError(LexicalError::UnrecognizedCharacterSequence),
                Span::new(0, 1)
            ),
            (
                ExprError::SyntaxError(SyntaxError::ExtraToken { token: "number".to_string() }),
                Span::new(4, 5)
            ),
        ],
        result
    );
}

#[test]
fn lexical_error_alone_rejects_the_input() {
    let result = parse("1 + 2 #").err().unwrap();
    assert_eq!(
        vec![(
            ExprError::LexicalError(LexicalError::UnrecognizedCharacterSequence),
            Span::new(6, 7)
        )],
        result
    );
}

#[test]
fn empty_input_is_an_unrecognized_end_of_input() {
    let result = parse("").err().unwrap();
    assert_eq!(
        vec![(
            ExprError::SyntaxError(SyntaxError::UnrecognizedEOF {
                expected: vec!["\"(\"".to_string(), "number".to_string()]
            }),
            Span::new(0, 0)
        )],
        result
    );
}
