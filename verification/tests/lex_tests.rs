use language_project_template::errors::{ExprError, LexicalError};
use language_project_template::lexer::{lex, Token};
use language_project_template::span::Span;

fn lexical(start: usize, end: usize) -> (ExprError, Span) {
    (
        ExprError::LexicalError(LexicalError::UnrecognizedCharacterSequence),
        Span::new(start, end),
    )
}

#[test]
fn lex_empty_input_yields_nothing() {
    assert_eq!(0, lex("").len());
}

#[test]
fn lex_whitespace_only_yields_nothing() {
    assert_eq!(0, lex(" \t\n\x0c  ").len());
}

#[test]
fn lex_single_tokens() {
    let tokens = lex("( ) + - / *");
    assert_eq!(
        vec![
            Ok((0, Token::LParan, 1)),
            Ok((2, Token::RParan, 3)),
            Ok((4, Token::Plus, 5)),
            Ok((6, Token::Minus, 7)),
            Ok((8, Token::Slash, 9)),
            Ok((10, Token::Astrisk, 11)),
        ],
        tokens
    );
}

#[test]
fn lex_numbers_carry_their_text() {
    let tokens = lex("12 + 3.5");
    assert_eq!(
        vec![
            Ok((0, Token::Number(b"12".to_vec()), 2)),
            Ok((3, Token::Plus, 4)),
            Ok((5, Token::Number(b"3.5".to_vec()), 8)),
        ],
        tokens
    );
}

#[test]
fn lex_spans_reproduce_the_source_text() {
    let source = "12 + 3.5 * (7)";
    for item in lex(source) {
        let (start, token, end) = item.expect("this input has no lexical error");
        let text = &source.as_bytes()[start..end];
        match token {
            Token::LParan => assert_eq!(b"(", text),
            Token::RParan => assert_eq!(b")", text),
            Token::Plus => assert_eq!(b"+", text),
            Token::Minus => assert_eq!(b"-", text),
            Token::Slash => assert_eq!(b"/", text),
            Token::Astrisk => assert_eq!(b"*", text),
            Token::Number(digits) => assert_eq!(digits.as_slice(), text),
        }
    }
}

#[test]
fn lex_reports_an_error_and_resumes() {
    let tokens = lex("1 @ 2 # 3");
    assert_eq!(
        vec![
            Ok((0, Token::Number(b"1".to_vec()), 1)),
            Err(lexical(2, 3)),
            Ok((4, Token::Number(b"2".to_vec()), 5)),
            Err(lexical(6, 7)),
            Ok((8, Token::Number(b"3".to_vec()), 9)),
        ],
        tokens
    );
}

#[test]
fn lex_dot_without_following_digit_is_no_fraction() {
    assert_eq!(
        vec![
            Ok((0, Token::Number(b"1".to_vec()), 1)),
            Err(lexical(1, 2)),
        ],
        lex("1.")
    );
    assert_eq!(
        vec![
            Ok((0, Token::Number(b"1.5".to_vec()), 3)),
            Err(lexical(3, 4)),
            Ok((4, Token::Number(b"2".to_vec()), 5)),
        ],
        lex("1.5.2")
    );
}

#[test]
fn lex_multi_byte_character_spans_all_its_bytes() {
    // the pound sign occupies two bytes; its error span covers both
    let tokens = lex("\u{a3}1");
    assert_eq!(
        vec![
            Err(lexical(0, 2)),
            Ok((2, Token::Number(b"1".to_vec()), 3)),
        ],
        tokens
    );
}
