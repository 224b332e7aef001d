use language_project_template::lexer::{Lexer, Token};

#[test]
fn lexer_yields_items_one_at_a_time() {
    let source = "1 + 2";
    let mut lexer = Lexer::new(source);
    assert_eq!(Some(Ok((0, Token::Number(b"1".to_vec()), 1))), lexer.next());
    assert_eq!(Some(Ok((2, Token::Plus, 3))), lexer.next());
    assert_eq!(Some(Ok((4, Token::Number(b"2".to_vec()), 5))), lexer.next());
    assert_eq!(None, lexer.next());
    assert_eq!(None, lexer.next());
}

#[test]
fn lexer_pending_slot_is_served_first() {
    let source = "1";
    let mut lexer = Lexer::new(source);
    // push a token back: the next pull must return it before the scan resumes
    lexer.pending = Some((7, Token::RParan, 8));
    assert_eq!(Some(Ok((7, Token::RParan, 8))), lexer.next());
    assert_eq!(Some(Ok((0, Token::Number(b"1".to_vec()), 1))), lexer.next());
    assert_eq!(None, lexer.next());
}
