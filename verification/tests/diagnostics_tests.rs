use language_project_template::errors::diagnostics::get_diagnostics;
use language_project_template::parser::parse;

#[test]
fn diagnostics_resolve_lines_and_columns() {
    // an invalid character on line one, a trailing token on line two
    let source = "@\n1 2";
    let errors = parse(source).err().unwrap();
    let diagnostics = get_diagnostics(&errors, source);

    assert_eq!(2, diagnostics.len());
    assert_eq!(1, diagnostics[0].line);
    assert_eq!(1, diagnostics[0].column);
    assert_eq!("unrecognized character sequence", diagnostics[0].message);
    assert_eq!(2, diagnostics[1].line);
    assert_eq!(3, diagnostics[1].column);
    assert_eq!("extra token number", diagnostics[1].message);
}

#[test]
fn diagnostics_render_expected_token_lists() {
    let source = "(";
    let errors = parse(source).err().unwrap();
    let diagnostics = get_diagnostics(&errors, source);

    assert_eq!(1, diagnostics.len());
    assert_eq!(1, diagnostics[0].line);
    assert_eq!(2, diagnostics[0].column);
    assert_eq!(
        "unrecognized end of input, expected one of: \"(\", number",
        diagnostics[0].message
    );
}

#[test]
fn diagnostics_name_the_unexpected_token() {
    let source = "1 +\n\n  ) 2";
    let errors = parse(source).err().unwrap();
    let diagnostics = get_diagnostics(&errors, source);

    assert_eq!(1, diagnostics.len());
    assert_eq!(3, diagnostics[0].line);
    assert_eq!(3, diagnostics[0].column);
    assert_eq!(
        "unrecognized token \")\", expected one of: \"(\", number",
        diagnostics[0].message
    );
}

#[test]
fn diagnostics_keep_the_error_order() {
    let source = "@ #";
    let errors = parse(source).err().unwrap();
    let diagnostics = get_diagnostics(&errors, source);

    // two lexical errors in scan order, then the empty-expression error
    assert_eq!(3, diagnostics.len());
    assert_eq!((1, 1), (diagnostics[0].line, diagnostics[0].column));
    assert_eq!((1, 3), (diagnostics[1].line, diagnostics[1].column));
    assert_eq!(
        "unrecognized end of input, expected one of: \"(\", number",
        diagnostics[2].message
    );
}
