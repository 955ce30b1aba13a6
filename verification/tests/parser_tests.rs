use qlang::ast::Program;
use qlang::lexer::{Lexer, Token};
use qlang::parser::{ParseError, Parser};

fn parse(src: &str) -> Result<Program, ParseError> {
    let mut lexer = Lexer::new(src);
    let tokens = lexer.try_tokenize().expect("source should lex");
    let mut parser = Parser::new(tokens);
    parser.try_parse_program()
}

fn parse_debug(src: &str) -> String {
    format!("{:?}", parse(src).expect("source should parse").statements)
}

#[test]
fn parses_let_with_number() {
    assert_eq!(
        parse_debug("let x = 5;"),
        "[Let { name: \"x\", ty: None, value: Number(\"5\") }]"
    );
}

#[test]
fn parses_type_annotations() {
    assert_eq!(
        parse_debug("let a: f64 = 1; let b: dec = 2;"),
        "[Let { name: \"a\", ty: Some(F64), value: Number(\"1\") }, \
         Let { name: \"b\", ty: Some(Dec), value: Number(\"2\") }]"
    );
}

#[test]
fn multiplication_binds_tighter_than_addition() {
    assert_eq!(
        parse_debug("1 + 2 * 3;"),
        "[Expression(Binary { op: Add, left: Number(\"1\"), right: Binary { op: Mul, \
         left: Number(\"2\"), right: Number(\"3\") } })]"
    );
}

#[test]
fn operators_associate_to_the_left() {
    assert_eq!(
        parse_debug("a - b - c;"),
        "[Expression(Binary { op: Sub, left: Binary { op: Sub, left: Variable(\"a\"), \
         right: Variable(\"b\") }, right: Variable(\"c\") })]"
    );
}

#[test]
fn parentheses_group() {
    assert_eq!(
        parse_debug("(a + b) @ c;"),
        "[Expression(Binary { op: MatMul, left: Binary { op: Add, left: Variable(\"a\"), \
         right: Variable(\"b\") }, right: Variable(\"c\") })]"
    );
}

#[test]
fn pipe_binds_loosest() {
    assert_eq!(
        parse_debug("v .+ w |> relu();"),
        "[Expression(Binary { op: Pipe, left: Binary { op: ElementAdd, left: Variable(\"v\"), \
         right: Variable(\"w\") }, right: Call { callee: \"relu\", args: [] } })]"
    );
}

#[test]
fn element_wise_operators() {
    assert_eq!(
        parse_debug("a .* b ./ c .- d;"),
        "[Expression(Binary { op: ElementSub, left: Binary { op: ElementDiv, left: Binary { \
         op: ElementMul, left: Variable(\"a\"), right: Variable(\"b\") }, right: Variable(\"c\") }, \
         right: Variable(\"d\") })]"
    );
}

#[test]
fn parses_call_arguments() {
    assert_eq!(
        parse_debug("zeros(2, 3);"),
        "[Expression(Call { callee: \"zeros\", args: [Number(\"2\"), Number(\"3\")] })]"
    );
}

#[test]
fn parses_vector_and_matrix_literals() {
    assert_eq!(
        parse_debug("let v = [1, 2.5]; let m = [[1, 2], [3, 4]];"),
        "[Let { name: \"v\", ty: None, value: Vector([Number(\"1\"), Number(\"2.5\")]) }, \
         Let { name: \"m\", ty: None, value: Matrix([[Number(\"1\"), Number(\"2\")], \
         [Number(\"3\"), Number(\"4\")]]) }]"
    );
}

#[test]
fn minus_before_a_number_makes_a_negative_literal() {
    assert_eq!(
        parse_debug("let w = [-0.2, 0.8];"),
        "[Let { name: \"w\", ty: None, value: Vector([Number(\"-0.2\"), Number(\"0.8\")]) }]"
    );
}

#[test]
fn parses_vector_slice() {
    assert_eq!(
        parse_debug("v[1..3];"),
        "[Expression(Slice { target: Variable(\"v\"), start: 1, end: 3 })]"
    );
}

#[test]
fn slice_start_defaults_to_zero() {
    assert_eq!(
        parse_debug("v[..2];"),
        "[Expression(Slice { target: Variable(\"v\"), start: 0, end: 2 })]"
    );
}

#[test]
fn parses_matrix_slice() {
    assert_eq!(
        parse_debug("let sub = M[0..2, 1..3];"),
        "[Let { name: \"sub\", ty: None, value: MatrixSlice { target: Variable(\"M\"), \
         r_start: 0, r_end: 2, c_start: 1, c_end: 3 } }]"
    );
}

#[test]
fn empty_program_has_no_statements() {
    assert_eq!(parse_debug(""), "[]");
}

#[test]
fn missing_semicolon_is_reported() {
    match parse("let x = 1") {
        Err(ParseError::Expected { expected, found }) => {
            assert_eq!(format!("{:?}", expected), "Semicolon");
            assert_eq!(format!("{:?}", found), "Eof");
        }
        other => panic!("unexpected result {:?}", other.map(|p| p.statements)),
    }
}

#[test]
fn let_needs_an_identifier() {
    assert!(matches!(parse("let 5 = 1;"), Err(ParseError::ExpectedIdentifier)));
}

#[test]
fn unknown_type_annotation_is_reported() {
    match parse("let x: int = 1;") {
        Err(ParseError::UnknownTypeAnnotation(name)) => assert_eq!(name, "int"),
        other => panic!("unexpected result {:?}", other.map(|p| p.statements)),
    }
}

#[test]
fn type_annotation_must_be_a_name() {
    assert!(matches!(parse("let x: 5 = 1;"), Err(ParseError::ExpectedTypeAnnotation)));
}

#[test]
fn unexpected_token_is_reported() {
    match parse("let x = ;") {
        Err(ParseError::UnexpectedToken(t)) => assert_eq!(format!("{:?}", t), "Semicolon"),
        other => panic!("unexpected result {:?}", other.map(|p| p.statements)),
    }
}

#[test]
fn slice_needs_an_end() {
    assert!(matches!(parse("v[1..];"), Err(ParseError::ExpectedSliceEnd)));
}

#[test]
fn matrix_slice_needs_a_column_end() {
    assert!(matches!(parse("M[0..1, 0..];"), Err(ParseError::ExpectedColumnSliceEnd)));
}

#[test]
fn parse_program_matches_try_parse_program() {
    let mut lexer = Lexer::new("let a = 1; a;");
    let tokens = lexer.tokenize();
    let mut parser = Parser::new(tokens);
    let program = parser.parse_program();
    assert_eq!(
        format!("{:?}", program.statements),
        "[Let { name: \"a\", ty: None, value: Number(\"1\") }, Expression(Variable(\"a\"))]"
    );
}

#[test]
fn parsing_stops_at_the_first_eof() {
    let tokens = vec![Token::Eof, Token::Ident("x".to_string())];
    let mut parser = Parser::new(tokens);
    assert_eq!(format!("{:?}", parser.try_parse_program().unwrap().statements), "[]");

    let tokens = vec![
        Token::Ident("x".to_string()),
        Token::Semicolon,
        Token::Eof,
        Token::Ident("y".to_string()),
    ];
    let mut parser = Parser::new(tokens);
    assert_eq!(
        format!("{:?}", parser.try_parse_program().unwrap().statements),
        "[Expression(Variable(\"x\"))]"
    );
}
